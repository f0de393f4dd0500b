//! The report builder: orders the final table by total churn descending,
//! ties broken by path ascending, and renders one line per file.

use vstd::prelude::*;

use crate::model::{
    churn, dec_str, digit_char, entry_before, entry_leq, entry_order, lemma_entry_order_total,
    lemma_lex_leq_refl, lemma_report_strictly_ordered, lex_leq, lex_lt, render_entry_spec,
    render_report_spec, report_of, EntryView, LineDelta,
};
use crate::table::{lemma_entries_map_at, lemma_entries_map_contains, ChurnTable};
use vstd::relations::sorted_by;

verus! {

/// One line of the final report: a file path and its cumulative line delta.
#[derive(Debug)]
pub struct RankedEntry {
    /// The file the churn belongs to.
    pub path: String,
    /// Lines added and deleted over all qualifying commits.
    pub delta: LineDelta,
}

impl View for RankedEntry {
    type V = EntryView;

    open spec fn view(&self) -> EntryView {
        EntryView { path: self.path@, delta: self.delta }
    }
}

/// The views of a sequence of report entries.
pub open spec fn entry_views(s: Seq<RankedEntry>) -> Seq<EntryView> {
    s.map_values(|e: RankedEntry| e@)
}

/// The views of a sequence of table entries.
pub open spec fn pair_views(s: Seq<(String, LineDelta)>) -> Seq<EntryView> {
    s.map_values(|pr: (String, LineDelta)| EntryView { path: pr.0@, delta: pr.1 })
}

/// Outcome of a three-way path comparison.
#[derive(Clone, Copy, Debug, PartialEq, Eq, Structural)]
enum PathOrder {
    Before,
    Same,
    After,
}

/// Compares two paths lexicographically by code point.
fn path_cmp(a: &String, b: &String) -> (r: PathOrder)
    ensures
        (r == PathOrder::Same) <==> a@ == b@,
        (r == PathOrder::Before) <==> lex_lt(a@, b@),
        (r == PathOrder::After) <==> lex_lt(b@, a@),
{
    let la = a.as_str().unicode_len();
    let lb = b.as_str().unicode_len();
    let n = if la < lb {
        la
    } else {
        lb
    };
    let mut i: usize = 0;
    proof {
        assert(a@.skip(0) =~= a@);
        assert(b@.skip(0) =~= b@);
        lemma_lex_leq_refl(a@);
        lemma_lex_leq_refl(b@);
    }
    while i < n
        invariant
            i <= n,
            n <= a@.len(),
            n <= b@.len(),
            la == a@.len(),
            lb == b@.len(),
            n == if la < lb {
                la
            } else {
                lb
            },
            lex_leq(a@, b@) == lex_leq(a@.skip(i as int), b@.skip(i as int)),
            lex_leq(b@, a@) == lex_leq(b@.skip(i as int), a@.skip(i as int)),
            a@.subrange(0, i as int) == b@.subrange(0, i as int),
            lex_leq(a@, a@),
            lex_leq(b@, b@),
        decreases n - i,
    {
        let ca = a.as_str().get_char(i);
        let cb = b.as_str().get_char(i);
        proof {
            assert(a@.skip(i as int)[0] == a@[i as int]);
            assert(b@.skip(i as int)[0] == b@[i as int]);
        }
        if (ca as u32) < (cb as u32) {
            proof {
                assert(lex_leq(a@, b@));
                assert(!lex_leq(b@, a@));
                assert(a@ != b@);
            }
            return PathOrder::Before;
        }
        if (cb as u32) < (ca as u32) {
            proof {
                assert(lex_leq(b@, a@));
                assert(!lex_leq(a@, b@));
                assert(a@ != b@);
            }
            return PathOrder::After;
        }
        proof {
            assert(ca == cb) by {
                vstd::utf8::char_u32_cast(ca, ca as u32);
                vstd::utf8::char_u32_cast(cb, cb as u32);
            }
            assert(a@.skip(i as int).drop_first() =~= a@.skip(i as int + 1));
            assert(b@.skip(i as int).drop_first() =~= b@.skip(i as int + 1));
            assert(a@.subrange(0, i as int + 1) =~= b@.subrange(0, i as int + 1));
        }
        i = i + 1;
    }
    if la == lb {
        proof {
            assert(a@ =~= b@);
        }
        PathOrder::Same
    } else if la < lb {
        proof {
            assert(a@.skip(i as int).len() == 0);
            assert(b@.skip(i as int).len() > 0);
            assert(lex_leq(a@, b@));
            assert(!lex_leq(b@, a@));
            assert(a@ != b@);
        }
        PathOrder::Before
    } else {
        proof {
            assert(b@.skip(i as int).len() == 0);
            assert(a@.skip(i as int).len() > 0);
            assert(lex_leq(b@, a@));
            assert(!lex_leq(a@, b@));
            assert(a@ != b@);
        }
        PathOrder::After
    }
}

/// Decides the report order between two entries: more churn first, then path
/// ascending, then the delta itself.
fn entry_leq_exec(a: &RankedEntry, b: &RankedEntry) -> (r: bool)
    ensures
        r == entry_leq(a@, b@),
{
    let ca: u128 = (a.delta.added as u128) + (a.delta.deleted as u128);
    let cb: u128 = (b.delta.added as u128) + (b.delta.deleted as u128);
    if ca != cb {
        ca > cb
    } else {
        match path_cmp(&a.path, &b.path) {
            PathOrder::Before => true,
            PathOrder::After => false,
            PathOrder::Same => a.delta.added < b.delta.added || (a.delta.added == b.delta.added
                && a.delta.deleted <= b.delta.deleted),
        }
    }
}

/// Taking views commutes with removing one element.
proof fn lemma_entry_views_remove(s: Seq<RankedEntry>, i: int)
    requires
        0 <= i < s.len(),
    ensures
        entry_views(s.remove(i)) == entry_views(s).remove(i),
{
    assert(entry_views(s.remove(i)) =~= entry_views(s).remove(i));
}

/// Taking views commutes with inserting one element.
proof fn lemma_entry_views_insert(s: Seq<RankedEntry>, j: int, e: RankedEntry)
    requires
        0 <= j <= s.len(),
    ensures
        entry_views(s.insert(j, e)) == entry_views(s).insert(j, e@),
{
    assert(entry_views(s.insert(j, e)) =~= entry_views(s).insert(j, e@));
}

/// Inserting anywhere adds exactly one occurrence to the multiset.
proof fn lemma_to_multiset_insert(s: Seq<EntryView>, j: int, e: EntryView)
    requires
        0 <= j <= s.len(),
    ensures
        s.insert(j, e).to_multiset() == s.to_multiset().insert(e),
{
    broadcast use vstd::seq_lib::group_to_multiset_ensures;
    broadcast use vstd::multiset::group_multiset_axioms;

    let pre = s.take(j);
    let post = s.skip(j);
    assert(s.insert(j, e) =~= pre.push(e) + post);
    assert(s =~= pre + post);
    vstd::seq_lib::lemma_multiset_commutative(pre.push(e), post);
    vstd::seq_lib::lemma_multiset_commutative(pre, post);
    assert(pre.push(e).to_multiset() =~= pre.to_multiset().insert(e));
    assert(s.insert(j, e).to_multiset() =~= s.to_multiset().insert(e));
}

/// Sorts the entries by the report order: an insertion sort, which keeps the
/// multiset of entries and leaves them sorted.
fn sort_entries(v: &mut Vec<RankedEntry>)
    ensures
        sorted_by(entry_views(final(v)@), entry_order()),
        entry_views(final(v)@).to_multiset() == entry_views(old(v)@).to_multiset(),
        final(v)@.len() == old(v)@.len(),
{
    proof {
        lemma_entry_order_total();
    }
    if v.len() <= 1 {
        return ;
    }
    let mut i: usize = 1;
    while i < v.len()
        invariant
            1 <= i,
            i <= v@.len(),
            v@.len() == old(v)@.len(),
            sorted_by(entry_views(v@).take(i as int), entry_order()),
            entry_views(v@).to_multiset() == entry_views(old(v)@).to_multiset(),
            vstd::relations::total_ordering(entry_order()),
        decreases v@.len() - i,
    {
        broadcast use vstd::seq_lib::group_to_multiset_ensures;
        broadcast use vstd::multiset::group_multiset_axioms;

        let ghost s = v@;
        let ghost vs = entry_views(v@);
        let e = v.remove(i);
        proof {
            lemma_entry_views_remove(s, i as int);
            assert(vs.remove(i as int).take(i as int) =~= vs.take(i as int));
        }
        let mut j: usize = 0;
        while j < i && !entry_leq_exec(&e, &v[j])
            invariant
                j <= i,
                i < s.len(),
                v@ == s.remove(i as int),
                entry_views(v@) == vs.remove(i as int),
                vs == entry_views(s),
                forall|k: int| 0 <= k < j ==> !entry_leq(e@, #[trigger] entry_views(v@)[k]),
            decreases i - j,
        {
            j = j + 1;
        }
        let ghost placed_before = j < i;
        v.insert(j, e);
        proof {
            let r = entry_order();
            let p = vs.remove(i as int);
            lemma_entry_views_insert(s.remove(i as int), j as int, e);
            let q = entry_views(v@);
            assert(q == p.insert(j as int, e@));
            // the multiset is exactly what it was
            assert(p.to_multiset() =~= vs.to_multiset().remove(vs[i as int]));
            lemma_to_multiset_insert(p, j as int, e@);
            assert(e@ == vs[i as int]);
            assert(vs.to_multiset().contains(vs[i as int]));
            assert(q.to_multiset() =~= vs.to_multiset());
            // the first i + 1 entries are now sorted
            let pt = p.take(i as int);
            assert(pt =~= vs.take(i as int));
            assert(sorted_by(pt, r));
            assert forall|k: int| 0 <= k < j implies r(#[trigger] p[k], e@) by {
                assert(r(e@, p[k]) == entry_leq(e@, p[k]));
                assert(!entry_leq(e@, p[k]));
                assert(r(p[k], e@) || r(e@, p[k]));
            }
            if placed_before {
                assert(r(e@, p[j as int])) by {
                    assert(entry_leq(e@, p[j as int]));
                }
            }
            let qt = q.take(i as int + 1);
            assert forall|x: int, y: int| 0 <= x < y < i + 1 implies r(
                #[trigger] qt[x],
                #[trigger] qt[y],
            ) by {
                assert(forall|k: int| 0 <= k < i + 1 ==> qt[k] == q[k]);
                assert(forall|k: int| 0 <= k < j ==> q[k] == p[k]);
                assert(q[j as int] == e@);
                assert(forall|k: int| j < k <= i ==> q[k] == p[k - 1]);
                assert(forall|k1: int, k2: int| 0 <= k1 < k2 < i ==> r(pt[k1], pt[k2]));
                assert(forall|k1: int, k2: int| 0 <= k1 < k2 < i ==> r(#[trigger] p[k1], #[trigger] p[k2]));
                if y < j {
                    assert(r(p[x], p[y]));
                } else if x < j && y == j {
                    assert(r(p[x], e@));
                } else if x == j {
                    assert(j < y <= i);
                    assert(r(e@, p[j as int]));
                    if y - 1 > j {
                        assert(r(p[j as int], p[y - 1]));
                        assert(r(e@, p[y - 1]));
                    }
                } else if x < j {
                    assert(j < y <= i);
                    assert(r(p[x], e@));
                    assert(r(e@, p[j as int]));
                    if y - 1 > j {
                        assert(r(p[j as int], p[y - 1]));
                    }
                    assert(r(e@, p[y - 1]));
                    assert(r(p[x], p[y - 1]));
                } else {
                    assert(j < x < y <= i);
                    assert(r(p[x - 1], p[y - 1]));
                }
            }
            assert(sorted_by(entry_views(v@).take(i as int + 1), entry_order()));
        }
        i = i + 1;
    }
    proof {
        assert(entry_views(v@).take(v@.len() as int) =~= entry_views(v@));
    }
}

/// Builds the final report from the aggregate table: one entry per file,
/// ordered by total churn descending with ties broken by path ascending.
/// Every file of the table appears exactly once, with its exact delta, and
/// every entry has churn — zero-churn files never appear.
pub fn build_report(t: ChurnTable) -> (r: Vec<RankedEntry>)
    requires
        t.wf(),
    ensures
        report_of(t@, entry_views(r@)),
        forall|i: int| 0 <= i < r@.len() ==> churn((#[trigger] entry_views(r@)[i]).delta) >= 1,
        forall|i: int|
            0 <= i < r@.len() - 1 ==> entry_before(
                #[trigger] entry_views(r@)[i],
                entry_views(r@)[i + 1],
            ),
{
    broadcast use vstd::seq_lib::group_to_multiset_ensures;
    broadcast use vstd::multiset::group_multiset_axioms;

    let ghost t0 = t@;
    let entries = t.into_entries();
    let ghost e0 = entries@;
    let ghost pv = pair_views(e0);
    let mut v: Vec<RankedEntry> = Vec::new();
    proof {
        assert(entry_views(v@) =~= pv.take(0));
    }
    let mut idx: usize = 0;
    while idx < entries.len()
        invariant
            idx <= entries@.len(),
            entries@ == e0,
            pv == pair_views(e0),
            v@.len() == idx,
            entry_views(v@) == pv.take(idx as int),
        decreases entries@.len() - idx,
    {
        let p = entries[idx].0.clone();
        let d = entries[idx].1;
        v.push(RankedEntry { path: p, delta: d });
        proof {
            assert(entry_views(v@) =~= pv.take(idx as int + 1));
        }
        idx = idx + 1;
    }
    proof {
        assert(pv.take(e0.len() as int) =~= pv);
    }
    sort_entries(&mut v);
    proof {
        let vs = entry_views(v@);
        assert(vs.to_multiset() == pv.to_multiset());
        assert(pv.no_duplicates()) by {
            assert forall|i: int, j: int|
                0 <= i < pv.len() && 0 <= j < pv.len() && i != j implies pv[i] != pv[j] by {
                if i < j {
                    assert(e0[i].0@ != e0[j].0@);
                } else {
                    assert(e0[j].0@ != e0[i].0@);
                }
            }
        }
        pv.lemma_multiset_has_no_duplicates();
        // every report entry is an entry of the table, with churn
        assert forall|i: int| 0 <= i < vs.len() implies t0.dom().contains(
            (#[trigger] vs[i]).path,
        ) && t0[vs[i].path] == vs[i].delta && churn(vs[i].delta) >= 1 by {
            assert(vs.contains(vs[i]));
            assert(pv.to_multiset().count(vs[i]) > 0);
            assert(pv.contains(vs[i]));
            let k = choose|k: int| 0 <= k < pv.len() && pv[k] == vs[i];
            lemma_entries_map_at(e0, k);
            assert(churn(e0[k].1) >= 1);
        }
        // every path of the table appears
        assert forall|p: Seq<char>| #[trigger] t0.dom().contains(p) implies exists|i: int|
            0 <= i < vs.len() && (#[trigger] vs[i]).path == p by {
            lemma_entries_map_contains(e0, p);
            let k = choose|k: int| 0 <= k < e0.len() && #[trigger] e0[k].0@ == p;
            assert(pv.contains(pv[k]));
            assert(vs.to_multiset().count(pv[k]) > 0);
            assert(vs.contains(pv[k]));
            let i = choose|i: int| 0 <= i < vs.len() && vs[i] == pv[k];
            assert(vs[i].path == p);
        }
        // no path appears twice
        assert(vs.no_duplicates()) by {
            vs.lemma_multiset_has_no_duplicates_conv();
        }
        assert forall|i: int, j: int| 0 <= i < j < vs.len() implies vs[i].path != vs[j].path by {
            if vs[i].path == vs[j].path {
                assert(vs[i].delta == t0[vs[i].path]);
                assert(vs[j].delta == t0[vs[i].path]);
                assert(vs[i] =~= vs[j]);
            }
        }
        lemma_report_strictly_ordered(t0, vs);
    }
    v
}

/// The character of one decimal digit.
fn digit_to_char(d: u64) -> (c: char)
    requires
        d < 10,
    ensures
        c == digit_char(d as int),
{
    if d == 0 {
        '0'
    } else if d == 1 {
        '1'
    } else if d == 2 {
        '2'
    } else if d == 3 {
        '3'
    } else if d == 4 {
        '4'
    } else if d == 5 {
        '5'
    } else if d == 6 {
        '6'
    } else if d == 7 {
        '7'
    } else if d == 8 {
        '8'
    } else {
        '9'
    }
}

/// Appends the decimal rendering of `n` to `out`.
fn push_decimal(n: u64, out: &mut Vec<char>)
    ensures
        final(out)@ == old(out)@ + dec_str(n as int),
{
    let mut rev: Vec<char> = Vec::new();
    let mut m: u64 = n;
    proof {
        assert(dec_str(n as int) =~= dec_str(m as int) + rev@.reverse());
    }
    while m >= 10
        invariant
            dec_str(n as int) == dec_str(m as int) + rev@.reverse(),
        decreases m,
    {
        let d = m % 10;
        let ghost rev0 = rev@;
        rev.push(digit_to_char(d));
        m = m / 10;
        proof {
            assert(rev@.reverse() =~= seq![digit_char(d as int)] + rev0.reverse());
            assert(dec_str(m as int).push(digit_char(d as int)) + rev0.reverse() =~= dec_str(
                m as int,
            ) + rev@.reverse());
        }
    }
    let ghost rev1 = rev@;
    rev.push(digit_to_char(m));
    proof {
        assert(rev@.reverse() =~= seq![digit_char(m as int)] + rev1.reverse());
        assert(dec_str(n as int) =~= rev@.reverse());
    }
    let mut k: usize = rev.len();
    proof {
        assert(out@ =~= out@ + rev@.reverse().take(0));
    }
    while k > 0
        invariant
            k <= rev@.len(),
            dec_str(n as int) == rev@.reverse(),
            out@ == old(out)@ + rev@.reverse().take(rev@.len() - k),
        decreases k,
    {
        k = k - 1;
        let ghost out0 = out@;
        out.push(rev[k]);
        proof {
            assert(rev@.reverse()[rev@.len() - 1 - k] == rev@[k as int]);
            assert(out@ =~= old(out)@ + rev@.reverse().take(rev@.len() - k));
        }
    }
    proof {
        assert(rev@.reverse().take(rev@.len() as int) =~= rev@.reverse());
    }
}

/// Relies on `core::iter::Iterator::collect` building a `String` from
/// `char`s: the result holds exactly the characters of `v`, in order.
#[verifier::external_body]
fn chars_to_string(v: &Vec<char>) -> (s: String)
    ensures
        s@ == v@,
{
    v.iter().collect()
}

/// Renders one report entry as `path: +added -deleted`.
pub fn render_entry(e: &RankedEntry) -> (s: String)
    ensures
        s@ == render_entry_spec(e@),
{
    let mut out: Vec<char> = Vec::new();
    let n = e.path.as_str().unicode_len();
    let mut i: usize = 0;
    proof {
        assert(out@ =~= e.path@.take(0));
    }
    while i < n
        invariant
            i <= n,
            n == e.path@.len(),
            out@ == e.path@.take(i as int),
        decreases n - i,
    {
        let ghost out0 = out@;
        out.push(e.path.as_str().get_char(i));
        proof {
            assert(out@ =~= e.path@.take(i as int + 1));
        }
        i = i + 1;
    }
    proof {
        assert(e.path@.take(e.path@.len() as int) =~= e.path@);
    }
    out.push(':');
    out.push(' ');
    out.push('+');
    let ghost head = out@;
    proof {
        assert(head =~= e.path@ + seq![':', ' ', '+']);
    }
    push_decimal(e.delta.added, &mut out);
    out.push(' ');
    out.push('-');
    let ghost mid = out@;
    push_decimal(e.delta.deleted, &mut out);
    proof {
        assert(out@ =~= render_entry_spec(e@));
    }
    chars_to_string(&out)
}

/// Renders the whole report, one line per entry, each closed by a newline.
/// The report's text is a function of the entries alone: two runs over the
/// same history print byte-identical output.
pub fn render_report(entries: &Vec<RankedEntry>) -> (s: String)
    ensures
        s@ == render_report_spec(entry_views(entries@)),
{
    let ghost vs = entry_views(entries@);
    let mut out = String::new();
    proof {
        assert(vs.skip(0) =~= vs);
        assert(out@ + render_report_spec(vs.skip(0)) =~= render_report_spec(vs));
    }
    let mut i: usize = 0;
    while i < entries.len()
        invariant
            i <= entries@.len(),
            vs == entry_views(entries@),
            vs.len() == entries@.len(),
            render_report_spec(vs) == out@ + render_report_spec(vs.skip(i as int)),
        decreases entries@.len() - i,
    {
        let line = render_entry(&entries[i]);
        let ghost out0 = out@;
        out.append(line.as_str());
        out.append("\n");
        proof {
            reveal_strlit("\n");
            assert("\n"@ =~= seq!['\n']);
            assert(vs.skip(i as int)[0] == vs[i as int]);
            assert(vs[i as int] == entries@[i as int]@);
            assert(vs.skip(i as int).drop_first() =~= vs.skip(i as int + 1));
            assert(out@ =~= out0 + render_entry_spec(vs[i as int]) + seq!['\n']);
            assert(out@ + render_report_spec(vs.skip(i as int + 1)) =~= out0 + render_report_spec(
                vs.skip(i as int),
            ));
        }
        i = i + 1;
    }
    proof {
        assert(vs.skip(vs.len() as int) =~= Seq::<EntryView>::empty());
        assert(out@ + render_report_spec(vs.skip(vs.len() as int)) =~= out@);
    }
    out
}

} // verus!
