//! Specification-level model of the churn aggregation engine.
//!
//! The engine consumes a sequence of commits; every commit with exactly one
//! parent contributes a sequence of diff line events, each of which is an
//! addition, a deletion, or neither. The model folds those events into a map
//! from file paths to cumulative line deltas, and fixes the total order in
//! which the final report lists its entries.

use vstd::prelude::*;

verus! {

/// Cumulative per-file line counts: how many lines were added to and deleted
/// from one file over all qualifying commits. Counters only ever grow; they
/// saturate at `u64::MAX` rather than wrap.
#[derive(Clone, Copy, Debug, PartialEq, Eq, Structural)]
pub struct LineDelta {
    pub added: u64,
    pub deleted: u64,
}

/// How one diff line is classified: present only in the new tree, present
/// only in the old tree, or neither (headers, context and binary markers,
/// which the engine ignores).
#[derive(Clone, Copy, Debug, PartialEq, Eq, Structural)]
pub enum LineKind {
    Added,
    Deleted,
    Other,
}

/// Specification view of one streamed diff line event: the origin character
/// reported by the backend and the two optional sides of the file delta it
/// belongs to.
#[verifier::ext_equal]
pub struct EventView {
    pub origin: char,
    pub old_path: Option<Seq<char>>,
    pub new_path: Option<Seq<char>>,
}

/// Specification view of one commit: its parent count and the diff line
/// events of its tree against its sole parent's tree. For commits that do not
/// have exactly one parent the engine never looks at the events.
#[verifier::ext_equal]
pub struct CommitView {
    pub parent_count: int,
    pub events: Seq<EventView>,
}

/// Specification view of one report entry: a file path and its cumulative
/// line delta.
#[verifier::ext_equal]
pub struct EntryView {
    pub path: Seq<char>,
    pub delta: LineDelta,
}

/// The aggregate mapping, as a specification value: file path to line delta.
pub type TableView = Map<Seq<char>, LineDelta>;

/// Classifies a diff line by its origin character: `'+'` is an addition,
/// `'-'` a deletion, everything else is ignored.
pub open spec fn classify(origin: char) -> LineKind {
    if origin == '+' {
        LineKind::Added
    } else if origin == '-' {
        LineKind::Deleted
    } else {
        LineKind::Other
    }
}

/// The file path an event is attributed to: the new-file path if present,
/// else the old-file path; `None` marks a backend contract violation that
/// must fail the run.
pub open spec fn event_path(ev: EventView) -> Option<Seq<char>> {
    if ev.new_path is Some {
        ev.new_path
    } else {
        ev.old_path
    }
}

/// One counter increment; saturates at `u64::MAX` instead of wrapping.
pub open spec fn bump(c: u64) -> u64 {
    if c == u64::MAX {
        c
    } else {
        (c + 1) as u64
    }
}

/// The delta a file has in the table, or the zeroed delta if the file was
/// never touched.
pub open spec fn delta_or_zero(t: TableView, p: Seq<char>) -> LineDelta {
    if t.dom().contains(p) {
        t[p]
    } else {
        LineDelta { added: 0, deleted: 0 }
    }
}

/// Records one classified line for path `p`: an addition or deletion bumps
/// the matching counter, creating the entry if absent; anything else leaves
/// the table untouched.
pub open spec fn record(t: TableView, p: Seq<char>, kind: LineKind) -> TableView {
    let d = delta_or_zero(t, p);
    match kind {
        LineKind::Added => t.insert(p, LineDelta { added: bump(d.added), deleted: d.deleted }),
        LineKind::Deleted => t.insert(p, LineDelta { added: d.added, deleted: bump(d.deleted) }),
        LineKind::Other => t,
    }
}

/// Folds one line event into the table; `None` when the event's delta has
/// neither an old- nor a new-file path.
pub open spec fn apply_event(t: TableView, ev: EventView) -> Option<TableView> {
    match event_path(ev) {
        Option::None => Option::None,
        Option::Some(p) => Option::Some(record(t, p, classify(ev.origin))),
    }
}

/// Folds a sequence of line events into the table, left to right, stopping
/// at the first invariant violation.
pub open spec fn apply_events(t: TableView, evs: Seq<EventView>) -> Option<TableView>
    decreases evs.len(),
{
    if evs.len() == 0 {
        Option::Some(t)
    } else {
        match apply_event(t, evs[0]) {
            Option::None => Option::None,
            Option::Some(t2) => apply_events(t2, evs.drop_first()),
        }
    }
}

/// Folds one commit into the table. Commits without exactly one parent —
/// roots and merges — are skipped entirely and contribute nothing.
pub open spec fn apply_commit(t: TableView, c: CommitView) -> Option<TableView> {
    if c.parent_count == 1 {
        apply_events(t, c.events)
    } else {
        Option::Some(t)
    }
}

/// Folds a sequence of commits into the table, in the order given.
pub open spec fn apply_commits(t: TableView, cs: Seq<CommitView>) -> Option<TableView>
    decreases cs.len(),
{
    if cs.len() == 0 {
        Option::Some(t)
    } else {
        match apply_commit(t, cs[0]) {
            Option::None => Option::None,
            Option::Some(t2) => apply_commits(t2, cs.drop_first()),
        }
    }
}

/// The aggregate table of a whole run: the fold of all commits over the
/// empty table.
pub open spec fn table_of(cs: Seq<CommitView>) -> Option<TableView> {
    apply_commits(Map::empty(), cs)
}

/// Lexicographic at-most order on paths, by code point.
pub open spec fn lex_leq(a: Seq<char>, b: Seq<char>) -> bool
    decreases a.len(),
{
    if a.len() == 0 {
        true
    } else if b.len() == 0 {
        false
    } else if (a[0] as u32) != (b[0] as u32) {
        (a[0] as u32) < (b[0] as u32)
    } else {
        lex_leq(a.drop_first(), b.drop_first())
    }
}

/// Strict lexicographic order on paths.
pub open spec fn lex_lt(a: Seq<char>, b: Seq<char>) -> bool {
    lex_leq(a, b) && a != b
}

/// Every path is lexicographically at most itself.
pub proof fn lemma_lex_leq_refl(a: Seq<char>)
    ensures
        lex_leq(a, a),
    decreases a.len(),
{
    if a.len() > 0 {
        lemma_lex_leq_refl(a.drop_first());
    }
}

/// Any two paths are lexicographically comparable.
pub proof fn lemma_lex_leq_total(a: Seq<char>, b: Seq<char>)
    ensures
        lex_leq(a, b) || lex_leq(b, a),
    decreases a.len(),
{
    if a.len() != 0 && b.len() != 0 && (a[0] as u32) == (b[0] as u32) {
        lemma_lex_leq_total(a.drop_first(), b.drop_first());
    }
}

/// Paths below each other are equal.
pub proof fn lemma_lex_leq_antisym(a: Seq<char>, b: Seq<char>)
    requires
        lex_leq(a, b),
        lex_leq(b, a),
    ensures
        a == b,
    decreases a.len(),
{
    if a.len() == 0 {
        assert(a =~= b);
    } else {
        lemma_lex_leq_antisym(a.drop_first(), b.drop_first());
        assert(a[0] == b[0]) by {
            vstd::utf8::char_u32_cast(a[0], a[0] as u32);
            vstd::utf8::char_u32_cast(b[0], b[0] as u32);
        }
        assert(a =~= b) by {
            assert(a.drop_first().len() == b.drop_first().len());
            assert(forall|i: int|
                1 <= i < a.len() ==> a[i] == a.drop_first()[i - 1] && b[i] == b.drop_first()[i
                    - 1]);
        }
    }
}

/// The lexicographic order is transitive.
pub proof fn lemma_lex_leq_trans(a: Seq<char>, b: Seq<char>, c: Seq<char>)
    requires
        lex_leq(a, b),
        lex_leq(b, c),
    ensures
        lex_leq(a, c),
    decreases a.len(),
{
    if a.len() != 0 && b.len() != 0 && c.len() != 0 && (a[0] as u32) == (b[0] as u32) && (
    b[0] as u32) == (c[0] as u32) {
        lemma_lex_leq_trans(a.drop_first(), b.drop_first(), c.drop_first());
    }
}

/// The strict lexicographic order is transitive.
pub proof fn lemma_lex_lt_trans(a: Seq<char>, b: Seq<char>, c: Seq<char>)
    requires
        lex_lt(a, b),
        lex_lt(b, c),
    ensures
        lex_lt(a, c),
{
    lemma_lex_leq_trans(a, b, c);
    if a == c {
        lemma_lex_leq_antisym(a, b);
    }
}

/// Total churn of one file: lines added plus lines deleted.
pub open spec fn churn(d: LineDelta) -> int {
    d.added + d.deleted
}

/// At-most order on deltas, used only to refine the report order into a
/// genuine total order on all values.
pub open spec fn delta_leq(a: LineDelta, b: LineDelta) -> bool {
    a.added < b.added || (a.added == b.added && a.deleted <= b.deleted)
}

/// The report's strict order: higher churn first, ties broken by path
/// ascending. Adjacent report entries are always related by this order.
pub open spec fn entry_before(a: EntryView, b: EntryView) -> bool {
    churn(a.delta) > churn(b.delta) || (churn(a.delta) == churn(b.delta) && lex_lt(a.path, b.path))
}

/// At-most order on report entries: `entry_before`, refined by the delta so
/// that the relation is antisymmetric on all values. On entries with distinct
/// paths — the only kind a report holds — it coincides with `entry_before`
/// or equality.
pub open spec fn entry_leq(a: EntryView, b: EntryView) -> bool {
    if churn(a.delta) != churn(b.delta) {
        churn(a.delta) > churn(b.delta)
    } else if a.path != b.path {
        lex_lt(a.path, b.path)
    } else {
        delta_leq(a.delta, b.delta)
    }
}

/// The report order as a relation value, for vstd's sorting vocabulary.
pub open spec fn entry_order() -> spec_fn(EntryView, EntryView) -> bool {
    |a: EntryView, b: EntryView| entry_leq(a, b)
}

/// Commits without exactly one parent — roots and merges — leave the table
/// exactly as it was, however many of them a history holds.
pub proof fn lemma_skipped_commits_no_effect(t: TableView, cs: Seq<CommitView>)
    requires
        forall|i: int| 0 <= i < cs.len() ==> (#[trigger] cs[i]).parent_count != 1,
    ensures
        apply_commits(t, cs) == Option::Some(t),
    decreases cs.len(),
{
    if cs.len() > 0 {
        assert(forall|i: int|
            0 <= i < cs.drop_first().len() ==> #[trigger] cs.drop_first()[i] == cs[i + 1]);
        lemma_skipped_commits_no_effect(t, cs.drop_first());
    }
}

/// A repository whose only commit is the branch tip — a root, with no parent
/// to diff against — yields the empty table, hence an empty report.
pub proof fn lemma_root_only_run_empty(cs: Seq<CommitView>)
    requires
        cs.len() == 1,
        cs[0].parent_count == 0,
    ensures
        table_of(cs) == Option::Some(Map::<Seq<char>, LineDelta>::empty()),
{
    lemma_skipped_commits_no_effect(Map::empty(), cs);
}

/// Folding events over a table cannot put a path in it that no event
/// attributes.
proof fn lemma_apply_events_domain(t: TableView, evs: Seq<EventView>, p: Seq<char>)
    requires
        !t.dom().contains(p),
        forall|j: int|
            0 <= j < evs.len() ==> event_path(#[trigger] evs[j]) != Option::Some(p),
    ensures
        apply_events(t, evs) matches Option::Some(t2) ==> !t2.dom().contains(p),
    decreases evs.len(),
{
    if evs.len() > 0 {
        match apply_event(t, evs[0]) {
            Option::None => {},
            Option::Some(t2) => {
                assert(!t2.dom().contains(p));
                assert(forall|j: int|
                    0 <= j < evs.drop_first().len() ==> #[trigger] evs.drop_first()[j] == evs[j
                        + 1]);
                lemma_apply_events_domain(t2, evs.drop_first(), p);
            },
        }
    }
}

/// A path that no single-parent commit's diff ever attributes a line to is
/// absent from the final table. In particular, changes a merge commit alone
/// introduces to a file never put that file in the report: merges are
/// skipped whole.
pub proof fn lemma_untouched_path_absent(t: TableView, cs: Seq<CommitView>, p: Seq<char>)
    requires
        !t.dom().contains(p),
        forall|i: int, j: int|
            0 <= i < cs.len() && (#[trigger] cs[i]).parent_count == 1 && 0 <= j
                < cs[i].events.len() ==> event_path(#[trigger] cs[i].events[j])
                != Option::Some(p),
    ensures
        apply_commits(t, cs) matches Option::Some(t2) ==> !t2.dom().contains(p),
    decreases cs.len(),
{
    if cs.len() > 0 {
        match apply_commit(t, cs[0]) {
            Option::None => {},
            Option::Some(t2) => {
                if cs[0].parent_count == 1 {
                    assert(forall|j: int|
                        0 <= j < cs[0].events.len() ==> event_path(#[trigger] cs[0].events[j])
                            != Option::Some(p));
                    lemma_apply_events_domain(t, cs[0].events, p);
                }
                assert(!t2.dom().contains(p));
                assert(forall|i: int|
                    0 <= i < cs.drop_first().len() ==> #[trigger] cs.drop_first()[i] == cs[i + 1]);
                lemma_untouched_path_absent(t2, cs.drop_first(), p);
            },
        }
    }
}

/// Merge-commit exclusion, stated over a whole run: when the only commits
/// whose diffs touch `p` are merges (or the root), `p` does not appear in
/// the run's table.
pub proof fn lemma_merge_changes_excluded(cs: Seq<CommitView>, p: Seq<char>)
    requires
        forall|i: int, j: int|
            0 <= i < cs.len() && (#[trigger] cs[i]).parent_count == 1 && 0 <= j
                < cs[i].events.len() ==> event_path(#[trigger] cs[i].events[j])
                != Option::Some(p),
    ensures
        table_of(cs) matches Option::Some(t) ==> !t.dom().contains(p),
{
    lemma_untouched_path_absent(Map::empty(), cs, p);
}

/// The ten decimal digit characters.
pub open spec fn digit_char(d: int) -> char {
    if d == 0 {
        '0'
    } else if d == 1 {
        '1'
    } else if d == 2 {
        '2'
    } else if d == 3 {
        '3'
    } else if d == 4 {
        '4'
    } else if d == 5 {
        '5'
    } else if d == 6 {
        '6'
    } else if d == 7 {
        '7'
    } else if d == 8 {
        '8'
    } else {
        '9'
    }
}

/// The decimal rendering of a non-negative number, most significant digit
/// first, without leading zeroes (a lone `0` for zero).
pub open spec fn dec_str(n: int) -> Seq<char>
    decreases n,
{
    if n < 10 {
        seq![digit_char(n)]
    } else {
        dec_str(n / 10).push(digit_char(n % 10))
    }
}

/// The rendered form of one report entry: `path: +added -deleted`.
pub open spec fn render_entry_spec(e: EntryView) -> Seq<char> {
    e.path + seq![':', ' ', '+'] + dec_str(e.delta.added as int) + seq![' ', '-'] + dec_str(
        e.delta.deleted as int,
    )
}

/// The rendered report: one line per entry, in order, each closed by a
/// newline; the empty report renders as the empty string.
pub open spec fn render_report_spec(vs: Seq<EntryView>) -> Seq<char>
    decreases vs.len(),
{
    if vs.len() == 0 {
        Seq::empty()
    } else {
        render_entry_spec(vs[0]) + seq!['\n'] + render_report_spec(vs.drop_first())
    }
}

/// What it means for `vs` to be the report of table `t`: sorted by the
/// report order, every entry is the table's entry for its path, every path
/// of the table appears, and no path appears twice.
pub open spec fn report_of(t: TableView, vs: Seq<EntryView>) -> bool {
    &&& vstd::relations::sorted_by(vs, entry_order())
    &&& forall|i: int|
        0 <= i < vs.len() ==> t.dom().contains(#[trigger] vs[i].path) && t[vs[i].path]
            == vs[i].delta
    &&& forall|p: Seq<char>|
        #[trigger] t.dom().contains(p) ==> exists|i: int|
            0 <= i < vs.len() && (#[trigger] vs[i]).path == p
    &&& forall|i: int, j: int| 0 <= i < j < vs.len() ==> vs[i].path != vs[j].path
}

/// A report is strictly ordered: of two adjacent entries, the first has
/// more churn, or the same churn and the lexicographically smaller path.
pub proof fn lemma_report_strictly_ordered(t: TableView, vs: Seq<EntryView>)
    requires
        report_of(t, vs),
    ensures
        forall|i: int| 0 <= i < vs.len() - 1 ==> entry_before(#[trigger] vs[i], vs[i + 1]),
{
    assert forall|i: int| 0 <= i < vs.len() - 1 implies entry_before(
        #[trigger] vs[i],
        vs[i + 1],
    ) by {
        let a = vs[i];
        let b = vs[i + 1];
        assert(entry_order()(a, b));
        assert(entry_leq(a, b));
        assert(a.path != b.path);
    }
}

/// The report of a table is unique: any two sequences that both report the
/// same table are equal. Running the engine twice over the same history
/// therefore yields identical output.
pub proof fn lemma_report_deterministic(t: TableView, v1: Seq<EntryView>, v2: Seq<EntryView>)
    requires
        report_of(t, v1),
        report_of(t, v2),
    ensures
        v1 == v2,
{
    broadcast use vstd::seq_lib::group_to_multiset_ensures;
    broadcast use vstd::multiset::group_multiset_axioms;

    lemma_entry_order_total();
    assert(v1.no_duplicates()) by {
        assert forall|i: int, j: int|
            0 <= i < v1.len() && 0 <= j < v1.len() && i != j implies v1[i] != v1[j] by {
            if i < j {
                assert(v1[i].path != v1[j].path);
            } else {
                assert(v1[j].path != v1[i].path);
            }
        }
    }
    assert(v2.no_duplicates()) by {
        assert forall|i: int, j: int|
            0 <= i < v2.len() && 0 <= j < v2.len() && i != j implies v2[i] != v2[j] by {
            if i < j {
                assert(v2[i].path != v2[j].path);
            } else {
                assert(v2[j].path != v2[i].path);
            }
        }
    }
    v1.lemma_multiset_has_no_duplicates();
    v2.lemma_multiset_has_no_duplicates();
    assert forall|x: EntryView| v1.contains(x) implies v2.contains(x) by {
        let i = choose|i: int| 0 <= i < v1.len() && v1[i] == x;
        assert(t.dom().contains(x.path));
        let k = choose|k: int| 0 <= k < v2.len() && (#[trigger] v2[k]).path == x.path;
        assert(v2[k].delta == t[x.path]);
        assert(v2[k] =~= x);
    }
    assert forall|x: EntryView| v2.contains(x) implies v1.contains(x) by {
        let i = choose|i: int| 0 <= i < v2.len() && v2[i] == x;
        assert(t.dom().contains(x.path));
        let k = choose|k: int| 0 <= k < v1.len() && (#[trigger] v1[k]).path == x.path;
        assert(v1[k].delta == t[x.path]);
        assert(v1[k] =~= x);
    }
    assert forall|x: EntryView|
        v1.to_multiset().count(x) == v2.to_multiset().count(x) by {
        if v1.contains(x) {
            assert(v2.contains(x));
            assert(v1.to_multiset().count(x) == 1);
            assert(v2.to_multiset().count(x) == 1);
        } else {
            assert(!v2.contains(x));
            assert(v1.to_multiset().count(x) == 0);
            assert(v2.to_multiset().count(x) == 0);
        }
    }
    assert(v1.to_multiset() =~= v2.to_multiset());
    vstd::seq_lib::lemma_sorted_unique(v1, v2, entry_order());
}

/// The report order is a total order: reflexive, antisymmetric, transitive
/// and strongly connected.
pub proof fn lemma_entry_order_total()
    ensures
        vstd::relations::total_ordering(entry_order()),
{
    let r = entry_order();
    assert forall|x: EntryView, y: EntryView| #[trigger] r(x, y) && #[trigger] r(y, x) implies x
        == y by {
        if churn(x.delta) == churn(y.delta) {
            if x.path != y.path {
                lemma_lex_leq_antisym(x.path, y.path);
            } else {
                assert(x.delta == y.delta);
                assert(x =~= y);
            }
        }
    }
    assert forall|x: EntryView, y: EntryView, z: EntryView|
        #[trigger] r(x, y) && #[trigger] r(y, z) implies r(x, z) by {
        if churn(x.delta) == churn(y.delta) && churn(y.delta) == churn(z.delta) {
            if x.path != y.path && y.path != z.path {
                lemma_lex_lt_trans(x.path, y.path, z.path);
            }
        }
    }
    assert forall|x: EntryView, y: EntryView| #[trigger] r(x, y) || #[trigger] r(y, x) by {
        if churn(x.delta) == churn(y.delta) && x.path != y.path {
            lemma_lex_leq_total(x.path, y.path);
            if lex_leq(x.path, y.path) {
                assert(lex_lt(x.path, y.path));
            } else {
                assert(lex_lt(y.path, x.path));
            }
        }
    }
}

} // verus!
