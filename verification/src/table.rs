//! The churn aggregator's table: a mapping from file path to cumulative line
//! delta, stored as an association list with unique keys. Insertion order
//! carries no meaning; the report builder orders the entries separately.

use vstd::prelude::*;

use crate::model::{churn, record, LineDelta, LineKind, TableView};

verus! {

/// True when no two entries share a path.
pub open spec fn keys_unique(s: Seq<(String, LineDelta)>) -> bool {
    forall|i: int, j: int| 0 <= i < j < s.len() ==> s[i].0@ != s[j].0@
}

/// True when every entry has at least one added or deleted line.
pub open spec fn all_positive(s: Seq<(String, LineDelta)>) -> bool {
    forall|i: int| 0 <= i < s.len() ==> churn(#[trigger] s[i].1) >= 1
}

/// The mapping an association list denotes; later entries would win, but the
/// table never holds two entries for one path.
pub open spec fn entries_map(s: Seq<(String, LineDelta)>) -> TableView
    decreases s.len(),
{
    if s.len() == 0 {
        Map::empty()
    } else {
        entries_map(s.drop_last()).insert(s.last().0@, s.last().1)
    }
}

/// A path is in the denoted map exactly when some entry holds it.
pub proof fn lemma_entries_map_contains(s: Seq<(String, LineDelta)>, p: Seq<char>)
    ensures
        entries_map(s).dom().contains(p) <==> exists|i: int|
            0 <= i < s.len() && #[trigger] s[i].0@ == p,
    decreases s.len(),
{
    if s.len() > 0 {
        lemma_entries_map_contains(s.drop_last(), p);
        if entries_map(s).dom().contains(p) {
            if s.last().0@ != p {
                let i = choose|i: int| 0 <= i < s.drop_last().len() && #[trigger] s.drop_last()[i].0@
                    == p;
                assert(s[i].0@ == p);
            } else {
                assert(s[s.len() - 1].0@ == p);
            }
        } else {
            assert(forall|i: int| 0 <= i < s.len() - 1 ==> s.drop_last()[i] == #[trigger] s[i]);
        }
    }
}

/// With unique keys, each entry's path maps to that entry's delta.
pub proof fn lemma_entries_map_at(s: Seq<(String, LineDelta)>, i: int)
    requires
        keys_unique(s),
        0 <= i < s.len(),
    ensures
        entries_map(s).dom().contains(s[i].0@),
        entries_map(s)[s[i].0@] == s[i].1,
    decreases s.len(),
{
    if i == s.len() - 1 {
    } else {
        assert(s.drop_last()[i] == s[i]);
        lemma_entries_map_at(s.drop_last(), i);
        assert(s[i].0@ != s.last().0@);
    }
}

/// Replacing the delta of entry `i` updates the denoted map at that entry's
/// path and nowhere else.
pub proof fn lemma_entries_map_update(s: Seq<(String, LineDelta)>, i: int, v: LineDelta)
    requires
        keys_unique(s),
        0 <= i < s.len(),
    ensures
        entries_map(s.update(i, (s[i].0, v))) == entries_map(s).insert(s[i].0@, v),
    decreases s.len(),
{
    let t = s.update(i, (s[i].0, v));
    let p = s[i].0@;
    if i == s.len() - 1 {
        assert(t.drop_last() =~= s.drop_last());
        assert(entries_map(t) =~= entries_map(s).insert(p, v));
    } else {
        assert(t.drop_last() =~= s.drop_last().update(i, (s[i].0, v)));
        assert(s.drop_last()[i] == s[i]);
        lemma_entries_map_update(s.drop_last(), i, v);
        assert(s[i].0@ != s.last().0@);
        assert(entries_map(t) =~= entries_map(s).insert(p, v));
    }
}

/// The aggregate mapping from file path to cumulative line delta. Created
/// empty at the start of a run, grown one classified line at a time, and
/// consumed once by the report builder.
#[derive(Debug)]
pub struct ChurnTable {
    entries: Vec<(String, LineDelta)>,
}

impl View for ChurnTable {
    type V = TableView;

    closed spec fn view(&self) -> TableView {
        entries_map(self.entries@)
    }
}

impl ChurnTable {
    /// Well-formed: paths unique, and every entry has churn — a path is in
    /// the table exactly when a line was once attributed to it.
    pub closed spec fn wf(self) -> bool {
        keys_unique(self.entries@) && all_positive(self.entries@)
    }

    /// The empty table.
    pub fn new() -> (r: ChurnTable)
        ensures
            r.wf(),
            r@ == TableView::empty(),
    {
        ChurnTable { entries: Vec::new() }
    }

    /// The index of the entry holding `path`, if any.
    fn find_index(&self, path: &String) -> (r: Option<usize>)
        ensures
            match r {
                Option::Some(i) => i < self.entries@.len() && self.entries@[i as int].0@ == path@,
                Option::None => forall|j: int|
                    0 <= j < self.entries@.len() ==> #[trigger] self.entries@[j].0@ != path@,
            },
    {
        let mut i: usize = 0;
        while i < self.entries.len()
            invariant
                i <= self.entries@.len(),
                forall|j: int| 0 <= j < i ==> #[trigger] self.entries@[j].0@ != path@,
            decreases self.entries@.len() - i,
        {
            if self.entries[i].0 == *path {
                return Option::Some(i);
            }
            i = i + 1;
        }
        Option::None
    }

    /// Records one classified line for `path`: an addition or a deletion
    /// bumps the matching counter, creating a zeroed entry first if the path
    /// is new; any other kind leaves the table untouched.
    pub fn record_line(&mut self, path: String, kind: LineKind)
        requires
            old(self).wf(),
        ensures
            final(self).wf(),
            final(self)@ == record(old(self)@, path@, kind),
    {
        if let LineKind::Other = kind {
            return ;
        }
        let ghost s0 = self.entries@;
        match self.find_index(&path) {
            Option::Some(i) => {
                let d = self.entries[i].1;
                let nd = match kind {
                    LineKind::Added => LineDelta {
                        added: if d.added < u64::MAX {
                            d.added + 1
                        } else {
                            d.added
                        },
                        deleted: d.deleted,
                    },
                    _ => LineDelta {
                        added: d.added,
                        deleted: if d.deleted < u64::MAX {
                            d.deleted + 1
                        } else {
                            d.deleted
                        },
                    },
                };
                self.entries[i].1 = nd;
                proof {
                    assert(self.entries@ =~= s0.update(i as int, (s0[i as int].0, nd)));
                    lemma_entries_map_at(s0, i as int);
                    lemma_entries_map_update(s0, i as int, nd);
                    assert(s0[i as int].0@ == path@);
                }
            },
            Option::None => {
                let nd = match kind {
                    LineKind::Added => LineDelta { added: 1, deleted: 0 },
                    _ => LineDelta { added: 0, deleted: 1 },
                };
                self.entries.push((path, nd));
                proof {
                    assert(self.entries@.drop_last() =~= s0);
                    lemma_entries_map_contains(s0, self.entries@.last().0@);
                    assert(forall|j: int|
                        0 <= j < s0.len() ==> #[trigger] self.entries@[j] == s0[j]);
                }
            },
        }
    }

    /// Hands the entries out for the report builder; the list denotes
    /// exactly this table's mapping.
    pub fn into_entries(self) -> (r: Vec<(String, LineDelta)>)
        requires
            self.wf(),
        ensures
            entries_map(r@) == self@,
            keys_unique(r@),
            all_positive(r@),
    {
        self.entries
    }
}

} // verus!
