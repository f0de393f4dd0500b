//! The diff classifier and the aggregation loop: folds streamed diff line
//! events of qualifying commits into a [`ChurnTable`], exactly as the
//! specification-level fold in [`crate::model`] says.

use vstd::prelude::*;

use crate::model::{
    apply_commit, apply_commits, apply_event, apply_events, classify, CommitView, EventView,
    LineKind, TableView,
};
use crate::table::ChurnTable;

verus! {

/// One streamed diff line event, as handed over by the backend: the origin
/// character of the line and the two optional sides of its file delta.
#[derive(Debug)]
pub struct LineEvent {
    /// Origin character: `'+'` for an addition, `'-'` for a deletion,
    /// anything else is ignored.
    pub origin: char,
    /// Path on the old-file side of the delta, if any.
    pub old_path: Option<String>,
    /// Path on the new-file side of the delta, if any.
    pub new_path: Option<String>,
}

impl View for LineEvent {
    type V = EventView;

    open spec fn view(&self) -> EventView {
        EventView {
            origin: self.origin,
            old_path: match self.old_path {
                Option::Some(p) => Option::Some(p@),
                Option::None => Option::None,
            },
            new_path: match self.new_path {
                Option::Some(p) => Option::Some(p@),
                Option::None => Option::None,
            },
        }
    }
}

/// One commit as the engine sees it: its parent count and, when it has
/// exactly one parent, the line events of its diff against that parent.
/// For skipped commits — roots and merges — no diff is ever computed and
/// `events` stays empty.
#[derive(Debug)]
pub struct CommitRecord {
    /// Number of parents of the commit.
    pub parent_count: usize,
    /// Line events of the diff against the sole parent.
    pub events: Vec<LineEvent>,
}

impl View for CommitRecord {
    type V = CommitView;

    open spec fn view(&self) -> CommitView {
        CommitView {
            parent_count: self.parent_count as int,
            events: self.events@.map_values(|e: LineEvent| e@),
        }
    }
}

/// The views of a sequence of commit records.
pub open spec fn commit_views(rs: Seq<CommitRecord>) -> Seq<CommitView> {
    rs.map_values(|c: CommitRecord| c@)
}

/// Why a run aborted. Every error ends the run at once; the carried string
/// names the branch, commit or backend message that triggered it.
#[derive(Debug)]
pub enum EngineError {
    /// The repository path could not be opened.
    RepositoryOpen(String),
    /// The configured branch does not exist.
    BranchNotFound(String),
    /// The commit graph could not be read mid-walk.
    TraversalFailed(String),
    /// A tree or blob could not be read while diffing.
    DiffFailed(String),
    /// A diff delta carried neither an old- nor a new-file path: the backend
    /// broke its contract.
    InvariantViolation,
}

/// Classifies a diff line by its origin character.
pub fn classify_line(origin: char) -> (k: LineKind)
    ensures
        k == classify(origin),
{
    if origin == '+' {
        LineKind::Added
    } else if origin == '-' {
        LineKind::Deleted
    } else {
        LineKind::Other
    }
}

/// Attributes one line event to a file and records it: the new-file path
/// wins, the old-file path is the fallback, and a delta with neither fails
/// the run with the table untouched.
pub fn apply_line_event(table: &mut ChurnTable, ev: &LineEvent) -> (r: Result<(), EngineError>)
    requires
        old(table).wf(),
    ensures
        final(table).wf(),
        match apply_event(old(table)@, ev@) {
            Option::Some(t2) => r is Ok && final(table)@ == t2,
            Option::None => r matches Err(e) && e == EngineError::InvariantViolation
                && final(table)@ == old(table)@,
        },
{
    let path: String = match &ev.new_path {
        Option::Some(p) => p.clone(),
        Option::None => {
            match &ev.old_path {
                Option::Some(p) => p.clone(),
                Option::None => {
                    return Result::Err(EngineError::InvariantViolation);
                },
            }
        },
    };
    let kind = classify_line(ev.origin);
    table.record_line(path, kind);
    Result::Ok(())
}

/// Folds one commit into the table. A commit with other than exactly one
/// parent is skipped entirely: merges have no unambiguous diff baseline and
/// roots have nothing to diff against.
pub fn apply_commit_record(table: &mut ChurnTable, c: &CommitRecord) -> (r: Result<
    (),
    EngineError,
>)
    requires
        old(table).wf(),
    ensures
        final(table).wf(),
        match apply_commit(old(table)@, c@) {
            Option::Some(t2) => r is Ok && final(table)@ == t2,
            Option::None => r matches Err(e) && e == EngineError::InvariantViolation,
        },
{
    if c.parent_count != 1 {
        return Result::Ok(());
    }
    let ghost evs = c@.events;
    proof {
        assert(evs.skip(0) =~= evs);
    }
    let mut i: usize = 0;
    while i < c.events.len()
        invariant
            table.wf(),
            i <= c.events@.len(),
            c@.parent_count == 1,
            evs == c@.events,
            evs.len() == c.events@.len(),
            apply_events(old(table)@, evs) == apply_events(table@, evs.skip(i as int)),
        decreases c.events@.len() - i,
    {
        let ghost t_pre = table@;
        let r = apply_line_event(table, &c.events[i]);
        proof {
            assert(evs.skip(i as int)[0] == evs[i as int]);
            assert(evs[i as int] == c.events@[i as int]@);
            assert(evs.skip(i as int).drop_first() =~= evs.skip(i as int + 1));
        }
        match r {
            Result::Ok(_) => {},
            Result::Err(e) => {
                proof {
                    assert(apply_events(t_pre, evs.skip(i as int)) is None);
                }
                return Result::Err(e);
            },
        }
        i = i + 1;
    }
    proof {
        assert(evs.skip(evs.len() as int) =~= Seq::<EventView>::empty());
    }
    Result::Ok(())
}

/// Folds a whole run's commits, oldest first, into a fresh table. Returns
/// the final table exactly when the specification-level fold does; the one
/// possible error is a delta without any path.
pub fn churn_from_commits(records: &Vec<CommitRecord>) -> (r: Result<ChurnTable, EngineError>)
    ensures
        match r {
            Result::Ok(t) => t.wf() && (apply_commits(TableView::empty(), commit_views(records@))
                matches Option::Some(m) && m == t@),
            Result::Err(e) => e == EngineError::InvariantViolation && apply_commits(
                TableView::empty(),
                commit_views(records@),
            ) is None,
        },
{
    let mut table = ChurnTable::new();
    let ghost cs = commit_views(records@);
    proof {
        assert(cs.skip(0) =~= cs);
    }
    let mut i: usize = 0;
    while i < records.len()
        invariant
            table.wf(),
            i <= records@.len(),
            cs == commit_views(records@),
            cs.len() == records@.len(),
            apply_commits(TableView::empty(), cs) == apply_commits(table@, cs.skip(i as int)),
        decreases records@.len() - i,
    {
        let ghost t_pre = table@;
        let r = apply_commit_record(&mut table, &records[i]);
        proof {
            assert(cs.skip(i as int)[0] == cs[i as int]);
            assert(cs[i as int] == records@[i as int]@);
            assert(cs.skip(i as int).drop_first() =~= cs.skip(i as int + 1));
        }
        match r {
            Result::Ok(_) => {},
            Result::Err(e) => {
                proof {
                    assert(apply_commits(t_pre, cs.skip(i as int)) is None);
                }
                return Result::Err(e);
            },
        }
        i = i + 1;
    }
    proof {
        assert(cs.skip(cs.len() as int) =~= Seq::<CommitView>::empty());
    }
    Result::Ok(table)
}

} // verus!
