//! The backend adapter: drives the engine over a real repository through the
//! `git2` crate. Every call into `git2` stands behind a trusted wrapper; the
//! selection loop, the classification and the aggregation around those calls
//! are verified. What a repository holds is outside the logic's control, so
//! the wrappers promise nothing about the values they hand back; the engine's
//! contracts state what holds of every outcome.

use vstd::prelude::*;

use crate::engine::{churn_from_commits, CommitRecord, EngineError, LineEvent};
use crate::model::{churn, entry_before, entry_order, report_of, TableView};
use crate::report::{build_report, entry_views, RankedEntry};

verus! {

#[verifier::external_type_specification]
#[verifier::external_body]
pub struct ExRepository(git2::Repository);

#[verifier::external_type_specification]
#[verifier::external_body]
pub struct ExReference<'a>(git2::Reference<'a>);

#[verifier::external_type_specification]
#[verifier::external_body]
pub struct ExCommit<'a>(git2::Commit<'a>);

#[verifier::external_type_specification]
#[verifier::external_body]
pub struct ExTree<'a>(git2::Tree<'a>);

#[verifier::external_type_specification]
#[verifier::external_body]
pub struct ExRevwalk<'a>(git2::Revwalk<'a>);

#[verifier::external_type_specification]
#[verifier::external_body]
pub struct ExOid(git2::Oid);

#[verifier::external_type_specification]
#[verifier::external_body]
pub struct ExError(git2::Error);

/// Relies on `git2::Repository::open`: opens the repository at `path`.
#[verifier::external_body]
fn repo_open(path: &String) -> (r: Result<git2::Repository, git2::Error>) {
    git2::Repository::open(path.as_str())
}

/// Relies on `git2::Repository::find_branch` with `BranchType::Local`, and
/// on `git2::Branch::into_reference`: the reference of the named local
/// branch.
#[verifier::external_body]
fn repo_find_branch<'repo>(repo: &'repo git2::Repository, name: &String) -> (r: Result<
    git2::Reference<'repo>,
    git2::Error,
>) {
    repo.find_branch(name.as_str(), git2::BranchType::Local).map(|b| b.into_reference())
}

/// Relies on `git2::Reference::peel_to_commit`: the commit the reference
/// points at.
#[verifier::external_body]
fn reference_peel_to_commit<'repo>(reference: &git2::Reference<'repo>) -> (r: Result<
    git2::Commit<'repo>,
    git2::Error,
>) {
    reference.peel_to_commit()
}

/// Relies on `git2::Commit::id`: the commit's object id.
#[verifier::external_body]
fn commit_id(c: &git2::Commit<'_>) -> (r: git2::Oid) {
    c.id()
}

/// Relies on `git2::Repository::revwalk`: a fresh walk over the commit
/// graph.
#[verifier::external_body]
fn repo_revwalk<'repo>(repo: &'repo git2::Repository) -> (r: Result<
    git2::Revwalk<'repo>,
    git2::Error,
>) {
    repo.revwalk()
}

/// Relies on `git2::Revwalk::push`: roots the walk at the given commit.
#[verifier::external_body]
fn revwalk_push(walk: &mut git2::Revwalk<'_>, oid: git2::Oid) -> (r: Result<(), git2::Error>) {
    walk.push(oid)
}

/// Relies on `git2::Revwalk::set_sorting` with `Sort::TIME | Sort::REVERSE`:
/// the walk yields commits by commit time ascending, oldest first, with the
/// backend's stable tie-break.
#[verifier::external_body]
fn revwalk_set_time_ascending(walk: &mut git2::Revwalk<'_>) -> (r: Result<(), git2::Error>) {
    walk.set_sorting(git2::Sort::TIME | git2::Sort::REVERSE)
}

/// Relies on `core::iter::Iterator::collect`: materialises the walk, one
/// `Result` per visited commit, in the walk's order.
#[verifier::external_body]
fn revwalk_collect(walk: git2::Revwalk<'_>) -> (r: Vec<Result<git2::Oid, git2::Error>>) {
    walk.collect()
}

/// Relies on `git2::Oid` being `Copy`: hands a copy of the id out.
#[verifier::external_body]
fn oid_copy(oid: &git2::Oid) -> (r: git2::Oid) {
    *oid
}

/// Relies on `git2::Repository::find_commit`: the commit with the given id.
#[verifier::external_body]
fn repo_find_commit<'repo>(repo: &'repo git2::Repository, oid: git2::Oid) -> (r: Result<
    git2::Commit<'repo>,
    git2::Error,
>) {
    repo.find_commit(oid)
}

/// Relies on `git2::Commit::parent_count`: how many parents the commit has.
#[verifier::external_body]
fn commit_parent_count(c: &git2::Commit<'_>) -> (r: usize) {
    c.parent_count()
}

/// Relies on `git2::Commit::parent` with index 0: the diff baseline parent.
#[verifier::external_body]
fn commit_parent0<'repo>(c: &git2::Commit<'repo>) -> (r: Result<git2::Commit<'repo>, git2::Error>) {
    c.parent(0)
}

/// Relies on `git2::Commit::tree`: the tree the commit points at.
#[verifier::external_body]
fn commit_tree<'repo>(c: &git2::Commit<'repo>) -> (r: Result<git2::Tree<'repo>, git2::Error>) {
    c.tree()
}

/// Relies on `git2::DiffOptions::context_lines` with 0, on
/// `git2::Repository::diff_tree_to_tree` and on `git2::Diff::foreach`: the
/// line events of the diff between the two trees, in callback order, with no
/// surrounding context lines; each event carries the line's origin character
/// and the delta's two optional paths.
#[verifier::external_body]
fn diff_line_events(
    repo: &git2::Repository,
    old_tree: &git2::Tree<'_>,
    new_tree: &git2::Tree<'_>,
) -> (r: Result<Vec<LineEvent>, git2::Error>) {
    let mut opts = git2::DiffOptions::new();
    opts.context_lines(0);
    let diff = repo.diff_tree_to_tree(Some(old_tree), Some(new_tree), Some(&mut opts))?;
    let mut events: Vec<LineEvent> = Vec::new();
    diff.foreach(&mut |_, _| true, None, None, Some(&mut |delta, _, line| {
        events.push(LineEvent {
            origin: line.origin(),
            old_path: delta.old_file().path().map(|p| p.to_string_lossy().into_owned()),
            new_path: delta.new_file().path().map(|p| p.to_string_lossy().into_owned()),
        });
        true
    }))?;
    Ok(events)
}

/// Relies on `git2::Error::message`: the backend's description of what went
/// wrong.
#[verifier::external_body]
fn error_message(e: &git2::Error) -> (r: String) {
    e.message().to_string()
}

/// Relies on `git2::Oid`'s `Display`: the id's hexadecimal form.
#[verifier::external_body]
fn oid_hex(oid: &git2::Oid) -> (r: String) {
    format!("{}", oid)
}

/// The backend's message, prefixed with the commit that triggered it.
fn commit_context(oid: &git2::Oid, e: &git2::Error) -> String {
    let mut msg = oid_hex(oid);
    msg.append(": ");
    msg.append(error_message(e).as_str());
    msg
}

/// Opens the repository at the configured path; failure aborts the run.
pub fn open_repository(path: &String) -> (r: Result<git2::Repository, EngineError>)
    ensures
        r matches Err(e) ==> e is RepositoryOpen,
{
    match repo_open(path) {
        Result::Ok(repo) => Result::Ok(repo),
        Result::Err(e) => Result::Err(EngineError::RepositoryOpen(error_message(&e))),
    }
}

/// Resolves the configured branch to its reference; a missing branch aborts
/// the run with an error naming it.
pub fn find_branch<'repo>(repo: &'repo git2::Repository, branch: &crate::config::Branch) -> (r: Result<
    git2::Reference<'repo>,
    EngineError,
>)
    ensures
        r matches Err(e) ==> e matches EngineError::BranchNotFound(n) && n@ == branch@,
{
    match repo_find_branch(repo, &branch.0) {
        Result::Ok(b) => Result::Ok(b),
        Result::Err(_) => Result::Err(EngineError::BranchNotFound(branch.0.clone())),
    }
}

/// The commit selector and the diff classifier's input: resolves the branch,
/// walks the tip's ancestry by commit time ascending — oldest first — and
/// records each visited commit's parent count together with, for commits
/// with exactly one parent, the line events of the diff against that parent.
/// Skipped commits get no diff and an empty event list.
pub fn collect_history(repo: &git2::Repository, branch: &crate::config::Branch) -> (r: Result<
    Vec<CommitRecord>,
    EngineError,
>)
    ensures
        r matches Err(e) ==> !(e is InvariantViolation) && !(e is RepositoryOpen),
{
    let reference = match find_branch(repo, branch) {
        Result::Ok(b) => b,
        Result::Err(e) => {
            return Result::Err(e);
        },
    };
    let tip = match reference_peel_to_commit(&reference) {
        Result::Ok(c) => commit_id(&c),
        Result::Err(e) => {
            return Result::Err(EngineError::TraversalFailed(error_message(&e)));
        },
    };
    let mut walk = match repo_revwalk(repo) {
        Result::Ok(w) => w,
        Result::Err(e) => {
            return Result::Err(EngineError::TraversalFailed(error_message(&e)));
        },
    };
    match revwalk_push(&mut walk, tip) {
        Result::Ok(_) => {},
        Result::Err(e) => {
            return Result::Err(EngineError::TraversalFailed(error_message(&e)));
        },
    }
    match revwalk_set_time_ascending(&mut walk) {
        Result::Ok(_) => {},
        Result::Err(e) => {
            return Result::Err(EngineError::TraversalFailed(error_message(&e)));
        },
    }
    let oids = revwalk_collect(walk);
    let mut records: Vec<CommitRecord> = Vec::new();
    let mut i: usize = 0;
    while i < oids.len()
        invariant
            i <= oids@.len(),
        decreases oids@.len() - i,
    {
        let oid = match &oids[i] {
            Result::Ok(o) => oid_copy(o),
            Result::Err(e) => {
                return Result::Err(EngineError::TraversalFailed(error_message(e)));
            },
        };
        let commit = match repo_find_commit(repo, oid) {
            Result::Ok(c) => c,
            Result::Err(e) => {
                return Result::Err(EngineError::TraversalFailed(commit_context(&oid, &e)));
            },
        };
        let pc = commit_parent_count(&commit);
        if pc == 1 {
            let parent = match commit_parent0(&commit) {
                Result::Ok(p) => p,
                Result::Err(e) => {
                    return Result::Err(EngineError::TraversalFailed(commit_context(&oid, &e)));
                },
            };
            let old_tree = match commit_tree(&parent) {
                Result::Ok(t) => t,
                Result::Err(e) => {
                    return Result::Err(EngineError::DiffFailed(commit_context(&oid, &e)));
                },
            };
            let new_tree = match commit_tree(&commit) {
                Result::Ok(t) => t,
                Result::Err(e) => {
                    return Result::Err(EngineError::DiffFailed(commit_context(&oid, &e)));
                },
            };
            let events = match diff_line_events(repo, &old_tree, &new_tree) {
                Result::Ok(ev) => ev,
                Result::Err(e) => {
                    return Result::Err(EngineError::DiffFailed(commit_context(&oid, &e)));
                },
            };
            records.push(CommitRecord { parent_count: pc, events });
        } else {
            records.push(CommitRecord { parent_count: pc, events: Vec::new() });
        }
        i = i + 1;
    }
    Result::Ok(records)
}

/// Runs the whole engine over an open repository: selects the commits
/// reachable from the branch tip oldest first, classifies every qualifying
/// commit's diff, aggregates per-file churn, and builds the ordered report.
/// Whatever the repository holds, a successful report is the report of some
/// aggregate table: strictly ordered — more churn first, ties by path
/// ascending — and free of zero-churn files.
pub fn run_churn(repo: &git2::Repository, branch: &crate::config::Branch) -> (r: Result<
    Vec<RankedEntry>,
    EngineError,
>)
    ensures
        r matches Ok(rep) ==> vstd::relations::sorted_by(entry_views(rep@), entry_order()),
        r matches Ok(rep) ==> forall|i: int, j: int|
            0 <= i < j < rep@.len() ==> (#[trigger] entry_views(rep@)[i]).path != (
            #[trigger] entry_views(rep@)[j]).path,
        r matches Ok(rep) ==> forall|i: int|
            0 <= i < rep@.len() ==> churn((#[trigger] entry_views(rep@)[i]).delta) >= 1,
        r matches Ok(rep) ==> forall|i: int|
            0 <= i < rep@.len() - 1 ==> entry_before(
                #[trigger] entry_views(rep@)[i],
                entry_views(rep@)[i + 1],
            ),
{
    let records = match collect_history(repo, branch) {
        Result::Ok(r) => r,
        Result::Err(e) => {
            return Result::Err(e);
        },
    };
    let table = match churn_from_commits(&records) {
        Result::Ok(t) => t,
        Result::Err(e) => {
            return Result::Err(e);
        },
    };
    let ghost t0 = table@;
    let report = build_report(table);
    proof {
        assert(report_of(t0, entry_views(report@)));
        assert(exists|t: TableView| report_of(t, entry_views(report@)));
    }
    Result::Ok(report)
}

} // verus!
