use vstd::prelude::*;

verus! {

#[verifier::external_type_specification]
#[verifier::external_body]
pub struct ExRepository(git2::Repository);

#[verifier::external_type_specification]
#[verifier::external_body]
pub struct ExGitError(git2::Error);

#[verifier::external_type_specification]
#[verifier::external_body]
pub struct ExOid(git2::Oid);

#[verifier::external_type_specification]
#[verifier::external_body]
pub struct ExBranches<'repo>(git2::Branches<'repo>);

#[verifier::external_type_specification]
#[verifier::external_body]
pub struct ExBranch<'repo>(git2::Branch<'repo>);

#[verifier::external_type_specification]
#[verifier::external_body]
pub struct ExBranchType(git2::BranchType);

#[verifier::external_type_specification]
#[verifier::external_body]
pub struct ExRevwalk<'repo>(git2::Revwalk<'repo>);

#[verifier::external_type_specification]
#[verifier::external_body]
pub struct ExCommit<'repo>(git2::Commit<'repo>);

/// Relies on git2's `Repository::open`: opens the repository at `path`, or
/// reports why it cannot. What comes back depends on the disk, so nothing
/// is promised of it.
#[verifier::external_body]
pub fn open_repository(path: &str) -> Result<git2::Repository, git2::Error> {
    git2::Repository::open(path)
}

/// Relies on git2's `Error::message`: the error's description.
#[verifier::external_body]
pub fn error_message(e: &git2::Error) -> String {
    e.message().to_string()
}

/// Relies on git2's `Repository::branches` with the `Local` filter: an
/// iterator over the repository's local branches.
#[verifier::external_body]
pub fn local_branches<'r>(repo: &'r git2::Repository) -> Result<git2::Branches<'r>, git2::Error> {
    repo.branches(Some(git2::BranchType::Local))
}

/// Relies on git2's `Branches::next`, `Branch::get` and
/// `Reference::target`: the next local branch's tip commit identifier.
/// `None` when the branches are exhausted; `Some(Ok(None))` for a branch
/// whose reference points at no commit.
#[verifier::external_body]
pub fn next_branch_tip(
    branches: &mut git2::Branches,
) -> Option<Result<Option<git2::Oid>, git2::Error>> {
    match branches.next() {
        None => None,
        Some(Err(e)) => Some(Err(e)),
        Some(Ok((branch, _))) => Some(Ok(branch.get().target())),
    }
}

/// Relies on git2's `Repository::revwalk`: a fresh, empty walk over the
/// repository's commit graph.
#[verifier::external_body]
pub fn create_revwalk<'r>(repo: &'r git2::Repository) -> Result<git2::Revwalk<'r>, git2::Error> {
    repo.revwalk()
}

/// Relies on git2's `Revwalk::push`: adds the commit `oid` as a root of
/// the walk, so the walk visits it and its ancestors.
#[verifier::external_body]
pub fn revwalk_push(walk: &mut git2::Revwalk, oid: git2::Oid) -> Result<(), git2::Error> {
    walk.push(oid)
}

/// Relies on git2's `Revwalk::set_sorting` with `Sort::TIME`: the walk
/// yields commits by descending commit time. The walk is stateful and
/// opaque, so that ordering is trusted, not verified: no contract here or
/// downstream states it, and the library proves only that the walk's
/// order is preserved through filtering.
#[verifier::external_body]
pub fn revwalk_sort_by_time(walk: &mut git2::Revwalk) -> Result<(), git2::Error> {
    walk.set_sorting(git2::Sort::TIME)
}

/// Relies on git2's `Revwalk::next`: the next commit identifier of the
/// walk, `None` when the walk is exhausted.
#[verifier::external_body]
pub fn next_commit_id(walk: &mut git2::Revwalk) -> Option<Result<git2::Oid, git2::Error>> {
    walk.next()
}

/// Relies on git2's `Repository::find_commit`: looks the commit up by its
/// identifier.
#[verifier::external_body]
pub fn find_commit<'r>(
    repo: &'r git2::Repository,
    oid: git2::Oid,
) -> Result<git2::Commit<'r>, git2::Error> {
    repo.find_commit(oid)
}

/// Relies on git2's `Oid::as_bytes`: the identifier's raw hash bytes.
#[verifier::external_body]
pub fn oid_bytes(oid: &git2::Oid) -> Vec<u8> {
    oid.as_bytes().to_vec()
}

/// Relies on git2's `Commit::author` and `Signature::email`: the author's
/// e-mail address, `None` when it is not valid text.
#[verifier::external_body]
pub fn commit_author_email(commit: &git2::Commit) -> Option<String> {
    commit.author().email().ok().map(|e| e.to_string())
}

/// Relies on git2's `Commit::author`, `Signature::when` and
/// `Time::seconds`: when the commit was authored — not when it was last
/// committed — in seconds since the Unix epoch.
#[verifier::external_body]
pub fn commit_time_seconds(commit: &git2::Commit) -> i64 {
    commit.author().when().seconds()
}

/// Relies on git2's `Commit::message`: the commit message, or the empty
/// string when it is absent or not valid text.
#[verifier::external_body]
pub fn commit_message_text(commit: &git2::Commit) -> String {
    match commit.message() {
        Ok(m) => m.to_string(),
        Err(_) => String::new(),
    }
}

} // verus!
