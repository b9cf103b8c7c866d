//! Integration with Git: which git commands each request runs, in which
//! order, and what their outcomes mean. The commands themselves are run
//! outside the library.
use vstd::prelude::*;
use crate::text::{
    byte_len, char_count_at_byte, contains, from_chars, lines, owned, push_str, str_contains, to_chars, trim,
};

verus! {

/// Integration with Git for version control
#[derive(Debug, Clone)]
pub struct GitIntegration {
    /// Repository root path
    repo_path: String,
}

/// One git command.
#[derive(Debug, Clone)]
pub enum GitOp {
    /// Whether the directory is inside a work tree (a failure means it is
    /// not a repository)
    RepoCheck,
    CreateBranch(String),
    Checkout(String),
    Stage(Vec<String>),
    StageAll,
    Commit(String),
    CurrentBranch,
    Status,
}

/// A request made of git commands.
#[derive(Debug, Clone)]
pub enum GitTask {
    CreateBranch(String),
    Checkout(String),
    StageFiles(Vec<String>),
    StageAll,
    Commit(String),
    CurrentBranch,
    ModifiedFiles,
    /// Stage the given files (all changes when none are given) and commit
    StageAndCommit { message: String, files: Option<Vec<String>> },
    /// Create a branch, then stage and commit
    CreateBranchAndCommit { branch: String, message: String, files: Option<Vec<String>> },
}

/// What a successful command gives back.
#[derive(Debug, Clone)]
pub enum GitOutput {
    Done,
    Branch(String),
    Files(Vec<String>),
}

pub open spec fn texts(v: Seq<String>) -> Seq<Seq<char>> {
    v.map_values(|s: String| s@)
}

impl GitOp {
    /// The arguments given to `git` for the command.
    pub open spec fn arguments(self) -> Seq<Seq<char>> {
        match self {
            GitOp::RepoCheck => seq!["rev-parse"@, "--is-inside-work-tree"@],
            GitOp::CreateBranch(b) => seq!["checkout"@, "-b"@, b@],
            GitOp::Checkout(b) => seq!["checkout"@, b@],
            GitOp::Stage(files) => seq!["add"@] + texts(files@),
            GitOp::StageAll => seq!["add"@, "."@],
            GitOp::Commit(m) => seq!["commit"@, "-m"@, m@],
            GitOp::CurrentBranch => seq!["rev-parse"@, "--abbrev-ref"@, "HEAD"@],
            GitOp::Status => seq!["status"@, "--porcelain"@],
        }
    }

    /// The start of the error when the command itself fails.
    pub open spec fn failure(self) -> Seq<char> {
        match self {
            GitOp::RepoCheck => "Not a git repository"@,
            GitOp::CreateBranch(_) => "Failed to create branch: "@,
            GitOp::Checkout(_) => "Failed to checkout branch: "@,
            GitOp::Stage(_) => "Failed to stage files: "@,
            GitOp::StageAll => "Failed to stage all changes: "@,
            GitOp::Commit(_) => "Failed to create commit: "@,
            GitOp::CurrentBranch => "Failed to get current branch: "@,
            GitOp::Status => "Failed to get modified files: "@,
        }
    }

    /// The error when the command cannot be started at all.
    pub open spec fn start_failure(self) -> Seq<char> {
        match self {
            GitOp::RepoCheck => "Not a git repository"@,
            GitOp::CreateBranch(_) => "Failed to create git branch"@,
            GitOp::Checkout(_) => "Failed to checkout git branch"@,
            GitOp::Stage(_) => "Failed to stage files"@,
            GitOp::StageAll => "Failed to stage all changes"@,
            GitOp::Commit(_) => "Failed to create commit"@,
            GitOp::CurrentBranch => "Failed to get current branch"@,
            GitOp::Status => "Failed to get modified files"@,
        }
    }

    /// The arguments given to `git` for the command.
    pub fn args(&self) -> (r: Vec<String>)
        ensures
            texts(r@) == self.arguments(),
    {
        let mut r: Vec<String> = Vec::new();
        match self {
            GitOp::RepoCheck => {
                r.push(owned("rev-parse"));
                r.push(owned("--is-inside-work-tree"));
            },
            GitOp::CreateBranch(b) => {
                r.push(owned("checkout"));
                r.push(owned("-b"));
                r.push(b.clone());
            },
            GitOp::Checkout(b) => {
                r.push(owned("checkout"));
                r.push(b.clone());
            },
            GitOp::Stage(files) => {
                r.push(owned("add"));
                let mut i: usize = 0;
                while i < files.len()
                    invariant
                        i <= files.len(),
                        texts(r@) == seq!["add"@] + texts(files@.take(i as int)),
                    decreases files.len() - i,
                {
                    let f = files[i].clone();
                    proof {
                        assert(files@.take(i + 1) =~= files@.take(i as int).push(files@[i as int]));
                        assert(f@ == files@[i as int]@);
                    }
                    let ghost before = r@;
                    r.push(f);
                    i += 1;
                    proof {
                        assert(texts(r@) =~= texts(before).push(f@));
                        assert(texts(files@.take(i as int)) =~= texts(files@.take(i - 1)).push(f@));
                        assert(texts(r@) =~= seq!["add"@] + texts(files@.take(i as int)));
                    }
                }
                proof {
                    assert(files@.take(files.len() as int) =~= files@);
                }
            },
            GitOp::StageAll => {
                r.push(owned("add"));
                r.push(owned("."));
            },
            GitOp::Commit(m) => {
                r.push(owned("commit"));
                r.push(owned("-m"));
                r.push(m.clone());
            },
            GitOp::CurrentBranch => {
                r.push(owned("rev-parse"));
                r.push(owned("--abbrev-ref"));
                r.push(owned("HEAD"));
            },
            GitOp::Status => {
                r.push(owned("status"));
                r.push(owned("--porcelain"));
            },
        }
        proof {
            assert(texts(r@) =~= self.arguments());
        }
        r
    }

    /// The error when the command cannot be started at all.
    pub fn start_failure_text(&self) -> (r: String)
        ensures
            r@ == self.start_failure(),
    {
        match self {
            GitOp::RepoCheck => owned("Not a git repository"),
            GitOp::CreateBranch(_) => owned("Failed to create git branch"),
            GitOp::Checkout(_) => owned("Failed to checkout git branch"),
            GitOp::Stage(_) => owned("Failed to stage files"),
            GitOp::StageAll => owned("Failed to stage all changes"),
            GitOp::Commit(_) => owned("Failed to create commit"),
            GitOp::CurrentBranch => owned("Failed to get current branch"),
            GitOp::Status => owned("Failed to get modified files"),
        }
    }
}

/// Every line of `ls` longer than three bytes has a character boundary
/// after its third byte.
pub open spec fn status_lines_sliceable(ls: Seq<Seq<char>>) -> bool {
    forall|i: int| 0 <= i < ls.len() && byte_len(#[trigger] ls[i]) > 3 ==> char_count_at_byte(ls[i], 3) is Some
}

/// The files named by `git status --porcelain` lines: each line longer
/// than three bytes, without its first three bytes.
pub open spec fn status_files(ls: Seq<Seq<char>>) -> Seq<Seq<char>>
    decreases ls.len(),
{
    if ls.len() == 0 {
        seq![]
    } else {
        let l = ls.last();
        status_files(ls.drop_last()) + if byte_len(l) > 3 {
            seq![l.skip(char_count_at_byte(l, 3)->Some_0 as int)]
        } else {
            seq![]
        }
    }
}

/// The files named by the output of `git status --porcelain`.
pub fn modified_files(stdout: &str) -> (r: Vec<String>)
    requires
        status_lines_sliceable(lines(stdout@)),
    ensures
        texts(r@) == status_files(lines(stdout@)),
{
    let ls = crate::text::split_lines(stdout);
    let ghost lv = ls.deep_view();
    let mut r: Vec<String> = Vec::new();
    let mut i: usize = 0;
    while i < ls.len()
        invariant
            i <= ls.len(),
            lv == ls.deep_view(),
            lv == lines(stdout@),
            status_lines_sliceable(lv),
            texts(r@) == status_files(lv.take(i as int)),
        decreases ls.len() - i,
    {
        let line = to_chars(ls[i].as_str());
        proof {
            assert(lv[i as int] == ls@[i as int]@);
            assert(lv.take(i + 1).drop_last() =~= lv.take(i as int));
            assert(lv.take(i + 1).last() == lv[i as int]);
        }
        let n = crate::text::byte_len_of(line.as_slice());
        if n > 3 {
            let k = crate::text::char_count_at_byte_exec(line.as_slice(), 3);
            match k {
                Some(k) => {
                    let rest = crate::text::slice_chars(line.as_slice(), k, line.len());
                    proof {
                        assert(rest@ =~= line@.skip(k as int));
                    }
                    r.push(from_chars(rest.as_slice()));
                },
                None => {
                    proof {
                        assert(byte_len(lv[i as int]) > 3);
                    }
                },
            }
        }
        i += 1;
        proof {
            assert(texts(r@) =~= status_files(lv.take(i as int)));
        }
    }
    proof {
        assert(lv.take(ls.len() as int) =~= lv);
    }
    r
}

/// What a finished command means: an error when it failed (a commit with
/// nothing to commit is no failure), else what it gives back.
pub open spec fn step_outcome(op: GitOp, success: bool, stdout: Seq<char>, stderr: Seq<char>) -> Result<
    Seq<Seq<char>>,
    Seq<char>,
> {
    if !success {
        match op {
            GitOp::RepoCheck => Err(op.failure()),
            GitOp::Commit(_) => if contains(stderr, "nothing to commit"@) {
                Ok(seq![])
            } else {
                Err(op.failure() + stderr)
            },
            _ => Err(op.failure() + stderr),
        }
    } else {
        match op {
            GitOp::CurrentBranch => Ok(seq![trim(stdout)]),
            GitOp::Status => Ok(status_files(lines(stdout))),
            _ => Ok(seq![]),
        }
    }
}

pub open spec fn output_view(o: GitOutput) -> Seq<Seq<char>> {
    match o {
        GitOutput::Done => seq![],
        GitOutput::Branch(b) => seq![b@],
        GitOutput::Files(f) => texts(f@),
    }
}

impl GitIntegration {
    pub closed spec fn repo(self) -> Seq<char> {
        self.repo_path@
    }

    /// Create a new Git integration
    pub fn new(repo_path: &str) -> (r: Self)
        ensures
            r.repo() == repo_path@,
    {
        GitIntegration { repo_path: owned(repo_path) }
    }

    /// The directory the commands run in.
    pub fn repo_path(&self) -> (r: &str)
        ensures
            r@ == self.repo(),
    {
        self.repo_path.as_str()
    }

    /// The commands a request runs, in order, each request after a check
    /// that the directory is a repository (a request made of others checks
    /// again before each of them). Staging no files runs nothing more.
    pub open spec fn plan(task: GitTask) -> Seq<GitOp> {
        match task {
            GitTask::CreateBranch(b) => seq![GitOp::RepoCheck, GitOp::CreateBranch(b)],
            GitTask::Checkout(b) => seq![GitOp::RepoCheck, GitOp::Checkout(b)],
            GitTask::StageFiles(f) => Self::stage_plan(f),
            GitTask::StageAll => seq![GitOp::RepoCheck, GitOp::StageAll],
            GitTask::Commit(m) => seq![GitOp::RepoCheck, GitOp::Commit(m)],
            GitTask::CurrentBranch => seq![GitOp::RepoCheck, GitOp::CurrentBranch],
            GitTask::ModifiedFiles => seq![GitOp::RepoCheck, GitOp::Status],
            GitTask::StageAndCommit { message, files } => seq![GitOp::RepoCheck] + Self::stage_commit_plan(
                message,
                files,
            ),
            GitTask::CreateBranchAndCommit { branch, message, files } => seq![
                GitOp::RepoCheck,
                GitOp::RepoCheck,
                GitOp::CreateBranch(branch),
                GitOp::RepoCheck,
            ] + Self::stage_commit_plan(message, files),
        }
    }

    pub open spec fn stage_plan(files: Vec<String>) -> Seq<GitOp> {
        if files@.len() == 0 {
            seq![GitOp::RepoCheck]
        } else {
            seq![GitOp::RepoCheck, GitOp::Stage(files)]
        }
    }

    pub open spec fn stage_commit_plan(message: String, files: Option<Vec<String>>) -> Seq<GitOp> {
        let staging = match files {
            Some(f) => Self::stage_plan(f),
            None => seq![GitOp::RepoCheck, GitOp::StageAll],
        };
        staging + seq![GitOp::RepoCheck, GitOp::Commit(message)]
    }

    fn push_stage(steps: &mut Vec<GitOp>, files: Vec<String>)
        ensures
            final(steps)@ == old(steps)@ + Self::stage_plan(files),
    {
        steps.push(GitOp::RepoCheck);
        if files.len() > 0 {
            steps.push(GitOp::Stage(files));
        }
        proof {
            assert(final(steps)@ =~= old(steps)@ + Self::stage_plan(files));
        }
    }

    fn push_stage_commit(steps: &mut Vec<GitOp>, message: String, files: Option<Vec<String>>)
        ensures
            final(steps)@ == old(steps)@ + Self::stage_commit_plan(message, files),
    {
        let ghost start = steps@;
        match files {
            Some(f) => Self::push_stage(steps, f),
            None => {
                steps.push(GitOp::RepoCheck);
                steps.push(GitOp::StageAll);
            },
        }
        steps.push(GitOp::RepoCheck);
        steps.push(GitOp::Commit(message));
        proof {
            assert(steps@ =~= start + Self::stage_commit_plan(message, files));
        }
    }

    /// The commands a request runs, in order.
    pub fn steps(&self, task: GitTask) -> (r: Vec<GitOp>)
        ensures
            r@ == Self::plan(task),
    {
        let ghost t = task;
        let mut r: Vec<GitOp> = Vec::new();
        match task {
            GitTask::CreateBranch(b) => {
                r.push(GitOp::RepoCheck);
                r.push(GitOp::CreateBranch(b));
            },
            GitTask::Checkout(b) => {
                r.push(GitOp::RepoCheck);
                r.push(GitOp::Checkout(b));
            },
            GitTask::StageFiles(f) => {
                Self::push_stage(&mut r, f);
            },
            GitTask::StageAll => {
                r.push(GitOp::RepoCheck);
                r.push(GitOp::StageAll);
            },
            GitTask::Commit(m) => {
                r.push(GitOp::RepoCheck);
                r.push(GitOp::Commit(m));
            },
            GitTask::CurrentBranch => {
                r.push(GitOp::RepoCheck);
                r.push(GitOp::CurrentBranch);
            },
            GitTask::ModifiedFiles => {
                r.push(GitOp::RepoCheck);
                r.push(GitOp::Status);
            },
            GitTask::StageAndCommit { message, files } => {
                r.push(GitOp::RepoCheck);
                Self::push_stage_commit(&mut r, message, files);
            },
            GitTask::CreateBranchAndCommit { branch, message, files } => {
                r.push(GitOp::RepoCheck);
                r.push(GitOp::RepoCheck);
                r.push(GitOp::CreateBranch(branch));
                r.push(GitOp::RepoCheck);
                Self::push_stage_commit(&mut r, message, files);
            },
        }
        proof {
            assert(r@ =~= Self::plan(t));
        }
        r
    }

    /// What a finished command means, from whether it succeeded and what it
    /// wrote.
    pub fn step_result(&self, op: &GitOp, success: bool, stdout: &str, stderr: &str) -> (r: Result<
        GitOutput,
        String,
    >)
        requires
            (op is Status && success) ==> status_lines_sliceable(lines(stdout@)),
        ensures
            match r {
                Ok(o) => step_outcome(*op, success, stdout@, stderr@) == Ok::<Seq<Seq<char>>, Seq<char>>(
                    output_view(o),
                ),
                Err(e) => step_outcome(*op, success, stdout@, stderr@) == Err::<Seq<Seq<char>>, Seq<char>>(e@),
            },
    {
        if !success {
            let mut v: Vec<char> = Vec::new();
            match op {
                GitOp::RepoCheck => {
                    return Err(owned("Not a git repository"));
                },
                GitOp::Commit(_) => {
                    if str_contains(stderr, "nothing to commit") {
                        return Ok(GitOutput::Done);
                    }
                    push_str(&mut v, "Failed to create commit: ");
                },
                GitOp::CreateBranch(_) => push_str(&mut v, "Failed to create branch: "),
                GitOp::Checkout(_) => push_str(&mut v, "Failed to checkout branch: "),
                GitOp::Stage(_) => push_str(&mut v, "Failed to stage files: "),
                GitOp::StageAll => push_str(&mut v, "Failed to stage all changes: "),
                GitOp::CurrentBranch => push_str(&mut v, "Failed to get current branch: "),
                GitOp::Status => push_str(&mut v, "Failed to get modified files: "),
            }
            push_str(&mut v, stderr);
            return Err(from_chars(v.as_slice()));
        }
        match op {
            GitOp::CurrentBranch => {
                let b = crate::text::trim_str(stdout);
                proof {
                    assert(output_view(GitOutput::Branch(b)) =~= seq![trim(stdout@)]);
                }
                Ok(GitOutput::Branch(b))
            },
            GitOp::Status => Ok(GitOutput::Files(modified_files(stdout))),
            _ => Ok(GitOutput::Done),
        }
    }
}

} // verus!
