use vstd::prelude::*;
use vstd::string::StringExecFns;

use crate::error::Error;
use crate::text::{split_at_char, split_on, trim, trimmed, views};

verus! {

/// Remote used when none is given.
pub const DEFAULT_REMOTE: &'static str = "origin";

/// Base branch used when none is given.
pub const DEFAULT_BRANCH: &'static str = "main";

/// Which side of the repository a deletion touches.
#[derive(Debug, Clone, Copy, PartialEq, Eq, Structural)]
pub enum DeleteMode {
    Local,
    Remote,
    Both,
}



/// The word that ends the confirmation header for a mode.
pub open spec fn mode_target(mode: DeleteMode) -> Seq<char> {
    match mode {
        DeleteMode::Local => "locally:"@,
        DeleteMode::Remote => "remotely:"@,
        DeleteMode::Both => "locally and remotely:"@,
    }
}

pub open spec fn warning_text(mode: DeleteMode) -> Seq<char> {
    "The following branches will be deleted "@ + mode_target(mode)
}

impl DeleteMode {
    /// `-l` selects local deletion, else `-r` remote deletion, else both.
    pub fn new(locals: bool, remotes: bool) -> (r: DeleteMode)
        ensures
            r == (if locals {
                DeleteMode::Local
            } else if remotes {
                DeleteMode::Remote
            } else {
                DeleteMode::Both
            }),
    {
        if locals {
            DeleteMode::Local
        } else if remotes {
            DeleteMode::Remote
        } else {
            DeleteMode::Both
        }
    }

    /// The header shown above the branches before asking for confirmation.
    pub fn warning_message(&self) -> (r: String)
        ensures
            r@ == warning_text(*self),
    {
        let source: &str = match *self {
            DeleteMode::Local => "locally:",
            DeleteMode::Remote => "remotely:",
            DeleteMode::Both => "locally and remotely:",
        };
        proof {
            reveal_strlit("locally:");
            reveal_strlit("remotely:");
            reveal_strlit("locally and remotely:");
        }
        let mut s = String::from_str("The following branches will be deleted ");
        s.append(source);
        s
    }
}

/// The settings of one run.
pub struct Options {
    pub remote: String,
    pub base_branch: String,
    pub squashes: bool,
    pub delete_unpushed_branches: bool,
    pub ignored_branches: Vec<String>,
    pub delete_mode: DeleteMode,
}

/// Whether some line of `git remote`'s output names `remote`.
pub open spec fn remote_listed(remote: Seq<char>, output: Seq<char>) -> bool {
    exists|i: int|
        0 <= i < split_on(output, '\n').len() && #[trigger] trimmed(split_on(output, '\n')[i])
            == remote
}

impl Options {
    /// Settings from the parsed command line; a missing remote or base branch
    /// takes its default.
    pub fn new(
        remote: Option<String>,
        base_branch: Option<String>,
        ignored_branches: Vec<String>,
        squashes: bool,
        delete_unpushed_branches: bool,
        delete_mode: DeleteMode,
    ) -> (r: Options)
        ensures
            r.remote@ == (match remote {
                Some(s) => s@,
                None => DEFAULT_REMOTE@,
            }),
            r.base_branch@ == (match base_branch {
                Some(s) => s@,
                None => DEFAULT_BRANCH@,
            }),
            r.ignored_branches@ == ignored_branches@,
            r.squashes == squashes,
            r.delete_unpushed_branches == delete_unpushed_branches,
            r.delete_mode == delete_mode,
    {
        let remote = match remote {
            Some(s) => s,
            None => String::from_str(DEFAULT_REMOTE),
        };
        let base_branch = match base_branch {
            Some(s) => s,
            None => String::from_str(DEFAULT_BRANCH),
        };
        Options {
            remote,
            base_branch,
            squashes,
            delete_unpushed_branches,
            ignored_branches,
            delete_mode,
        }
    }

    /// Checks the repository state a run needs: `head` is what
    /// `git rev-parse --abbrev-ref HEAD` printed and `remotes` what
    /// `git remote` printed.
    pub fn validate(&self, head: &str, remotes: &str) -> (r: Result<(), Error>)
        ensures
            trimmed(head@) != self.base_branch@ ==> r == Err::<(), Error>(
                Error::CurrentBranchInvalid,
            ),
            trimmed(head@) == self.base_branch@ && !remote_listed(self.remote@, remotes@) ==> r
                == Err::<(), Error>(Error::InvalidRemote),
            r is Ok <==> trimmed(head@) == self.base_branch@ && remote_listed(
                self.remote@,
                remotes@,
            ),
    {
        self.validate_base_branch(head)?;
        self.validate_remote(remotes)?;
        Ok(())
    }

    fn validate_base_branch(&self, head: &str) -> (r: Result<(), Error>)
        ensures
            trimmed(head@) == self.base_branch@ ==> r is Ok,
            trimmed(head@) != self.base_branch@ ==> r == Err::<(), Error>(
                Error::CurrentBranchInvalid,
            ),
    {
        let current_branch = trim(head);
        if current_branch != self.base_branch {
            return Err(Error::CurrentBranchInvalid);
        }
        Ok(())
    }

    fn validate_remote(&self, remotes: &str) -> (r: Result<(), Error>)
        ensures
            remote_listed(self.remote@, remotes@) ==> r is Ok,
            !remote_listed(self.remote@, remotes@) ==> r == Err::<(), Error>(Error::InvalidRemote),
    {
        let lines = split_at_char(remotes, '\n');
        let mut i: usize = 0;
        while i < lines.len()
            invariant
                i <= lines@.len(),
                views(lines@) == split_on(remotes@, '\n'),
                forall|j: int| 0 <= j < i ==> trimmed(#[trigger] lines@[j]@) != self.remote@,
            decreases lines@.len() - i,
        {
            let name = trim(lines[i].as_str());
            if name == self.remote {
                proof {
                    assert(split_on(remotes@, '\n')[i as int] == lines@[i as int]@);
                }
                return Ok(());
            }
            i = i + 1;
        }
        proof {
            assert forall|j: int| 0 <= j < split_on(remotes@, '\n').len() implies #[trigger] trimmed(
                split_on(remotes@, '\n')[j],
            ) != self.remote@ by {
                assert(split_on(remotes@, '\n')[j] == lines@[j]@);
            }
        }
        Err(Error::InvalidRemote)
    }
}

} // verus!
