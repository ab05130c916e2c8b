use vstd::prelude::*;
use vstd::string::StringExecFns;

verus! {

/// Why a run stops before anything is deleted.
#[derive(Debug)]
pub enum Error {
    GitInstallation,
    CurrentBranchInvalid,
    InvalidRemote,
    /// The base branch name does not make a valid line pattern.
    InvalidBranchName,
    ExitEarly,
    /// Reading the answer to the confirmation failed; holds the reason.
    Io(String),
}

pub open spec fn error_text(e: Error) -> Seq<char> {
    match e {
        Error::Io(reason) => reason@,
        Error::ExitEarly => Seq::empty(),
        Error::GitInstallation => "Unable to execute 'git' on your machine, please make sure it's installed and on your PATH"@,
        Error::CurrentBranchInvalid => "Please make sure to run git-clean from your base branch (defaults to main)."@,
        Error::InvalidRemote => "That remote doesn't exist, please make sure to use a valid remote (defaults to origin)."@,
        Error::InvalidBranchName => "That base branch name cannot be matched against git's branch listings."@,
    }
}

impl Error {
    /// The text shown to the user for this error.
    pub fn message(&self) -> (r: String)
        ensures
            r@ == error_text(*self),
    {
        match self {
            Error::Io(reason) => reason.clone(),
            Error::ExitEarly => String::new(),
            Error::GitInstallation => {
                let t = "Unable to execute 'git' on your machine, please make sure it's installed and on your PATH";
                proof { reveal_strlit("Unable to execute 'git' on your machine, please make sure it's installed and on your PATH"); }
                String::from_str(t)
            },
            Error::CurrentBranchInvalid => {
                let t = "Please make sure to run git-clean from your base branch (defaults to main).";
                proof { reveal_strlit("Please make sure to run git-clean from your base branch (defaults to main)."); }
                String::from_str(t)
            },
            Error::InvalidRemote => {
                let t = "That remote doesn't exist, please make sure to use a valid remote (defaults to origin).";
                proof { reveal_strlit("That remote doesn't exist, please make sure to use a valid remote (defaults to origin)."); }
                String::from_str(t)
            },
            Error::InvalidBranchName => {
                let t = "That base branch name cannot be matched against git's branch listings.";
                proof { reveal_strlit("That base branch name cannot be matched against git's branch listings."); }
                String::from_str(t)
            },
        }
    }
}

} // verus!
