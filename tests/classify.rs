use git_clean::branches::Branches;
use git_clean::classify::{squash_check, Action, Classifier, PullOutcome};
use git_clean::listing::{local_branches, remote_branches};
use git_clean::options::{DeleteMode, Options};
use git_clean::Error;

fn names(list: &[&str]) -> Vec<String> {
    list.iter().map(|s| s.to_string()).collect()
}

fn options(squashes: bool, unpushed: bool, ignored: &[&str]) -> Options {
    Options::new(None, None, names(ignored), squashes, unpushed, DeleteMode::Both)
}

/// Runs a classification, answering each squash check from `pulls` in order.
fn run(
    local: &[&str],
    remote: &[&str],
    merged: &[&str],
    opts: &Options,
    pulls: &[PullOutcome],
) -> (Vec<String>, Vec<String>) {
    let mut c = Classifier::new(names(local), names(remote), names(merged), opts);
    let mut checked = Vec::new();
    let mut next = 0;
    loop {
        match c.next_action() {
            Action::CheckSquash(check) => {
                checked.push(check.branch);
                c.record_pull(pulls[next]);
                next += 1;
            }
            Action::Done => break,
        }
    }
    (Branches::merged(c).vec, checked)
}

#[test]
fn merged_branch_deleted_and_ahead_branch_kept() {
    let opts = options(false, false, &[]);
    let local = local_branches("* main\n  merged\n  ahead\n", &opts).unwrap();
    let merged = local_branches("* main\n  merged\n", &opts).unwrap();
    let remote = remote_branches("  origin/HEAD -> origin/main\n  origin/main\n", &opts).unwrap();
    assert_eq!(local, names(&["merged", "ahead"]));
    assert!(merged == names(&["merged"]));
    assert!(remote.is_empty());
    let local: Vec<&str> = local.iter().map(|s| s.as_str()).collect();
    let (deletable, checked) = run(&local, &[], &["merged"], &opts, &[]);
    assert_eq!(deletable, names(&["merged"]));
    assert!(checked.is_empty());
}

#[test]
fn squashed_branch_found_by_refused_pull() {
    let opts = options(true, false, &[]);
    let (deletable, checked) = run(
        &["squash_pr"],
        &["origin/squash_pr"],
        &[],
        &opts,
        &[PullOutcome::Refused],
    );
    assert_eq!(checked, names(&["squash_pr"]));
    assert_eq!(deletable, names(&["squash_pr"]));
}

#[test]
fn pull_that_succeeds_or_fails_to_run_keeps_branch() {
    let opts = options(true, false, &[]);
    let (deletable, checked) = run(
        &["behind", "broken"],
        &["origin/behind", "origin/broken"],
        &[],
        &opts,
        &[PullOutcome::FastForwarded, PullOutcome::Failed],
    );
    assert_eq!(checked, names(&["behind", "broken"]));
    assert!(deletable.is_empty());
}

#[test]
fn no_squash_check_without_flag() {
    let opts = options(false, false, &[]);
    let (deletable, checked) = run(&["github_squash"], &["origin/github_squash"], &[], &opts, &[]);
    assert!(checked.is_empty());
    assert!(deletable.is_empty());
}

#[test]
fn base_and_ignored_branches_never_deleted() {
    let opts = options(true, true, &["test2"]);
    let (deletable, checked) = run(
        &["main", "test1", "test2"],
        &[],
        &["main", "test1", "test2"],
        &opts,
        &[],
    );
    assert_eq!(deletable, names(&["test1"]));
    assert!(checked.is_empty());
}

#[test]
fn unpushed_branch_deleted_with_flag_only() {
    let with = options(false, true, &[]);
    let (deletable, _) = run(&["local_only", "pushed"], &["origin/pushed"], &[], &with, &[]);
    assert_eq!(deletable, names(&["local_only"]));
    let without = options(false, false, &[]);
    let (deletable, _) = run(&["local_only", "pushed"], &["origin/pushed"], &[], &without, &[]);
    assert!(deletable.is_empty());
}

#[test]
fn unpushed_rule_comes_before_squash_check() {
    let opts = options(true, true, &[]);
    let (deletable, checked) = run(
        &["a", "b", "c"],
        &["origin/b", "origin/c"],
        &["b"],
        &opts,
        &[PullOutcome::FastForwarded],
    );
    assert_eq!(deletable, names(&["a", "b"]));
    assert_eq!(checked, names(&["c"]));
}

#[test]
fn rerun_gives_same_set() {
    let opts = options(true, false, &[]);
    let first = run(&["m", "s"], &["origin/m", "origin/s"], &["m"], &opts, &[PullOutcome::Refused]);
    let second = run(&["m", "s"], &["origin/m", "origin/s"], &["m"], &opts, &[PullOutcome::Refused]);
    assert_eq!(first, second);
    assert_eq!(first.0, names(&["m", "s"]));
}

#[test]
fn listings_drop_marker_blank_lines_and_base() {
    let opts = Options::new(None, Some("stable".to_string()), vec![], false, false, DeleteMode::Local);
    let local = local_branches("  feature\n* stable\n\n  fix  \n", &opts).unwrap();
    assert_eq!(local, names(&["feature", "fix"]));
    let marked = local_branches("* feature\n  stable\n", &opts).unwrap();
    assert_eq!(marked, names(&["feature"]));
    let remote = remote_branches(
        "  origin/HEAD -> origin/stable\n  origin/stable\n  origin/feature\n",
        &opts,
    )
    .unwrap();
    assert_eq!(remote, names(&["origin/feature"]));
}

#[test]
fn base_branch_that_is_no_pattern_is_an_error() {
    let opts = Options::new(None, Some("ma(in".to_string()), vec![], false, false, DeleteMode::Local);
    assert!(matches!(local_branches("  x\n", &opts), Err(Error::InvalidBranchName)));
    assert!(matches!(remote_branches("  origin/x\n", &opts), Err(Error::InvalidBranchName)));
}

#[test]
fn squash_check_commands() {
    let opts = Options::new(Some("upstream".to_string()), Some("stable".to_string()), vec![], true, false, DeleteMode::Both);
    let check = squash_check(&"squash_pr".to_string(), &opts);
    assert_eq!(check.branch, "squash_pr");
    assert_eq!(check.checkout, names(&["git", "checkout", "squash_pr"]));
    assert_eq!(check.pull, names(&["git", "pull", "--ff-only", "upstream", "stable"]));
    assert_eq!(check.reset, names(&["git", "reset", "--hard"]));
    assert_eq!(check.restore, names(&["git", "checkout", "stable"]));
    let mut c = Classifier::new(names(&["squash_pr"]), names(&["origin/squash_pr"]), vec![], &opts);
    match c.next_action() {
        Action::CheckSquash(asked) => assert_eq!(asked.pull, check.pull),
        Action::Done => panic!("expected a squash check"),
    }
}
