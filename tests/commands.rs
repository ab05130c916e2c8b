use git_clean::branches::{confirms, Branches};
use git_clean::commands::{delete_local_branches, delete_remote_branches, output, remote_report};
use git_clean::options::{DeleteMode, Options};

fn names(list: &[&str]) -> Vec<String> {
    list.iter().map(|s| s.to_string()).collect()
}

#[test]
fn remote_deletion_only_for_branches_on_remote() {
    let branches = Branches::new(names(&["a", "b"]));
    let opts = Options::new(None, None, vec![], false, false, DeleteMode::Both);
    let remote = delete_remote_branches(&branches, &opts, "  origin/HEAD -> origin/main\n  origin/a\n  origin/main\n");
    assert_eq!(remote, Some(names(&["git", "push", "origin", "--delete", "a"])));
    let local = delete_local_branches(&branches);
    assert_eq!(local, Some(names(&["git", "branch", "-D", "a", "b"])));
}

#[test]
fn remote_deletion_uses_configured_remote() {
    let branches = Branches::new(names(&["x", "y", "x"]));
    let opts = Options::new(Some("upstream".to_string()), None, vec![], false, false, DeleteMode::Remote);
    let remote = delete_remote_branches(&branches, &opts, "  upstream/y\n  upstream/x\n  origin/z\n");
    assert_eq!(remote, Some(names(&["git", "push", "upstream", "--delete", "x", "y"])));
    assert_eq!(delete_remote_branches(&branches, &opts, "  origin/x\n"), None);
}

#[test]
fn empty_classification_runs_nothing() {
    let branches = Branches::new(vec![]);
    let opts = Options::new(None, None, vec![], false, false, DeleteMode::Both);
    assert_eq!(branches.string, "");
    assert_eq!(delete_local_branches(&branches), None);
    assert_eq!(delete_remote_branches(&branches, &opts, "  origin/a\n"), None);
    assert_eq!(branches.delete(&opts, "", ""), "");
    let plan = branches.plan_deletion(&opts);
    assert!(plan.local.is_none() && plan.remote_listing.is_none());
}

#[test]
fn remote_report_rewrites_missing_and_keeps_deleted() {
    let stderr = "error: unable to delete 'gone': remote ref does not exist\nTo github.com:me/repo.git\n - [deleted]         github_squash\nerror: failed to push some refs\n";
    assert_eq!(
        remote_report(stderr),
        "gone was already deleted in the remote.\n - [deleted]         github_squash"
    );
    assert_eq!(remote_report(""), "");
}

#[test]
fn combined_report_puts_remote_first() {
    let branches = Branches::new(names(&["a"]));
    let both = Options::new(None, None, vec![], false, false, DeleteMode::Both);
    let local_out = "Deleted branch a (was 1234567).\n";
    let remote_err = " - [deleted]         a\n";
    assert_eq!(
        branches.delete(&both, local_out, remote_err),
        "Remote:\n - [deleted]         a\n\nLocal:\nDeleted branch a (was 1234567).\n"
    );
    let local = Options::new(None, None, vec![], false, false, DeleteMode::Local);
    assert_eq!(branches.delete(&local, local_out, remote_err), local_out);
    let remote = Options::new(None, None, vec![], false, false, DeleteMode::Remote);
    assert_eq!(branches.delete(&remote, local_out, remote_err), " - [deleted]         a");
}

#[test]
fn output_is_trimmed() {
    assert_eq!(output("  main\n"), "main");
    assert_eq!(output("\n"), "");
    assert_eq!(output("\u{3000}\tfeature\u{a0} "), "feature");
}

#[test]
fn confirmation_answers() {
    for yes in ["y\n", "Y\n", "yes\r\n", "YES\n", "\n", "\r\n", "Yes\n"] {
        assert!(confirms(yes), "{:?}", yes);
    }
    for no in ["n\n", "no\n", "yess\n", "y", " y\n", "q\n"] {
        assert!(!confirms(no), "{:?}", no);
    }
}

#[test]
fn remote_targets_ascending_and_once() {
    let branches = Branches::new(names(&["b", "a", "c", "b"]));
    let opts = Options::new(None, None, vec![], false, false, DeleteMode::Both);
    let remote = delete_remote_branches(&branches, &opts, "  origin/a\n  origin/b\n  origin/c\n");
    assert_eq!(remote, Some(names(&["git", "push", "origin", "--delete", "a", "b", "c"])));
    let upper = Branches::new(names(&["b", "B", "ab", "a"]));
    let remote = delete_remote_branches(&upper, &opts, "  origin/a\n  origin/ab\n  origin/B\n  origin/b\n");
    assert_eq!(remote, Some(names(&["git", "push", "origin", "--delete", "B", "a", "ab", "b"])));
}

#[test]
fn remote_prefix_stripped_once() {
    let branches = Branches::new(names(&["b"]));
    let opts = Options::new(None, None, vec![], false, false, DeleteMode::Remote);
    assert_eq!(delete_remote_branches(&branches, &opts, "  origin/origin/b\n"), None);
    let nested = Branches::new(names(&["origin/b"]));
    assert_eq!(
        delete_remote_branches(&nested, &opts, "  origin/origin/b\n"),
        Some(names(&["git", "push", "origin", "--delete", "origin/b"]))
    );
}

#[test]
fn deletion_plan_per_mode() {
    let branches = Branches::new(names(&["a", "b"]));
    let both = Options::new(None, None, vec![], false, false, DeleteMode::Both);
    let plan = branches.plan_deletion(&both);
    assert_eq!(plan.local, Some(names(&["git", "branch", "-D", "a", "b"])));
    assert_eq!(plan.remote_listing, Some(names(&["git", "branch", "-r"])));
    let local = Options::new(None, None, vec![], false, false, DeleteMode::Local);
    let plan = branches.plan_deletion(&local);
    assert!(plan.local.is_some() && plan.remote_listing.is_none());
    let remote = Options::new(None, None, vec![], false, false, DeleteMode::Remote);
    let plan = branches.plan_deletion(&remote);
    assert!(plan.local.is_none() && plan.remote_listing.is_some());
    let empty = Branches::new(vec![]).plan_deletion(&both);
    assert!(empty.local.is_none() && empty.remote_listing.is_none());
}

#[test]
fn branch_listed_only_under_another_remote_not_pushed() {
    let opts = Options::new(None, None, vec![], false, false, DeleteMode::Remote);
    let bare = Branches::new(names(&["b"]));
    assert_eq!(delete_remote_branches(&bare, &opts, "  b\n"), None);
    assert_eq!(delete_remote_branches(&bare, &opts, "  upstream/b\n"), None);
    let other = Branches::new(names(&["upstream/b", "c"]));
    assert_eq!(
        delete_remote_branches(&other, &opts, "  upstream/b\n  origin/c\n  c\n"),
        Some(names(&["git", "push", "origin", "--delete", "c"]))
    );
}
