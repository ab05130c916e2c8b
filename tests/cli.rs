use clap::{App, Arg, ArgMatches};
use git_clean::options::{DeleteMode, Options};

fn parse_args(args: Vec<&str>) -> ArgMatches<'static> {
    App::new("git-clean")
        .arg(Arg::with_name("locals").short("l").long("locals"))
        .arg(Arg::with_name("remotes").short("r").long("remotes"))
        .arg(Arg::with_name("squashes").short("s").long("squashes"))
        .arg(Arg::with_name("delete-unpushed-branches").short("d").long("delete-unpushed-branches"))
        .arg(Arg::with_name("remote").short("R").long("remote").takes_value(true))
        .arg(Arg::with_name("branch").short("b").long("branch").takes_value(true))
        .arg(Arg::with_name("ignore").short("i").long("ignore").takes_value(true).multiple(true))
        .get_matches_from(args)
}

fn delete_mode(matches: &ArgMatches) -> DeleteMode {
    DeleteMode::new(matches.is_present("locals"), matches.is_present("remotes"))
}

fn options(matches: &ArgMatches) -> Options {
    let ignored = matches
        .values_of("ignore")
        .map(|i| i.map(|v| v.to_owned()).collect::<Vec<String>>())
        .unwrap_or_default();
    Options::new(
        matches.value_of("remote").map(|s| s.to_owned()),
        matches.value_of("branch").map(|s| s.to_owned()),
        ignored,
        matches.is_present("squashes"),
        matches.is_present("delete-unpushed-branches"),
        delete_mode(matches),
    )
}

#[test]
fn test_delete_mode_new() {
    let matches = parse_args(vec!["git-clean", "-l"]);

    match delete_mode(&matches) {
        DeleteMode::Local => (),
        other => panic!("Expected a DeleteMode::Local, but found: {:?}", other),
    };

    let matches = parse_args(vec!["git-clean", "-r"]);

    match delete_mode(&matches) {
        DeleteMode::Remote => (),
        other => panic!("Expected a DeleteMode::Remote, but found: {:?}", other),
    };

    let matches = parse_args(vec!["git-clean"]);

    match delete_mode(&matches) {
        DeleteMode::Both => (),
        other => panic!("Expected a DeleteMode::Both, but found: {:?}", other),
    };
}

// The base branch defaults to `main`.
#[test]
fn test_git_options_new() {
    let matches = parse_args(vec!["git-clean"]);
    let git_options = options(&matches);

    assert_eq!("main".to_owned(), git_options.base_branch);
    assert_eq!("origin".to_owned(), git_options.remote);

    let matches = parse_args(vec!["git-clean", "-b", "stable"]);
    let git_options = options(&matches);

    assert_eq!("stable".to_owned(), git_options.base_branch);
    assert_eq!("origin".to_owned(), git_options.remote);

    let matches = parse_args(vec!["git-clean", "-R", "upstream"]);
    let git_options = options(&matches);

    assert_eq!("main".to_owned(), git_options.base_branch);
    assert_eq!("upstream".to_owned(), git_options.remote);
    assert!(!git_options.squashes);

    let matches = parse_args(vec!["git-clean", "-R", "upstream", "--squashes"]);
    let git_options = options(&matches);

    assert!(git_options.squashes);
}

#[test]
fn repeated_ignore_flags_collect() {
    let matches = parse_args(vec!["git-clean", "-i", "test1", "-i", "test3", "-d"]);
    let o = options(&matches);
    assert_eq!(o.ignored_branches, vec!["test1".to_owned(), "test3".to_owned()]);
    assert!(o.delete_unpushed_branches);
}
