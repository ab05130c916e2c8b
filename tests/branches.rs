use git_clean::branches::Branches;

#[test]
fn test_branches_new() {
    let input = vec!["branch1".to_owned(), "branch2".to_owned()];
    let branches = Branches::new(input);

    assert_eq!("branch1\nbranch2".to_owned(), branches.string);
    assert_eq!(
        vec!["branch1".to_owned(), "branch2".to_owned()],
        branches.vec
    );
}

#[test]
fn test_format_single_column() {
    let mut input = vec![];
    for _ in 0..24 {
        input.push("branch".to_owned())
    }

    let branches = Branches::new(input);

    let expected = "\
branch
branch
branch
branch
branch
branch
branch
branch
branch
branch
\
                    branch
branch
branch
branch
branch
branch
branch
branch
branch
branch
\
                    branch
branch
branch
branch";

    assert_eq!(expected, branches.format_columns());
}

#[test]
fn test_format_two_columns() {
    let mut input = vec![];
    for _ in 0..26 {
        input.push("branch".to_owned())
    }

    let branches = Branches::new(input);

    let expected = "\
branch                              branch
branch                              \
branch
branch                              branch
branch                              \
branch
branch                              branch
branch                              \
branch
branch                              branch
branch                              \
branch
branch                              branch
branch                              \
branch
branch                              branch
branch                              \
branch
branch                              branch";

    assert_eq!(expected, branches.format_columns());
}

#[test]
fn test_format_three_columns() {
    let mut input = vec![];
    for _ in 0..51 {
        input.push("branch".to_owned())
    }

    let branches = Branches::new(input);

    let expected = "\
branch                              branch                              \
branch
branch                              branch                              \
branch
branch                              branch                              \
branch
branch                              branch                              \
branch
branch                              branch                              \
branch
branch                              branch                              \
branch
branch                              branch                              \
branch
branch                              branch                              \
branch
branch                              branch                              \
branch
branch                              branch                              \
branch
branch                              branch                              \
branch
branch                              branch                              \
branch
branch                              branch                              \
branch
branch                              branch                              \
branch
branch                              branch                              \
branch
branch                              branch                              \
branch
branch                              branch                              \
branch";

    assert_eq!(expected, branches.format_columns());
}

#[test]
fn test_format_maxes_at_three_columns() {
    let mut input = vec![];
    for _ in 0..76 {
        input.push("branch".to_owned())
    }

    let branches = Branches::new(input);

    let expected = "\
branch                              branch                              \
branch
branch                              branch                              \
branch
branch                              branch                              \
branch
branch                              branch                              \
branch
branch                              branch                              \
branch
branch                              branch                              \
branch
branch                              branch                              \
branch
branch                              branch                              \
branch
branch                              branch                              \
branch
branch                              branch                              \
branch
branch                              branch                              \
branch
branch                              branch                              \
branch
branch                              branch                              \
branch
branch                              branch                              \
branch
branch                              branch                              \
branch
branch                              branch                              \
branch
branch                              branch                              \
branch
branch                              branch                              \
branch
branch                              branch                              \
branch
branch                              branch                              \
branch
branch                              branch                              \
branch
branch                              branch                              \
branch
branch                              branch                              \
branch
branch                              branch                              \
branch
branch                              branch                              \
branch
branch";

    assert_eq!(expected, branches.format_columns());
}

#[test]
fn test_branches_of_different_lengths() {
    let mut input = vec![];
    for (i, _) in (0..26).enumerate() {
        input.push(format!("branch{}", i))
    }

    let branches = Branches::new(input);

    let expected = "\
branch0                               branch1
branch2                               \
branch3
branch4                               branch5
branch6                               \
branch7
branch8                               branch9
branch10                              \
branch11
branch12                              branch13
branch14                              \
branch15
branch16                              branch17
branch18                              \
branch19
branch20                              branch21
branch22                              \
branch23
branch24                              branch25";
    assert_eq!(expected, branches.format_columns());
}

#[test]
fn test_branches_of_bigger_lengths() {
    let mut input = vec!["really_long_branch_name".to_owned(), "branch-1".to_owned()];
    for (i, _) in (0..26).enumerate() {
        input.push(format!("branch{}", i));
    }

    let branches = Branches::new(input);

    let expected = "\
really_long_branch_name                              branch-1
branch0                                              \
branch1
branch2                                              branch3
branch4                                              \
branch5
branch6                                              branch7
branch8                                              \
branch9
branch10                                             branch11
branch12                                             \
branch13
branch14                                             branch15
branch16                                             \
branch17
branch18                                             branch19
branch20                                             \
branch21
branch22                                             branch23
branch24                                             \
branch25";
    assert_eq!(expected, branches.format_columns());
}

#[test]
fn test_long_branches_with_three_columns() {
    let mut input = vec![
        "really_long_branch_name".to_owned(),
        "branch".to_owned(),
        "branch".to_owned(),
        "branch".to_owned(),
        "really_long_middle_col".to_owned(),
        "branch".to_owned(),
    ];
    for i in 0..45 {
        input.push(format!("branch{}", i));
    }

    let branches = Branches::new(input);

    let expected = "\
really_long_branch_name                              branch                                              branch
branch                                               really_long_middle_col                              branch
branch0                                              branch1                                             branch2
branch3                                              branch4                                             branch5
branch6                                              branch7                                             branch8
branch9                                              branch10                                            branch11
branch12                                             branch13                                            branch14
branch15                                             branch16                                            branch17
branch18                                             branch19                                            branch20
branch21                                             branch22                                            branch23
branch24                                             branch25                                            branch26
branch27                                             branch28                                            branch29
branch30                                             branch31                                            branch32
branch33                                             branch34                                            branch35
branch36                                             branch37                                            branch38
branch39                                             branch40                                            branch41
branch42                                             branch43                                            branch44";
    assert_eq!(expected, branches.format_columns());
}

#[test]
fn new_strips_trailing_newlines() {
    let branches = Branches::new(vec!["a".to_owned(), "b\n".to_owned(), "".to_owned()]);
    assert_eq!(branches.string, "a\nb");
    assert_eq!(Branches::new(vec![]).string, "");
}

#[test]
fn columns_fit_for_ordinary_names() {
    let branches = Branches::new(vec!["feature".to_owned(); 30]);
    assert!(branches.columns_fit());
}

#[test]
fn format_columns_measures_bytes_and_pads_by_characters() {
    let mut input = vec!["é".to_owned()];
    for _ in 0..25 {
        input.push("x".to_owned());
    }
    let branches = Branches::new(input);
    let out = branches.format_columns();
    let first = out.lines().next().unwrap();
    // "é" is two bytes wide, so the second column starts at 32 characters.
    assert_eq!(first, format!("{:32}x", "é"));
}
