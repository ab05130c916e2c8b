use git_clean::branches::make_row;

#[test]
fn make_row_pads_all_but_last() {
    let one = vec!["a".to_owned()];
    assert_eq!(make_row(&one, &[10, 20]), "a");
    let two = vec!["ab".to_owned(), "c".to_owned()];
    assert_eq!(make_row(&two, &[5]), "ab   c");
    let three = vec!["a".to_owned(), "bb".to_owned(), "c".to_owned()];
    assert_eq!(make_row(&three, &[3, 4]), "a  bb  c");
    let long = vec!["abcdef".to_owned(), "g".to_owned()];
    assert_eq!(make_row(&long, &[3]), "abcdefg");
}
