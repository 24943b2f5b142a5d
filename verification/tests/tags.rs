use envy_linux::tags::all_tags;

fn notes(lists: &[&[&str]]) -> Vec<Vec<String>> {
    lists.iter().map(|l| l.iter().map(|t| t.to_string()).collect()).collect()
}

#[test]
fn the_most_used_tag_completes_first() {
    let n = notes(&[&["work", "home"], &["work"], &["zen", "home", "work"], &["alpha"]]);
    assert_eq!(all_tags(&n), vec!["work", "home", "alpha", "zen"]);
}

#[test]
fn ties_go_by_name_in_code_point_order() {
    let n = notes(&[&["b", "a", "B", "ab", "\u{e9}"]]);
    assert_eq!(all_tags(&n), vec!["B", "a", "ab", "b", "\u{e9}"]);
}

#[test]
fn each_tag_is_listed_once() {
    let n = notes(&[&["x", "x"], &["x"], &[]]);
    assert_eq!(all_tags(&n), vec!["x"]);
    assert!(all_tags(&notes(&[])).is_empty());
    assert!(all_tags(&notes(&[&[], &[]])).is_empty());
}
