use compose_menu::lister::sort_paths;

#[test]
fn sorts_directory_entries_lexicographically() {
    let paths = vec![
        String::from("./composers/b.yml"),
        String::from("./composers/a.yml"),
        String::from("./composers/c.yml"),
    ];
    let sorted = sort_paths(&paths);
    let expected = vec![
        String::from("./composers/a.yml"),
        String::from("./composers/b.yml"),
        String::from("./composers/c.yml"),
    ];
    assert_eq!(sorted, expected);
}

#[test]
fn sorted_input_is_unchanged() {
    let paths = vec![String::from("a"), String::from("b"), String::from("c")];
    assert_eq!(sort_paths(&paths), paths);
}

#[test]
fn sort_keeps_duplicates() {
    let paths = vec![String::from("b"), String::from("a"), String::from("b")];
    let expected = vec![String::from("a"), String::from("b"), String::from("b")];
    assert_eq!(sort_paths(&paths), expected);
}

#[test]
fn sort_of_empty_list_is_empty() {
    let paths: Vec<String> = Vec::new();
    assert!(sort_paths(&paths).is_empty());
}

#[test]
fn sort_orders_by_full_path_string() {
    let paths = vec![String::from("dir2/a.yml"), String::from("dir10/z.yml")];
    let expected = vec![String::from("dir10/z.yml"), String::from("dir2/a.yml")];
    assert_eq!(sort_paths(&paths), expected);
}
