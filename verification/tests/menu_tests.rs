use compose_menu::menu::{file_stem, fmt_usize, prepare_menu};

#[test]
fn menu_numbers_three_entries_from_one() {
    let composers = vec![
        String::from("./composers/a.yml"),
        String::from("./composers/b.yml"),
        String::from("./composers/c.yml"),
    ];
    let menu = prepare_menu(&composers).unwrap();
    assert_eq!(menu, "1: a\n2: b\n3: c\n");
}

#[test]
fn menu_of_empty_list_is_empty_string() {
    let composers: Vec<String> = Vec::new();
    let menu = prepare_menu(&composers).unwrap();
    assert_eq!(menu, "");
}

#[test]
fn menu_fails_on_entry_without_file_name() {
    let composers = vec![String::from("./composers/a.yml"), String::from("./composers/")];
    assert!(prepare_menu(&composers).is_none());
}

#[test]
fn menu_numbers_past_nine() {
    let mut composers = Vec::new();
    for i in 0..12 {
        composers.push(format!("entry{:02}.yml", i));
    }
    let menu = prepare_menu(&composers).unwrap();
    let lines: Vec<&str> = menu.lines().collect();
    assert_eq!(lines.len(), 12);
    assert_eq!(lines[9], "10: entry09");
    assert_eq!(lines[11], "12: entry11");
}

#[test]
fn stem_strips_directory_and_extension() {
    assert_eq!(file_stem("./composers/web.yml").unwrap(), "web");
}

#[test]
fn stem_of_bare_file_name() {
    assert_eq!(file_stem("notes.txt").unwrap(), "notes");
}

#[test]
fn stem_without_extension_is_whole_name() {
    assert_eq!(file_stem("dir/Makefile").unwrap(), "Makefile");
}

#[test]
fn stem_keeps_leading_dot_name_whole() {
    assert_eq!(file_stem("/home/user/.bashrc").unwrap(), ".bashrc");
}

#[test]
fn stem_drops_only_last_extension() {
    assert_eq!(file_stem("a/b/archive.tar.gz").unwrap(), "archive.tar");
}

#[test]
fn stem_of_trailing_slash_is_none() {
    assert!(file_stem("./composers/").is_none());
    assert!(file_stem("").is_none());
}

#[test]
fn formats_decimal_numbers() {
    assert_eq!(fmt_usize(0), "0");
    assert_eq!(fmt_usize(7), "7");
    assert_eq!(fmt_usize(10), "10");
    assert_eq!(fmt_usize(409), "409");
    assert_eq!(fmt_usize(18446744073709551615), "18446744073709551615");
}
