use mail_intake::naming::{candidate_name, is_safe_name, make_unique_file, name_taken};

fn listing(names: &[&str]) -> Vec<String> {
    names.iter().map(|name| name.to_string()).collect()
}

#[test]
fn taken_names_get_the_first_free_prefix() {
    let dir = listing(&["a.txt", "0-a.txt", "1-a.txt"]);
    assert_eq!(make_unique_file(&dir, "a.txt"), Some("2-a.txt".to_string()));
}

#[test]
fn free_name_is_kept_as_proposed() {
    let dir = listing(&[]);
    assert_eq!(make_unique_file(&dir, "b.txt"), Some("b.txt".to_string()));
    let dir = listing(&["a.txt", "0-b.txt"]);
    assert_eq!(make_unique_file(&dir, "b.txt"), Some("b.txt".to_string()));
}

#[test]
fn a_gap_in_the_prefixes_is_filled() {
    let dir = listing(&["a.txt", "1-a.txt", "2-a.txt"]);
    assert_eq!(make_unique_file(&dir, "a.txt"), Some("0-a.txt".to_string()));
}

#[test]
fn naming_twice_against_the_grown_directory_gives_two_names() {
    let mut dir = listing(&["a.txt"]);
    let first = make_unique_file(&dir, "a.txt").unwrap();
    assert_eq!(first, "0-a.txt");
    dir.push(first);
    let second = make_unique_file(&dir, "a.txt").unwrap();
    assert_eq!(second, "1-a.txt");
    assert!(!dir.contains(&second));
}

#[test]
fn prefixes_run_past_nine() {
    let mut dir = listing(&["f"]);
    for i in 0..12 {
        dir.push(format!("{}-f", i));
    }
    assert_eq!(make_unique_file(&dir, "f"), Some("12-f".to_string()));
}

#[test]
fn names_that_leave_the_directory_are_refused() {
    let dir = listing(&[]);
    assert_eq!(make_unique_file(&dir, ""), None);
    assert_eq!(make_unique_file(&dir, "."), None);
    assert_eq!(make_unique_file(&dir, ".."), None);
    assert_eq!(make_unique_file(&dir, "a/b.txt"), None);
    assert_eq!(make_unique_file(&dir, "/etc/passwd"), None);
    assert_eq!(make_unique_file(&dir, "..\\secret"), None);
    assert_eq!(make_unique_file(&dir, "../../x"), None);
}

#[test]
fn dots_inside_a_name_are_fine() {
    assert!(is_safe_name("a..b"));
    assert!(is_safe_name("..."));
    assert!(is_safe_name(".hidden"));
    assert!(is_safe_name("r\u{e9}sum\u{e9}.pdf"));
    assert!(!is_safe_name(""));
    assert!(!is_safe_name("."));
    assert!(!is_safe_name(".."));
    assert!(!is_safe_name("a/"));
    assert!(!is_safe_name("\\"));
}

#[test]
fn candidate_names_count_from_the_bare_name() {
    assert_eq!(candidate_name("a.txt", 0), "a.txt");
    assert_eq!(candidate_name("a.txt", 1), "0-a.txt");
    assert_eq!(candidate_name("a.txt", 2), "1-a.txt");
    assert_eq!(candidate_name("a.txt", 11), "10-a.txt");
}

#[test]
fn name_taken_compares_whole_names() {
    let dir = listing(&["a.txt", "b"]);
    assert!(name_taken(&dir, &"a.txt".to_string()));
    assert!(name_taken(&dir, &"b".to_string()));
    assert!(!name_taken(&dir, &"a".to_string()));
    assert!(!name_taken(&dir, &"A.TXT".to_string()));
}
