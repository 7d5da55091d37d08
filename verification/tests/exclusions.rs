use atuin_z::env::{Environment, PathError};
use atuin_z::exclusions::{exclusions_path, is_excluded, load, render};

#[test]
fn is_excluded_matches_exact_path() {
    let exclusions = vec!["/home/user/secret".to_string()];
    assert!(is_excluded("/home/user/secret", &exclusions));
}

#[test]
fn is_excluded_no_match() {
    let exclusions = vec!["/home/user/secret".to_string()];
    assert!(!is_excluded("/home/user/public", &exclusions));
}

#[test]
fn is_excluded_empty_list() {
    assert!(!is_excluded("/anything", &[]));
}

#[test]
fn is_excluded_does_not_match_subdirectories() {
    let exclusions = vec!["/home/user".to_string()];
    assert!(!is_excluded("/home/user/child", &exclusions));
}

#[test]
fn is_excluded_does_not_match_partial_path() {
    let exclusions = vec!["/home/user/proj".to_string()];
    assert!(!is_excluded("/home/user/project", &exclusions));
}

#[test]
fn is_excluded_finds_any_entry_of_the_list() {
    let exclusions = vec!["/a".to_string(), "/b".to_string(), "/c".to_string()];
    assert!(is_excluded("/a", &exclusions));
    assert!(is_excluded("/b", &exclusions));
    assert!(is_excluded("/c", &exclusions));
    assert!(!is_excluded("/d", &exclusions));
    assert!(!is_excluded("/A", &exclusions));
    assert!(!is_excluded("", &exclusions));
}

#[test]
fn load_without_a_store_gives_the_empty_list() {
    assert_eq!(load(None), Vec::<String>::new());
}

#[test]
fn load_reads_one_path_per_line() {
    assert_eq!(load(Some("/a\n/b/c\n")), vec!["/a".to_string(), "/b/c".to_string()]);
    assert_eq!(load(Some("/a\n/b/c")), vec!["/a".to_string(), "/b/c".to_string()]);
}

#[test]
fn load_skips_empty_lines() {
    assert_eq!(load(Some("")), Vec::<String>::new());
    assert_eq!(load(Some("\n\n")), Vec::<String>::new());
    assert_eq!(load(Some("\n/a\n\n/b\n\n")), vec!["/a".to_string(), "/b".to_string()]);
}

#[test]
fn load_takes_carriage_return_and_line_feed_as_one_line_end() {
    assert_eq!(load(Some("/a\r\n/b\r\n")), vec!["/a".to_string(), "/b".to_string()]);
    assert_eq!(load(Some("\r\n/a\r\n")), vec!["/a".to_string()]);
    // a carriage return that no line feed follows belongs to the line
    assert_eq!(load(Some("/a\r")), vec!["/a\r".to_string()]);
    assert_eq!(load(Some("/a\rb\n")), vec!["/a\rb".to_string()]);
}

#[test]
fn load_keeps_blanks_and_other_letters() {
    assert_eq!(load(Some(" /a b \n")), vec![" /a b ".to_string()]);
    assert_eq!(load(Some("/héllo/wörld\n/日本\n")), vec!["/héllo/wörld".to_string(), "/日本".to_string()]);
}

#[test]
fn add_appends_a_new_path() {
    let mut entries = vec!["/a".to_string()];
    assert!(atuin_z::exclusions::add(&mut entries, "/b"));
    assert_eq!(entries, vec!["/a".to_string(), "/b".to_string()]);
}

#[test]
fn add_is_idempotent() {
    let mut entries: Vec<String> = Vec::new();
    assert!(atuin_z::exclusions::add(&mut entries, "/a"));
    assert!(!atuin_z::exclusions::add(&mut entries, "/a"));
    assert_eq!(entries, vec!["/a".to_string()]);
    assert!(atuin_z::exclusions::add(&mut entries, "/a/b"));
    assert!(!atuin_z::exclusions::add(&mut entries, "/a"));
    assert_eq!(entries, vec!["/a".to_string(), "/a/b".to_string()]);
}

#[test]
fn render_writes_one_path_per_line() {
    assert_eq!(render(&["/a".to_string()]), "/a\n");
    assert_eq!(render(&["/a".to_string(), "/b".to_string(), "/c".to_string()]), "/a\n/b\n/c\n");
    assert_eq!(render(&[]), "\n");
}

#[test]
fn load_reads_back_what_render_wrote() {
    let entries = vec!["/home/user/secret".to_string(), "/tmp".to_string(), "/srv/x y".to_string()];
    assert_eq!(load(Some(&render(&entries))), entries);
    assert_eq!(load(Some(&render(&[]))), Vec::<String>::new());
}

#[test]
fn exclusions_path_prefers_xdg_data_home() {
    let env = Environment {
        atuin_db_path: None,
        atuin_data_dir: None,
        xdg_data_home: Some("/xdg".to_string()),
        home: Some("/home/user".to_string()),
    };
    assert_eq!(exclusions_path(&env), Ok("/xdg/atuin-z/exclusions".to_string()));
}

#[test]
fn exclusions_path_falls_back_to_home() {
    let env = Environment {
        atuin_db_path: Some("/elsewhere/history.db".to_string()),
        atuin_data_dir: Some("/elsewhere".to_string()),
        xdg_data_home: None,
        home: Some("/home/user".to_string()),
    };
    assert_eq!(
        exclusions_path(&env),
        Ok("/home/user/.local/share/atuin-z/exclusions".to_string())
    );
}

#[test]
fn exclusions_path_without_home() {
    let env = Environment {
        atuin_db_path: None,
        atuin_data_dir: None,
        xdg_data_home: None,
        home: None,
    };
    assert_eq!(exclusions_path(&env), Err(PathError::NoHomeDirectory));
    assert_eq!(PathError::NoHomeDirectory.message(), "could not determine home directory");
}
