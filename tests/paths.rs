use rtrim::{calculate_hash, path_combine, temp_file_name, RTrimError};

#[test]
fn combine_inserts_separator() {
    assert_eq!(path_combine("/repo", "src/a.rs"), "/repo/src/a.rs");
}

#[test]
fn combine_keeps_existing_separator() {
    assert_eq!(path_combine("/repo/", "a.txt"), "/repo/a.txt");
}

#[test]
fn combine_with_empty_base_or_absolute_path() {
    assert_eq!(path_combine("", "a.txt"), "a.txt");
    assert_eq!(path_combine("/repo", "/etc/x"), "/etc/x");
}

#[test]
fn hash_depends_on_name_alone() {
    assert_eq!(calculate_hash("a.txt"), calculate_hash("a.txt"));
    assert_ne!(calculate_hash("a.txt"), calculate_hash("b.txt"));
}

#[test]
fn temp_name_is_name_then_decimal_hash() {
    let name = temp_file_name("src/a.rs");
    assert_eq!(name, format!("src/a.rs{}", calculate_hash("src/a.rs")));
    assert_ne!(name, "src/a.rs");
    assert!(name[8..].bytes().all(|b| b.is_ascii_digit()));
}

#[test]
fn io_error_message_is_its_description() {
    let e = RTrimError::from(std::io::Error::new(std::io::ErrorKind::Other, "disk full"));
    assert_eq!(e.message(), "disk full");
    assert!(matches!(e, RTrimError::Io(_)));
}

#[test]
fn git_error_message_is_the_repository_message() {
    let e = RTrimError::from(git2::Error::from_str("not a repository"));
    assert_eq!(e.message(), "not a repository");
    assert!(matches!(e, RTrimError::Git(_)));
}
