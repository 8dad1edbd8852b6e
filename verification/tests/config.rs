use romero::{is_dat_name, validate_directory, Config, DirError};

#[test]
fn build_accepts_three_paths() {
    let args = vec![
        "prog".to_owned(),
        "/dats".to_owned(),
        "/work".to_owned(),
        "/archive".to_owned(),
    ];
    let c = Config::build(&args).unwrap();
    assert_eq!(c.dat_path, "/dats");
    assert_eq!(c.work_path, "/work");
    assert_eq!(c.archive_path, "/archive");
}

#[test]
fn build_rejects_wrong_argument_count() {
    let args = vec!["prog".to_owned(), "/dats".to_owned()];
    assert_eq!(Config::build(&args).unwrap_err(), "invalid number of arguments");
    let none: Vec<String> = vec![];
    assert!(Config::build(&none).is_err());
}

#[test]
fn missing_directory_is_an_error() {
    assert_eq!(validate_directory(false, false), Err(DirError::Missing));
    assert_eq!(validate_directory(false, true), Err(DirError::Missing));
}

#[test]
fn non_directory_is_an_error() {
    assert_eq!(validate_directory(true, false), Err(DirError::NotADirectory));
}

#[test]
fn directory_is_accepted() {
    assert_eq!(validate_directory(true, true), Ok(()));
}

#[test]
fn catalog_files_are_selected_by_suffix() {
    assert!(is_dat_name(b"games.dat"));
    assert!(is_dat_name(b"a.b.dat"));
    assert!(!is_dat_name(b"games.txt"));
    assert!(!is_dat_name(b"games.DAT"));
    assert!(!is_dat_name(b".dat"));
    assert!(!is_dat_name(b"dat"));
    assert!(!is_dat_name(b""));
}
