use decaff::path::{clean, PathClean, PathUtils};

fn test_cases(cases: Vec<(&str, &str)>) {
    for (actual, expected) in cases {
        assert_eq!(clean(actual), expected.to_string());
    }
}

#[test]
fn test_trait() {
    assert_eq!(String::from("/test/../path/").clean(), String::from("/path"));

    assert_eq!("/test/../path/".clean(), String::from("/path"));
}

#[test]
fn test_empty_path_is_current_dir() {
    assert_eq!(clean(""), String::from("."));
}

#[test]
fn test_clean_paths_dont_change() {
    let cases = vec![(".", "."), ("..", ".."), ("/", "/")];

    test_cases(cases);
}

#[test]
fn test_replace_multiple_slashes() {
    let cases = vec![
        ("/", "/"),
        ("//", "/"),
        ("///", "/"),
        (".//", "."),
        ("//..", "/"),
        ("..//", ".."),
        ("/..//", "/"),
        ("/.//./", "/"),
        ("././/./", "."),
        ("path//to///thing", "path/to/thing"),
        ("/path//to///thing", "/path/to/thing"),
    ];

    test_cases(cases);
}

#[test]
fn test_eliminate_current_dir() {
    let cases = vec![
        ("./", "."),
        ("/./", "/"),
        ("./test", "test"),
        ("./test/./path", "test/path"),
        ("/test/./path/", "/test/path"),
        ("test/path/.", "test/path"),
    ];

    test_cases(cases);
}

#[test]
fn test_eliminate_parent_dir() {
    let cases = vec![
        ("/..", "/"),
        ("/../test", "/test"),
        ("test/..", "."),
        ("test/path/..", "test"),
        ("test/../path", "path"),
        ("/test/../path", "/path"),
        ("test/path/../../", "."),
        ("test/path/../../..", ".."),
        ("/test/path/../../..", "/"),
        ("/test/path/../../../..", "/"),
        ("test/path/../../../..", "../.."),
        ("test/path/../../another/path", "another/path"),
        ("test/path/../../another/path/..", "another"),
        ("../test", "../test"),
        ("../test/", "../test"),
        ("../test/path", "../test/path"),
        ("../test/..", ".."),
    ];

    test_cases(cases);
}

#[test]
fn to_root_replaces_current_dir() {
    assert_eq!(".".to_root("/root"), "/root".to_string());
    assert_eq!("src".to_root("/root"), "src".to_string());
}
