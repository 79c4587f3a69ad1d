use pmcp::error::Error;
use pmcp::server::path_validation::{
    glob_match, normalize_path, normalize_path_separators, secure_path_config, validate_path,
    IoFailure, PathResolution, PathValidationConfig,
};

fn missing() -> Result<String, IoFailure> {
    Err(IoFailure { not_found: true, message: "No such file or directory".to_string() })
}

fn resolution(canonical: Result<String, IoFailure>, parent: Result<String, IoFailure>, base: &str) -> PathResolution {
    PathResolution { canonical, canonical_parent: parent, canonical_base: Ok(base.to_string()) }
}

fn error_code(e: &Error) -> String {
    match e {
        Error::Validation(text) => {
            let v: serde_json::Value = serde_json::from_str(text).unwrap();
            v["code"].as_str().unwrap().to_string()
        },
        _ => panic!("expected a validation error"),
    }
}

#[test]
fn test_cross_platform_separators() {
    let path1 = normalize_path_separators("C:\\Users\\test\\file.txt");
    let path2 = normalize_path_separators("/home/user/file.txt");

    assert!(path1.contains('/'));
    assert!(path2.contains('/'));
}

#[test]
fn separators_become_slashes() {
    assert_eq!(normalize_path_separators("a\\b\\c"), "a/b/c");
}

#[test]
fn normalize_removes_dots() {
    assert_eq!(normalize_path("/a/./b/../c").unwrap(), "/a/c");
    assert_eq!(normalize_path("a/b/..").unwrap(), "a");
    assert!(normalize_path("/..").is_err());
}

#[test]
fn traversal_is_refused() {
    let config = PathValidationConfig::new("/srv/data");
    let res = resolution(missing(), missing(), "/srv/data");
    let e = validate_path("../etc/passwd", &config, &res).unwrap_err();
    assert_eq!(error_code(&e), "security_violation");
}

#[test]
fn null_byte_is_refused() {
    let config = PathValidationConfig::new("/srv/data");
    let res = resolution(missing(), missing(), "/srv/data");
    assert!(validate_path("/srv/data/file\0.txt", &config, &res).is_err());
}

#[test]
fn file_inside_base_is_accepted() {
    let config = PathValidationConfig::new("/srv/data");
    let res = resolution(Ok("/srv/data/report.txt".to_string()), Ok("/srv/data".to_string()), "/srv/data");
    assert_eq!(validate_path("/srv/data/report.txt", &config, &res).unwrap(), "/srv/data/report.txt");
}

#[test]
fn new_file_resolves_through_parent() {
    let config = PathValidationConfig::new("/srv/data");
    let res = resolution(missing(), Ok("/srv/data/sub".to_string()), "/srv/data");
    assert_eq!(validate_path("/srv/data/sub/new.txt", &config, &res).unwrap(), "/srv/data/sub/new.txt");
}

#[test]
fn symlink_outside_base_is_refused() {
    let config = PathValidationConfig::new("/srv/data");
    let res = resolution(Ok("/etc/shadow".to_string()), Ok("/srv/data".to_string()), "/srv/data");
    let e = validate_path("/srv/data/link", &config, &res).unwrap_err();
    assert_eq!(error_code(&e), "security_violation");
}

#[test]
fn hidden_and_blocked_files() {
    let config = PathValidationConfig::new("/srv/data").allow_relative(true);
    let res = resolution(Ok("/srv/data/.hidden".to_string()), Ok("/srv/data".to_string()), "/srv/data");
    assert!(validate_path(".hidden", &config, &res).is_err());
    let config = config.allow_hidden(true);
    assert!(validate_path(".hidden", &config, &res).is_ok());

    let secure = secure_path_config("/srv/data");
    let res = resolution(Ok("/srv/data/tool.exe".to_string()), Ok("/srv/data".to_string()), "/srv/data");
    let e = validate_path("/srv/data/tool.exe", &secure, &res).unwrap_err();
    assert_eq!(error_code(&e), "not_allowed");
}

#[test]
fn depth_limit() {
    let config = PathValidationConfig::new("/srv").max_depth(1);
    let res = resolution(Ok("/srv/a/b".to_string()), Ok("/srv/a".to_string()), "/srv");
    assert!(validate_path("/srv/a/b", &config, &res).is_err());
    let res = resolution(Ok("/srv/a".to_string()), Ok("/srv".to_string()), "/srv");
    assert!(validate_path("/srv/a", &config, &res).is_ok());
}

#[test]
fn relative_path_is_joined_to_base() {
    let config = PathValidationConfig::new("/srv/data").allow_relative(true);
    let res = PathResolution {
        canonical: missing(),
        canonical_parent: Ok("/srv/data/sub".to_string()),
        canonical_base: Ok("/srv/data".to_string()),
    };
    assert_eq!(validate_path("sub/file.txt", &config, &res).unwrap(), "/srv/data/sub/file.txt");
}

#[test]
fn glob_patterns() {
    assert!(glob_match("*.exe", "tool.exe"));
    assert!(!glob_match("*.exe", "tool.txt"));
    assert!(glob_match("file?.txt", "file1.txt"));
    assert!(!glob_match("a.b", "axb"));
}

#[test]
fn secure_validator_refuses_executables() {
    let validate = pmcp::server::path_validation::secure_path_validator("/srv/data");
    let res = resolution(Ok("/srv/data/run.exe".to_string()), Ok("/srv/data".to_string()), "/srv/data");
    assert!(validate("/srv/data/run.exe", &res).is_err());
    let res = resolution(Ok("/srv/data/notes.txt".to_string()), Ok("/srv/data".to_string()), "/srv/data");
    assert_eq!(validate("/srv/data/notes.txt", &res).unwrap(), "/srv/data/notes.txt");
    assert!(validate("notes.txt", &res).is_err());
}

#[test]
fn test_path_validation() {
    let temp_dir = "/tmp";
    let config = PathValidationConfig::new(temp_dir);
    let res = resolution(missing(), missing(), temp_dir);
    assert!(validate_path("../etc/passwd", &config, &res).is_err());
    assert!(validate_path("/tmp/file\0.txt", &config, &res).is_err());
    let config = PathValidationConfig::new(temp_dir).allow_relative(true);
    let res = resolution(missing(), Ok("/tmp/subdir".to_string()), temp_dir);
    assert_eq!(validate_path("subdir/file.txt", &config, &res).unwrap(), "/tmp/subdir/file.txt");
}

#[test]
fn test_hidden_files() {
    let temp_dir = "/tmp";
    let res = resolution(missing(), Ok("/tmp".to_string()), temp_dir);
    let config = PathValidationConfig::new(temp_dir).allow_hidden(false);
    assert!(validate_path(".hidden", &config, &res).is_err());
    let config = PathValidationConfig::new(temp_dir).allow_hidden(true).allow_relative(true);
    assert!(validate_path(".hidden", &config, &res).is_ok());
}

#[test]
fn test_blocked_patterns() {
    let temp_dir = "/tmp";
    let config = PathValidationConfig::new(temp_dir)
        .block_patterns(vec!["*.exe".to_string(), "*.dll".to_string()]);
    let res = resolution(missing(), Ok("/tmp".to_string()), temp_dir);
    let e = validate_path("/tmp/test.exe", &config, &res).unwrap_err();
    assert_eq!(error_code(&e), "not_allowed");
    assert!(validate_path("/tmp/test.txt", &config, &res).is_ok());
}

#[test]
fn normalizing_twice_changes_nothing() {
    for p in ["/a/./b/../c", "a//b/./c/..", "./x/y", "/", "", "a/..", "/srv//data/../data/f.txt"] {
        let once = normalize_path(p).unwrap();
        assert_eq!(normalize_path(&once).unwrap(), once);
    }
}
