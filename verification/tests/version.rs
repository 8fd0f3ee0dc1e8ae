//! Reading the target version.

use djade::cli::{
    detect_version, get_target_version, parse_django_dependency, parse_version_string, Args,
    Version,
};

#[test]
fn test_parse_version_string() {
    assert_eq!(parse_version_string("4.2"), Some(Version::new(4, 2)));
    assert_eq!(parse_version_string("5.1"), Some(Version::new(5, 1)));
    assert_eq!(parse_version_string("invalid"), None);
    assert_eq!(parse_version_string("4"), None);
    assert_eq!(parse_version_string("4.2.1"), None);
}

#[test]
fn test_get_target_version_explicit() {
    assert_eq!(get_target_version("4.2", None), Some(Version::new(4, 2)));
    assert_eq!(get_target_version("5.1", None), Some(Version::new(5, 1)));
}

#[test]
fn test_get_target_version_auto_fallback() {
    let manifest = "[project]\nname = \"djade\"\ndependencies = []\n";
    assert_eq!(get_target_version("auto", Some(manifest)), None);
    assert_eq!(get_target_version("auto", None), None);
}

#[test]
fn test_parse_django_dependency() {
    assert_eq!(
        parse_django_dependency("django>=4.2"),
        Some(Version::new(4, 2))
    );
    assert_eq!(
        parse_django_dependency("Django==5.1.0"),
        Some(Version::new(5, 1))
    );
    assert_eq!(
        parse_django_dependency("django~=4.1"),
        Some(Version::new(4, 1))
    );
    assert_eq!(
        parse_django_dependency("django[extra]>=4.2"),
        Some(Version::new(4, 2))
    );
    assert_eq!(
        parse_django_dependency("django >= 4.2.1"),
        Some(Version::new(4, 2))
    );
    assert_eq!(
        parse_django_dependency("django>=4.2,<5.0"),
        Some(Version::new(4, 2))
    );
    assert_eq!(parse_django_dependency("requests>=2.0"), None);
    assert_eq!(parse_django_dependency("invalid"), None);
}

#[test]
fn test_detect_version_from_pyproject_toml() {
    let pyproject_content = r#"
[project]
dependencies = [
    "django>=4.2",
    "requests>=2.0",
]
"#;
    assert_eq!(detect_version(pyproject_content), Some(Version::new(4, 2)));
}

#[test]
fn test_detect_version_from_pyproject_no_django() {
    let pyproject_content = r#"
[project]
dependencies = [
    "requests>=2.0",
    "pytest>=6.0",
]
"#;
    assert_eq!(detect_version(pyproject_content), None);
}

#[test]
fn test_detect_version_from_pyproject_unsupported_version() {
    let pyproject_content = r#"
[project]
dependencies = [
    "django>=6.0",
    "requests>=2.0",
]
"#;
    assert_eq!(detect_version(pyproject_content), None);
}

#[test]
fn test_get_target_version_auto_reads_the_manifest() {
    let manifest = "[project]\ndependencies = [\"requests\", \"Django[argon2] ~= 5.0\"]\n";
    assert_eq!(
        get_target_version("auto", Some(manifest)),
        Some(Version::new(5, 0))
    );
}

#[test]
fn test_detect_version_skips_what_is_not_a_string() {
    let manifest = "[project]\ndependencies = [1, \"django==3.2\"]\n";
    assert_eq!(detect_version(manifest), Some(Version::new(3, 2)));
}

#[test]
fn test_detect_version_takes_the_first_supported() {
    let manifest = "[project]\ndependencies = [\"django>=1.11\", \"django>=4.1\", \"django>=5.2\"]\n";
    assert_eq!(detect_version(manifest), Some(Version::new(4, 1)));
}

#[test]
fn test_detect_version_of_what_is_not_toml() {
    assert_eq!(detect_version("[project"), None);
    assert_eq!(detect_version("dependencies = [\"django>=4.2\"]\n"), None);
    assert_eq!(detect_version("[project]\ndependencies = \"django>=4.2\"\n"), None);
}

#[test]
fn test_parse_version_string_edges() {
    assert_eq!(parse_version_string(""), None);
    assert_eq!(parse_version_string("."), None);
    assert_eq!(parse_version_string("4."), None);
    assert_eq!(parse_version_string(".2"), None);
    assert_eq!(parse_version_string("255.0"), Some(Version::new(255, 0)));
    assert_eq!(parse_version_string("256.0"), None);
    assert_eq!(parse_version_string("+4.+2"), Some(Version::new(4, 2)));
    assert_eq!(parse_version_string("-4.2"), None);
    assert_eq!(parse_version_string("004.02"), Some(Version::new(4, 2)));
    assert_eq!(parse_version_string("4 .2"), None);
    assert_eq!(parse_version_string("+.2"), None);
}

#[test]
fn test_parse_version_string_agrees_with_the_standard_parser() {
    for text in ["0", "7", "+7", "++7", "-0", "255", "256", "0255", "99999999999", "", "+", "1a", " 1"] {
        let cs: Vec<char> = text.chars().collect();
        let expected = text.parse::<u8>().ok();
        assert_eq!(djade::cli::parse_u8(&cs, 0, cs.len()), expected);
    }
}

#[test]
fn test_version_as_tuple() {
    let v = Version::new(4, 2);
    assert_eq!(v.as_tuple(), (4, 2));
    assert_eq!(v.major, 4);
    assert_eq!(v.minor, 2);
}

#[test]
fn test_args_hold_what_they_are_given() {
    let args = Args {
        filenames: vec!["file1.html".to_string(), "file2.html".to_string()],
        target_version: "auto".to_string(),
        check: false,
    };
    assert_eq!(args.filenames, vec!["file1.html", "file2.html"]);
    assert_eq!(args.target_version, "auto");
    assert!(!args.check);
}
