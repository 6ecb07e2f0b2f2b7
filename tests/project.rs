use hemtt::checks::{is_valid_name, NameCheck};
use hemtt::flow::{BuildUnit, Category, Outcome};
use hemtt::project::{
    default_includes, default_mainprefix, default_reuse_private_key, default_sig_version, environment,
    parse_version_header, Project, ProjectError,
};
use hemtt::text::{i32_text, parse_i32, split_on, trimmed};

fn project() -> Project {
    Project::new("Test Mod".to_string(), "tst".to_string(), "Someone".to_string(), String::new(), false, None)
}

#[test]
fn new_project_defaults() {
    let p = Project::new("N".to_string(), "p".to_string(), "a".to_string(), "cba".to_string(), true, Some("./inc".to_string()));
    assert_eq!(p.mainprefix, "z");
    assert_eq!(p.files, vec!["mod.cpp".to_string()]);
    assert_eq!(p.includes, vec!["./inc".to_string()]);
    assert_eq!(p.sig_version, 3);
    assert_eq!(p.reuse_private_key, None);
    assert!(project().files.is_empty());
    assert!(project().includes.is_empty());
}

#[test]
fn default_values() {
    assert_eq!(default_mainprefix(), "z");
    assert_eq!(default_sig_version(), 3);
    assert_eq!(default_reuse_private_key(), None);
    assert!(default_includes(None).is_empty());
}

#[test]
fn version_header_is_read() {
    let h = "#define MAJOR 1\n#define MINOR 2\n#define PATCHLVL 3\n#define BUILD 45\n".to_string();
    assert_eq!(parse_version_header(&h).ok(), Some("1.2.3.45".to_string()));
    let h = "// comment\n#define MAJOR 2\n#define PATCH 7\n".to_string();
    assert_eq!(parse_version_header(&h).ok(), Some("2.0.7".to_string()));
}

#[test]
fn bad_version_part_is_an_error() {
    let h = "#define MAJOR x1\n".to_string();
    match parse_version_header(&h) {
        Err(ProjectError::VersionPart(v)) => assert_eq!(v, "x1"),
        _ => panic!("expected an error"),
    }
}

#[test]
fn stated_version_is_trimmed() {
    let mut p = project();
    p.version = " 1.0.0 ".to_string();
    assert_eq!(p.version(None).ok(), Some("1.0.0".to_string()));
    assert!(matches!(project().version(None), Err(ProjectError::NoVersion)));
}

#[test]
fn modname_defaults_to_prefix_and_renders() {
    let mut p = project();
    let env = "dev".to_string();
    let v = "1.0".to_string();
    assert_eq!(p.modname(&env, &v).ok(), Some("tst".to_string()));
    p.modname = "{{prefix}}_{{env}}".to_string();
    assert_eq!(p.modname(&env, &v).ok(), Some("tst_dev".to_string()));
}

#[test]
fn release_dir_joins_version_and_modname() {
    let mut p = project();
    p.version = "1.2.3".to_string();
    assert_eq!(p.release_dir(&"dev".to_string(), None).ok(), Some("releases/1.2.3/@tst".to_string()));
    p.modname = "{{missing}}".to_string();
    assert!(matches!(p.release_dir(&"dev".to_string(), None), Err(ProjectError::Template(_))));
}

#[test]
fn variables_and_render() {
    let p = project();
    let vars = p.get_variables(&"ci".to_string(), &"0.1".to_string());
    let names: Vec<&str> = vars.iter().map(|(k, _)| k.as_str()).collect();
    assert_eq!(names, vec!["author", "env", "mainprefix", "name", "prefix", "version"]);
    let out = p.render(&"{{name}} by {{author}} v{{version}}".to_string(), &"ci".to_string(), &"0.1".to_string());
    assert_eq!(out.ok(), Some("Test Mod by Someone v0.1".to_string()));
}

#[test]
fn environment_choice() {
    assert_eq!(environment(Some("release".to_string()), true), "release");
    assert_eq!(environment(None, true), "ci");
    assert_eq!(environment(None, false), "dev");
}

#[test]
fn name_checks() {
    assert!(is_valid_name(&"main_ui-2".to_string()));
    assert!(!is_valid_name(&"bad name".to_string()));
    assert!(!is_valid_name(&"é".to_string()));
    let empty = BuildUnit { name: String::new(), category: Category::Optional };
    assert!(matches!(NameCheck::NotEmpty.check(&empty), Outcome::Failure(_, _)));
    assert!(matches!(NameCheck::ValidName.check(&empty), Outcome::Success));
}

#[test]
fn text_helpers() {
    assert_eq!(split_on(&"a b  c".to_string(), ' '), vec!["a", "b", "", "c"]);
    assert_eq!(parse_i32(&"-12".to_string()), Some(-12));
    assert_eq!(parse_i32(&"99999999999".to_string()), None);
    assert_eq!(i32_text(-305), "-305");
    assert_eq!(trimmed(&"  x y\t".to_string()), "x y");
}

#[test]
fn version_is_cached_in_project() {
    let mut p = project();
    let h = "#define MAJOR 3\n#define MINOR 1\n#define PATCH 0\n".to_string();
    assert!(p.cache_version(Some(&h)).is_ok());
    assert_eq!(p.version, "3.1.0");
    let mut q = project();
    assert!(q.cache_version(None).is_err());
    assert_eq!(q.version, "");
}

#[test]
fn crlf_version_header_is_read() {
    let h = "#define MAJOR 1\r\n#define MINOR 2\r\n#define PATCHLVL 3\r\n#define BUILD 4\r\n".to_string();
    assert_eq!(parse_version_header(&h).ok(), Some("1.2.3.4".to_string()));
}
