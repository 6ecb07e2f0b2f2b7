use hemtt::flow::Outcome;
use hemtt::guard::{debug, debug_marker, guard_outcome};

fn files(list: &[(&str, &str)]) -> Vec<(String, String)> {
    list.iter().map(|(p, c)| (p.to_string(), c.to_string())).collect()
}

#[test]
fn debug_define_fails_naming_it() {
    let r = debug(&files(&[("addons/net/script_component.hpp", "#define COMPONENT net\n#define DEBUG_NETWORK\n")]));
    match r {
        Outcome::Failure(e, m) => {
            assert_eq!(e, "DEBUG_NETWORK was detected in addons/net/script_component.hpp");
            assert_eq!(m.len(), 1);
        }
        _ => panic!("expected a failure"),
    }
}

#[test]
fn debug_define_on_first_and_only_line() {
    assert_eq!(debug_marker(&"#define DEBUG_NETWORK".to_string()), Some("DEBUG_NETWORK".to_string()));
}

#[test]
fn commented_debug_define_is_not_reported() {
    let r = debug(&files(&[("a.hpp", "// #define DEBUG_NETWORK\n")]));
    assert!(matches!(r, Outcome::Success));
}

#[test]
fn clean_files_pass() {
    let r = debug(&files(&[("a.hpp", "#define DEBUG_ENABLED_X\n"), ("b.hpp", "#define VERSION 1\n")]));
    assert!(matches!(r, Outcome::Failure(_, _)));
    let r = debug(&files(&[("b.hpp", "#define VERSION 1\n#define DEBUGGING\n")]));
    assert!(matches!(r, Outcome::Success));
    assert!(matches!(debug(&vec![]), Outcome::Success));
}

#[test]
fn every_offending_file_is_listed() {
    let r = guard_outcome(&vec![
        ("x.hpp".to_string(), Some("DEBUG_A".to_string())),
        ("y.hpp".to_string(), None),
        ("z.hpp".to_string(), Some("DEBUG_B".to_string())),
    ]);
    match r {
        Outcome::Failure(e, m) => {
            assert_eq!(e, "DEBUG_A was detected in x.hpp");
            assert_eq!(m, vec!["DEBUG_A was detected in x.hpp".to_string(), "DEBUG_B was detected in z.hpp".to_string()]);
        }
        _ => panic!("expected a failure"),
    }
}
