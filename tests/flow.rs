use std::cell::{Cell, RefCell};

use hemtt::cache::{FileCache, RenderedFiles};
use hemtt::checks::NameCheck;
use hemtt::commands::{Build, Clean};
use hemtt::project::Project;
use hemtt::flow::{BuildContext, BuildUnit, Category, Flow, Outcome, Report, Step, Task};

fn project() -> Project {
    Project::new("P".to_string(), "p".to_string(), "a".to_string(), String::new(), false, None)
}

fn unit(name: &str) -> BuildUnit {
    BuildUnit { name: name.to_string(), category: Category::Primary }
}

/// A task that counts its runs, remembers whom it ran for, and fails for
/// one unit name.
struct Probe<'a> {
    label: &'static str,
    fail_for: Option<&'static str>,
    runs: &'a RefCell<Vec<String>>,
}

impl<'a> Task for Probe<'a> {
    fn execute(&self, unit: Option<&BuildUnit>, _ctx: &mut BuildContext) -> Outcome {
        let who = unit.map(|u| u.name.clone()).unwrap_or_default();
        self.runs.borrow_mut().push(format!("{}:{}", self.label, who));
        match (unit, self.fail_for) {
            (Some(u), Some(bad)) if u.name == bad => {
                Outcome::Failure("ValidationError".to_string(), vec![format!("{} failed", bad)])
            }
            _ => Outcome::Success,
        }
    }
}

fn probe<'a>(label: &'static str, fail_for: Option<&'static str>, runs: &'a RefCell<Vec<String>>) -> Probe<'a> {
    Probe { label, fail_for, runs }
}

#[test]
fn parallel_step_records_units_times_tasks() {
    let runs = RefCell::new(Vec::new());
    let units = vec![unit("a"), unit("b"), unit("c")];
    let flow = Flow {
        steps: vec![Step::Parallel {
            name: "Checks".to_string(),
            tasks: vec![probe("x", None, &runs), probe("y", None, &runs)],
        }],
    };
    let mut ctx = BuildContext::new(project());
    let mut report = Report::new();
    assert!(flow.execute(&units, &mut ctx, &mut report).is_ok());
    assert_eq!(report.entries.len(), 6);
    assert_eq!(runs.borrow().len(), 6);
    for u in ["a", "b", "c"] {
        assert_eq!(report.entries.iter().filter(|e| e.unit == u).count(), 2);
    }
    assert!(report.entries.iter().all(|e| e.stage == "Checks"));
}

#[test]
fn failure_stops_before_next_step() {
    let runs = RefCell::new(Vec::new());
    let units = vec![unit("a"), unit("b"), unit("c")];
    let flow = Flow {
        steps: vec![
            Step::Parallel { name: "A".to_string(), tasks: vec![probe("a", Some("a"), &runs)] },
            Step::Parallel { name: "B".to_string(), tasks: vec![probe("b", None, &runs)] },
        ],
    };
    let mut ctx = BuildContext::new(project());
    let mut report = Report::new();
    let err = flow.execute(&units, &mut ctx, &mut report).err().expect("flow must fail");
    assert_eq!(err.step, 0);
    assert_eq!(err.stage, "A");
    assert!(runs.borrow().iter().all(|r| r.starts_with("a:")));
    assert_eq!(runs.borrow().len(), 3);
    assert_eq!(report.entries.len(), 3);
    let failed: Vec<&str> = report
        .entries
        .iter()
        .filter(|e| e.outcome.is_failure())
        .map(|e| e.unit.as_str())
        .collect();
    assert_eq!(failed, vec!["a"]);
}

#[test]
fn single_step_failure_aborts_at_once() {
    struct Fails;
    impl Task for Fails {
        fn execute(&self, _unit: Option<&BuildUnit>, _ctx: &mut BuildContext) -> Outcome {
            Outcome::Failure("ToolchainError".to_string(), vec![])
        }
    }
    let flow = Flow {
        steps: vec![
            Step::Single { name: "Release".to_string(), task: Fails },
            Step::Parallel { name: "Later".to_string(), tasks: vec![Fails] },
        ],
    };
    let mut ctx = BuildContext::new(project());
    let mut report = Report::new();
    let err = flow.execute(&vec![unit("a")], &mut ctx, &mut report).err().unwrap();
    assert_eq!(err.stage, "Release");
    assert_eq!(report.entries.len(), 1);
    assert_eq!(report.entries[0].unit, "");
}

#[test]
fn skipped_step_and_warnings_do_not_stop() {
    struct Warns;
    impl Task for Warns {
        fn execute(&self, _unit: Option<&BuildUnit>, _ctx: &mut BuildContext) -> Outcome {
            Outcome::Warning(vec!["careful".to_string()])
        }
    }
    let flow = Flow {
        steps: vec![
            Step::Skip,
            Step::Parallel { name: "W".to_string(), tasks: vec![Warns] },
            Step::Single { name: "S".to_string(), task: Warns },
        ],
    };
    let mut ctx = BuildContext::new(project());
    let mut report = Report::new();
    assert!(flow.execute(&vec![unit("a"), unit("b")], &mut ctx, &mut report).is_ok());
    assert_eq!(report.entries.len(), 3);
}

/// The tasks of the end-to-end flow: a run-wide clean, the two name checks
/// (with `ValidName` failing for "b") and a build.
enum Job<'a> {
    Clean(&'a Cell<usize>),
    NotEmpty,
    ValidName,
    Build(&'a Cell<usize>),
}

impl<'a> Task for Job<'a> {
    fn execute(&self, unit: Option<&BuildUnit>, ctx: &mut BuildContext) -> Outcome {
        match self {
            Job::Clean(n) | Job::Build(n) => {
                n.set(n.get() + 1);
                Outcome::Success
            }
            Job::NotEmpty => NameCheck::NotEmpty.execute(unit, ctx),
            Job::ValidName => match unit {
                Some(u) if u.name == "b" => {
                    Outcome::Failure("ValidationError".to_string(), vec!["b is not allowed".to_string()])
                }
                _ => NameCheck::ValidName.execute(unit, ctx),
            },
        }
    }
}

#[test]
fn end_to_end_clean_checks_build() {
    let cleans = Cell::new(0);
    let builds = Cell::new(0);
    let units = vec![unit("a"), unit("b"), unit("c")];
    let flow = Flow {
        steps: vec![
            Step::Single { name: "Clean".to_string(), task: Job::Clean(&cleans) },
            Step::Parallel { name: "Checks".to_string(), tasks: vec![Job::NotEmpty, Job::ValidName] },
            Step::Parallel { name: "Build".to_string(), tasks: vec![Job::Build(&builds)] },
        ],
    };
    let mut ctx = BuildContext::new(project());
    let mut report = Report::new();
    let r = flow.execute(&units, &mut ctx, &mut report);
    let exit_code = if r.is_ok() { 0 } else { 1 };
    assert_ne!(exit_code, 0);
    assert_eq!(r.err().unwrap().stage, "Checks");
    assert_eq!(cleans.get(), 1);
    assert_eq!(builds.get(), 0);
    let checks: Vec<_> = report.entries.iter().filter(|e| e.stage == "Checks").collect();
    assert_eq!(checks.len(), 6);
    assert!(report.entries.iter().all(|e| e.stage != "Build"));
    assert!(checks.iter().any(|e| e.unit == "b" && e.outcome.is_failure()));
    assert!(checks.iter().filter(|e| e.unit != "b").all(|e| !e.outcome.is_failure()));
}

#[test]
fn report_record_appends() {
    let mut report = Report::new();
    report.record(&"a".to_string(), &"Checks".to_string(), Outcome::Success);
    report.record(&"a".to_string(), &"Build".to_string(), Outcome::Warning(vec!["w".to_string()]));
    assert_eq!(report.entries.len(), 2);
    assert_eq!(report.entries[0].stage, "Checks");
    assert_eq!(report.entries[1].stage, "Build");
}

#[test]
fn file_cache_reads_once() {
    let reads = Cell::new(0);
    let mut cache = FileCache::new();
    let path = "addons/main/config.cpp".to_string();
    let first = cache
        .get_or_load(&path, |p| {
            reads.set(reads.get() + 1);
            Ok(format!("content of {}", p))
        })
        .unwrap();
    let second = cache
        .get_or_load(&path, |_| {
            reads.set(reads.get() + 1);
            Ok("other".to_string())
        })
        .unwrap();
    assert_eq!(first, "content of addons/main/config.cpp");
    assert_eq!(first, second);
    assert_eq!(reads.get(), 1);
    assert_eq!(cache.entries.len(), 1);
    assert_eq!(cache.get(&path), Some(first));
}

#[test]
fn file_cache_failed_read_is_not_stored() {
    let mut cache = FileCache::new();
    let path = "missing".to_string();
    assert!(cache.get_or_load(&path, |_| Err("not found".to_string())).is_err());
    assert!(cache.entries.is_empty());
    assert_eq!(cache.get_or_load(&path, |_| Ok("now".to_string())).unwrap(), "now");
}

fn vars(pairs: &[(&str, &str)]) -> Vec<(String, String)> {
    pairs.iter().map(|(k, v)| (k.to_string(), v.to_string())).collect()
}

#[test]
fn rendered_files_keyed_by_context() {
    let mut cache = RenderedFiles::new();
    let id = "mod.cpp".to_string();
    let text = "name = \"{{name}}\";".to_string();
    let a = cache.get_or_render(&id, &text, &vars(&[("name", "alpha")])).unwrap();
    let b = cache.get_or_render(&id, &text, &vars(&[("name", "beta")])).unwrap();
    assert_eq!(a, "name = \"alpha\";");
    assert_eq!(b, "name = \"beta\";");
    assert_eq!(cache.entries.len(), 2);
    let again = cache.get_or_render(&id, &"changed {{name}}".to_string(), &vars(&[("name", "alpha")])).unwrap();
    assert_eq!(again, a);
    assert_eq!(cache.entries.len(), 2);
}

#[test]
fn rendered_files_missing_variable_fails() {
    let mut cache = RenderedFiles::new();
    let r = cache.get_or_render(&"t".to_string(), &"{{nothing}}".to_string(), &vars(&[]));
    assert_eq!(r.err().unwrap().template, "{{nothing}}");
    assert!(cache.entries.is_empty());
}

#[test]
fn summary_sorts_units_and_keeps_stage_order() {
    let mut report = Report::new();
    report.record(&"c".to_string(), &"Checks".to_string(), Outcome::Success);
    report.record(&"a".to_string(), &"Checks".to_string(), Outcome::Success);
    report.record(&"c".to_string(), &"Build".to_string(), Outcome::Success);
    report.record(&"b".to_string(), &"Checks".to_string(), Outcome::Success);
    report.record(&"a".to_string(), &"Build".to_string(), Outcome::Success);
    let order = report.summarize();
    let shown: Vec<String> = order.iter().map(|&i| format!("{}/{}", report.entries[i].unit, report.entries[i].stage)).collect();
    assert_eq!(shown, vec!["a/Checks", "a/Build", "b/Checks", "c/Checks", "c/Build"]);
    assert!(Report::new().summarize().is_empty());
}

#[test]
fn build_command_steps() {
    let f = Build {}.flow(false, false, 0u8, vec![1, 2], vec![], vec![3], 4);
    assert_eq!(f.steps.len(), 5);
    assert!(matches!(&f.steps[0], Step::Single { name, task: 0 } if name == "Clean"));
    assert!(matches!(&f.steps[1], Step::Parallel { name, tasks } if name == "Checks" && *tasks == vec![1, 2]));
    assert!(matches!(&f.steps[4], Step::Skip));
    let f = Build {}.flow(true, true, 0u8, vec![], vec![], vec![], 4);
    assert!(matches!(&f.steps[0], Step::Parallel { name, tasks } if name == "Clear" && *tasks == vec![0]));
    assert!(matches!(&f.steps[4], Step::Single { name, task: 4 } if name == "Release"));
    let c = Clean {}.flow(7u8);
    assert_eq!(c.steps.len(), 1);
    assert!(matches!(&c.steps[0], Step::Parallel { name, tasks } if name == "Clean" && *tasks == vec![7]));
}

#[test]
fn unit_folders_and_packed_names() {
    assert_eq!(hemtt::commands::folder_name(Category::Primary), "addons");
    assert_eq!(hemtt::commands::folder_name(Category::Optional), "optionals");
    assert_eq!(hemtt::commands::folder_name(Category::Compat), "compats");
    let u = BuildUnit { name: "main".to_string(), category: Category::Primary };
    assert_eq!(hemtt::commands::pbo_name(&"abe".to_string(), &u), "abe_main.pbo");
}

#[test]
fn name_checks_record_their_own_outcomes() {
    let units = vec![unit("a"), unit("b c"), unit("d")];
    let flow = Flow { steps: vec![Step::Parallel { name: "Checks".to_string(), tasks: vec![NameCheck::NotEmpty, NameCheck::ValidName] }] };
    let mut ctx = BuildContext::new(project());
    let mut report = Report::new();
    assert!(flow.execute(&units, &mut ctx, &mut report).is_err());
    let failed: Vec<usize> = (0..report.entries.len()).filter(|&i| report.entries[i].outcome.is_failure()).collect();
    assert_eq!(failed, vec![3]);
    assert_eq!(report.entries[3].unit, "b c");
}
