use vstd::prelude::*;

use crate::flow::{BuildUnit, Category, Flow, Step};

verus! {

/// The folder a category's units live in.
pub open spec fn category_folder(c: Category) -> Seq<char> {
    match c {
        Category::Primary => "addons"@,
        Category::Optional => "optionals"@,
        Category::Compat => "compats"@,
    }
}

/// The folder a category's units live in.
pub fn folder_name(c: Category) -> (r: String)
    ensures
        r@ == category_folder(c),
{
    match c {
        Category::Primary => "addons".to_owned(),
        Category::Optional => "optionals".to_owned(),
        Category::Compat => "compats".to_owned(),
    }
}

/// The file name a unit is packed into: `{prefix}_{name}.pbo`.
pub fn pbo_name(prefix: &String, unit: &BuildUnit) -> (r: String)
    ensures
        r@ == prefix@ + "_"@ + unit.name@ + ".pbo"@,
{
    let mut r = prefix.clone();
    r.append("_");
    r.append(unit.name.as_str());
    r.append(".pbo");
    r
}

/// The `build` command.
pub struct Build {}

/// The `clean` command.
pub struct Clean {}

/// Whether `s` is a single step named `name` running `task`.
pub open spec fn is_single<T>(s: Step<T>, name: Seq<char>, task: T) -> bool {
    s matches Step::Single { name: n, task: t } && n@ == name && t == task
}

/// Whether `s` is a parallel step named `name` running `tasks`.
pub open spec fn is_parallel<T>(s: Step<T>, name: Seq<char>, tasks: Seq<T>) -> bool {
    s matches Step::Parallel { name: n, tasks: ts } && n@ == name && ts@ == tasks
}

impl Build {
    /// The build's steps: clearing built files for every unit (`clear`) or
    /// a run-wide clean, the checks, the preparation, the build, and a
    /// run-wide release where `release` is asked for.
    pub fn flow<T>(
        &self,
        clear: bool,
        release: bool,
        clean: T,
        checks: Vec<T>,
        prebuild: Vec<T>,
        build: Vec<T>,
        release_task: T,
    ) -> (r: Flow<T>)
        ensures
            r.steps@.len() == 5,
            clear ==> is_parallel(r.steps@[0], "Clear"@, seq![clean]),
            !clear ==> is_single(r.steps@[0], "Clean"@, clean),
            is_parallel(r.steps@[1], "Checks"@, checks@),
            is_parallel(r.steps@[2], "Prebuild"@, prebuild@),
            is_parallel(r.steps@[3], "Build"@, build@),
            release ==> is_single(r.steps@[4], "Release"@, release_task),
            !release ==> r.steps@[4] is Skip,
    {
        let first = if clear {
            let mut tasks: Vec<T> = Vec::new();
            tasks.push(clean);
            assert(tasks@ =~= seq![clean]);
            Step::Parallel { name: "Clear".to_owned(), tasks }
        } else {
            Step::Single { name: "Clean".to_owned(), task: clean }
        };
        let last = if release {
            Step::Single { name: "Release".to_owned(), task: release_task }
        } else {
            Step::Skip
        };
        let mut steps: Vec<Step<T>> = Vec::new();
        steps.push(first);
        steps.push(Step::Parallel { name: "Checks".to_owned(), tasks: checks });
        steps.push(Step::Parallel { name: "Prebuild".to_owned(), tasks: prebuild });
        steps.push(Step::Parallel { name: "Build".to_owned(), tasks: build });
        steps.push(last);
        Flow { steps }
    }
}

impl Clean {
    /// The clean's one step: `clean` for every unit.
    pub fn flow<T>(&self, clean: T) -> (r: Flow<T>)
        ensures
            r.steps@.len() == 1,
            is_parallel(r.steps@[0], "Clean"@, seq![clean]),
    {
        let mut tasks: Vec<T> = Vec::new();
        tasks.push(clean);
        assert(tasks@ =~= seq![clean]);
        let mut steps: Vec<Step<T>> = Vec::new();
        steps.push(Step::Parallel { name: "Clean".to_owned(), tasks });
        Flow { steps }
    }
}

} // verus!
