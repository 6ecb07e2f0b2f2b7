use vstd::prelude::*;

use crate::cache::{FileCache, RenderedFiles};
use crate::project::Project;

verus! {

/// Where a unit's sources live.
#[derive(Debug, Clone, Copy, PartialEq, Eq, Structural)]
pub enum Category {
    Primary,
    Optional,
    Compat,
}

/// One independently buildable component.
pub struct BuildUnit {
    pub name: String,
    pub category: Category,
}

/// What one run of a task came to.
pub enum Outcome {
    Success,
    Warning(Vec<String>),
    Failure(String, Vec<String>),
}

impl Outcome {
    pub fn is_failure(&self) -> (r: bool)
        ensures
            r == (*self is Failure),
    {
        match self {
            Outcome::Failure(_, _) => true,
            _ => false,
        }
    }
}

/// One recorded outcome: which unit, at which stage.
pub struct Entry {
    pub unit: String,
    pub stage: String,
    pub outcome: Outcome,
}

/// The (unit, stage) pair an entry is recorded under.
pub open spec fn label(e: Entry) -> (Seq<char>, Seq<char>) {
    (e.unit@, e.stage@)
}

pub open spec fn labels(s: Seq<Entry>) -> Seq<(Seq<char>, Seq<char>)> {
    s.map_values(|e: Entry| label(e))
}

pub open spec fn has_failure(s: Seq<Entry>) -> bool {
    exists|k: int| 0 <= k < s.len() && s[k].outcome is Failure
}

/// The entries appended to a log that grew from `before` to `after`.
pub open spec fn added(before: Seq<Entry>, after: Seq<Entry>) -> Seq<Entry> {
    after.subrange(before.len() as int, after.len() as int)
}

/// Whether `after` is `before` with entries appended.
pub open spec fn extends(before: Seq<Entry>, after: Seq<Entry>) -> bool {
    &&& before.len() <= after.len()
    &&& after.subrange(0, before.len() as int) == before
}

/// Every outcome of a run, in the order it was recorded.
pub struct Report {
    pub entries: Vec<Entry>,
}

impl Report {
    pub fn new() -> (r: Report)
        ensures
            r.entries@.len() == 0,
    {
        Report { entries: Vec::new() }
    }

    /// Appends one outcome; nothing recorded before changes.
    pub fn record(&mut self, unit: &String, stage: &String, outcome: Outcome)
        ensures
            final(self).entries@ == old(self).entries@.push(
                Entry { unit: *unit, stage: *stage, outcome },
            ),
    {
        self.entries.push(Entry { unit: unit.clone(), stage: stage.clone(), outcome });
    }
}

/// The run-wide state every task may read and fill: the project and the
/// caches of one run.
pub struct BuildContext {
    pub project: Project,
    pub files: FileCache,
    pub rendered: RenderedFiles,
}

impl BuildContext {
    pub open spec fn wf(&self) -> bool {
        self.files.wf() && self.rendered.wf()
    }

    pub fn new(project: Project) -> (r: BuildContext)
        ensures
            r.wf(),
            r.project == project,
            r.files@.len() == 0,
            r.rendered@.len() == 0,
    {
        BuildContext { project, files: FileCache::new(), rendered: RenderedFiles::new() }
    }
}

/// A unit of schedulable work. It runs once for the whole run (`unit` is
/// `None`) or once for each unit.
pub trait Task {
    /// Whether `o` is an outcome the task can end in when run for `unit`;
    /// where an implementation says nothing, any outcome.
    open spec fn allows_outcome(&self, unit: Option<BuildUnit>, o: Outcome) -> bool {
        true
    }

    fn execute(&self, unit: Option<&BuildUnit>, ctx: &mut BuildContext) -> (r: Outcome)
        requires
            old(ctx).wf(),
        ensures
            final(ctx).wf(),
            self.allows_outcome(
                match unit {
                    Some(u) => Some(*u),
                    None => None,
                },
                r,
            ),
    ;
}

/// Where the outcome of task `j` for unit `i` stands among the entries of a
/// parallel step with `m` tasks.
pub open spec fn slot(m: nat, i: int, j: int) -> int {
    i * m + j
}

/// Whether each entry a step recorded (`added`) is an outcome its task gave
/// for its unit: for a parallel step, entry `slot(m, i, j)` is task `j`'s
/// outcome for unit `i`.
pub open spec fn step_outcomes_ok<T: Task>(step: Step<T>, units: Seq<BuildUnit>, added: Seq<Entry>) -> bool {
    match step {
        Step::Single { name: _, task } => task.allows_outcome(None, added[0].outcome),
        Step::Parallel { name: _, tasks } => forall|i: int, j: int|
            0 <= i < units.len() && 0 <= j < tasks@.len() ==> tasks@[j].allows_outcome(
                Some(units[i]),
                #[trigger] added[slot(tasks@.len(), i, j)].outcome,
            ),
        Step::Skip => true,
    }
}

/// One stage of a flow.
pub enum Step<T> {
    /// One task, run once for the whole run.
    Single { name: String, task: T },
    /// Tasks run once for every unit.
    Parallel { name: String, tasks: Vec<T> },
    /// Nothing to do.
    Skip,
}

/// Outcomes of a run-wide task are recorded under this unit name.
pub open spec fn run_wide() -> Seq<char> {
    Seq::empty()
}

/// The labels of a parallel stage `stage` with `m` tasks over `units`: for
/// each unit in order, `m` entries.
pub open spec fn unit_labels(units: Seq<BuildUnit>, m: nat, stage: Seq<char>) -> Seq<
    (Seq<char>, Seq<char>),
>
    decreases units.len(),
{
    if units.len() == 0 {
        Seq::empty()
    } else {
        unit_labels(units.drop_last(), m, stage) + Seq::new(m, |_k: int| (units.last().name@, stage))
    }
}

/// The labels of what a step records.
pub open spec fn step_labels<T>(step: Step<T>, units: Seq<BuildUnit>) -> Seq<(Seq<char>, Seq<char>)> {
    match step {
        Step::Single { name, task: _ } => seq![(run_wide(), name@)],
        Step::Parallel { name, tasks } => unit_labels(units, tasks@.len(), name@),
        Step::Skip => Seq::empty(),
    }
}

/// The labels of what the first `k` steps record.
pub open spec fn flow_labels<T>(steps: Seq<Step<T>>, units: Seq<BuildUnit>, k: nat) -> Seq<
    (Seq<char>, Seq<char>),
>
    decreases k,
{
    if k == 0 || k > steps.len() {
        Seq::empty()
    } else {
        flow_labels(steps, units, (k - 1) as nat) + step_labels(steps[k - 1], units)
    }
}

pub open spec fn step_name<T>(step: Step<T>) -> Seq<char> {
    match step {
        Step::Single { name, task: _ } => name@,
        Step::Parallel { name, tasks: _ } => name@,
        Step::Skip => Seq::empty(),
    }
}

proof fn lemma_labels_push(s: Seq<Entry>, e: Entry)
    ensures
        labels(s.push(e)) == labels(s).push(label(e)),
        has_failure(s.push(e)) == (has_failure(s) || e.outcome is Failure),
{
    assert(labels(s.push(e)) =~= labels(s).push(label(e)));
    if has_failure(s) {
        let k = choose|k: int| 0 <= k < s.len() && s[k].outcome is Failure;
        assert(s.push(e)[k] == s[k]);
    }
    if e.outcome is Failure {
        assert(s.push(e)[s.len() as int] == e);
    }
    if has_failure(s.push(e)) {
        let k = choose|k: int| 0 <= k < s.len() + 1 && s.push(e)[k].outcome is Failure;
        if k < s.len() {
            assert(s[k] == s.push(e)[k]);
        }
    }
}

proof fn lemma_added_push(before: Seq<Entry>, mid: Seq<Entry>, e: Entry)
    requires
        extends(before, mid),
    ensures
        extends(before, mid.push(e)),
        added(before, mid.push(e)) == added(before, mid).push(e),
{
    assert(mid.push(e).subrange(0, before.len() as int) =~= mid.subrange(0, before.len() as int));
    assert(added(before, mid.push(e)) =~= added(before, mid).push(e));
}

/// Runs one step and records each outcome; the result says whether any
/// of them is a failure.
pub fn run_step<T: Task>(
    step: &Step<T>,
    units: &Vec<BuildUnit>,
    ctx: &mut BuildContext,
    report: &mut Report,
) -> (failed: bool)
    requires
        old(ctx).wf(),
    ensures
        final(ctx).wf(),
        extends(old(report).entries@, final(report).entries@),
        labels(added(old(report).entries@, final(report).entries@)) == step_labels(*step, units@),
        failed == has_failure(added(old(report).entries@, final(report).entries@)),
        step_outcomes_ok(*step, units@, added(old(report).entries@, final(report).entries@)),
{
    let ghost start = report.entries@;
    assert(added(start, start) =~= Seq::<Entry>::empty());
    assert(start.subrange(0, start.len() as int) =~= start);
    match step {
        Step::Skip => {
            assert(labels(Seq::<Entry>::empty()) =~= Seq::empty());
            false
        },
        Step::Single { name, task } => {
            let o = task.execute(None, ctx);
            let failed = o.is_failure();
            let whole = String::new();
            proof {
                lemma_added_push(start, start, Entry { unit: whole, stage: *name, outcome: o });
                lemma_labels_push(Seq::empty(), Entry { unit: whole, stage: *name, outcome: o });
                assert(Seq::<Entry>::empty().push(Entry { unit: whole, stage: *name, outcome: o })
                    =~= added(start, start).push(Entry { unit: whole, stage: *name, outcome: o }));
                assert(labels(Seq::<Entry>::empty()) =~= Seq::empty());
                assert(Seq::<(Seq<char>, Seq<char>)>::empty().push((whole@, name@)) =~= seq![(run_wide(), name@)]);
            }
            report.record(&whole, name, o);
            assert(added(start, report.entries@)[0] == Entry { unit: whole, stage: *name, outcome: o });
            failed
        },
        Step::Parallel { name, tasks } => {
            let mut failed = false;
            let mut i: usize = 0;
            assert(units@.subrange(0, 0).len() == 0);
            assert(labels(Seq::<Entry>::empty()) =~= Seq::empty());
            while i < units.len()
                invariant
                    ctx.wf(),
                    i <= units.len(),
                    start == old(report).entries@,
                    extends(start, report.entries@),
                    labels(added(start, report.entries@)) == unit_labels(
                        units@.subrange(0, i as int),
                        tasks@.len(),
                        name@,
                    ),
                    failed == has_failure(added(start, report.entries@)),
                    added(start, report.entries@).len() == i * tasks@.len(),
                    forall|i2: int, j2: int|
                        0 <= i2 < i && 0 <= j2 < tasks@.len() ==> tasks@[j2].allows_outcome(
                            Some(units@[i2]),
                            #[trigger] added(start, report.entries@)[slot(tasks@.len(), i2, j2)].outcome,
                        ),
                decreases units.len() - i,
            {
                let unit = &units[i];
                let mut j: usize = 0;
                let ghost base = unit_labels(units@.subrange(0, i as int), tasks@.len(), name@);
                assert(base + Seq::new(0, |_k: int| (unit.name@, name@)) =~= base);
                while j < tasks.len()
                    invariant
                        ctx.wf(),
                        i < units.len(),
                        j <= tasks.len(),
                        unit == &units@[i as int],
                        start == old(report).entries@,
                        base == unit_labels(units@.subrange(0, i as int), tasks@.len(), name@),
                        extends(start, report.entries@),
                        labels(added(start, report.entries@)) == base + Seq::new(
                            j as nat,
                            |_k: int| (unit.name@, name@),
                        ),
                        failed == has_failure(added(start, report.entries@)),
                        added(start, report.entries@).len() == i * tasks@.len() + j,
                        forall|i2: int, j2: int|
                            0 <= i2 < i && 0 <= j2 < tasks@.len() ==> tasks@[j2].allows_outcome(
                                Some(units@[i2]),
                                #[trigger] added(start, report.entries@)[slot(tasks@.len(), i2, j2)].outcome,
                            ),
                        forall|j2: int|
                            0 <= j2 < j ==> tasks@[j2].allows_outcome(
                                Some(units@[i as int]),
                                #[trigger] added(start, report.entries@)[slot(tasks@.len(), i as int, j2)].outcome,
                            ),
                    decreases tasks.len() - j,
                {
                    let o = tasks[j].execute(Some(unit), ctx);
                    if o.is_failure() {
                        failed = true;
                    }
                    let ghost e = Entry { unit: unit.name, stage: *name, outcome: o };
                    proof {
                        lemma_added_push(start, report.entries@, e);
                        lemma_labels_push(added(start, report.entries@), e);
                        assert(base + Seq::new(j as nat + 1, |_k: int| (unit.name@, name@)) =~= (
                        base + Seq::new(j as nat, |_k: int| (unit.name@, name@))).push(label(e)));
                    }
                    let ghost a = added(start, report.entries@);
                    report.record(&unit.name, name, o);
                    proof {
                        let a1 = added(start, report.entries@);
                        let m = tasks@.len();
                        assert(a1 == a.push(e));
                        assert forall|i2: int, j2: int|
                            0 <= i2 < i && 0 <= j2 < m implies tasks@[j2].allows_outcome(
                                Some(units@[i2]),
                                #[trigger] a1[slot(m, i2, j2)].outcome,
                            ) by {
                            lemma_slot_before(m, i2, j2, i as int);
                            assert(a1[slot(m, i2, j2)] == a[slot(m, i2, j2)]);
                        }
                        assert forall|j2: int|
                            0 <= j2 < j + 1 implies tasks@[j2].allows_outcome(
                                Some(units@[i as int]),
                                #[trigger] a1[slot(m, i as int, j2)].outcome,
                            ) by {
                            if j2 < j {
                                assert(a1[slot(m, i as int, j2)] == a[slot(m, i as int, j2)]);
                            } else {
                                assert(a1[slot(m, i as int, j2)] == e);
                            }
                        }
                    }
                    j = j + 1;
                }
                proof {
                    let m = tasks@.len();
                    assert(i * m + m == (i + 1) * m) by (nonlinear_arith);
                    let next = units@.subrange(0, i + 1);
                    assert(next.drop_last() =~= units@.subrange(0, i as int));
                    assert(next.last() == units@[i as int]);
                }
                i = i + 1;
            }
            assert(units@.subrange(0, units.len() as int) =~= units@);
            failed
        },
    }
}

proof fn lemma_slot_before(m: nat, i2: int, j2: int, i: int)
    requires
        0 <= i2 < i,
        0 <= j2 < m,
    ensures
        0 <= slot(m, i2, j2) < i * m,
{
    assert(0 <= i2 * m + j2 < i * m) by (nonlinear_arith)
        requires
            0 <= i2 < i,
            0 <= j2 < m,
    ;
}

/// The flow stopped after the step at index `step`, named `stage`, since one
/// of its outcomes was a failure.
pub struct StepFailed {
    pub step: usize,
    pub stage: String,
}

/// What a run of `steps` over `units` recorded (`added`) and returned: the
/// steps up to the first failing one, in order, each step whole.
pub open spec fn flow_run<T: Task>(
    steps: Seq<Step<T>>,
    units: Seq<BuildUnit>,
    added: Seq<Entry>,
    r: Result<(), StepFailed>,
) -> bool {
    match r {
        Ok(_) => {
            &&& labels(added) == flow_labels(steps, units, steps.len())
            &&& !has_failure(added)
            &&& steps_outcomes_ok(steps, units, added, steps.len() as int)
        },
        Err(f) => {
            let done = flow_labels(steps, units, f.step as nat).len() as int;
            &&& f.step < steps.len()
            &&& f.stage@ == step_name(steps[f.step as int])
            &&& labels(added) == flow_labels(steps, units, f.step as nat + 1)
            &&& !has_failure(added.subrange(0, done))
            &&& has_failure(added.subrange(done, added.len() as int))
            &&& steps_outcomes_ok(steps, units, added, f.step + 1)
        },
    }
}

/// The entries a flow recorded for the step at index `k`.
pub open spec fn step_block<T>(steps: Seq<Step<T>>, units: Seq<BuildUnit>, added: Seq<Entry>, k: int) -> Seq<
    Entry,
> {
    added.subrange(
        flow_labels(steps, units, k as nat).len() as int,
        flow_labels(steps, units, (k + 1) as nat).len() as int,
    )
}

/// Whether, for each of the first `n` steps, every entry it recorded is an
/// outcome its task gave for its unit.
pub open spec fn steps_outcomes_ok<T: Task>(
    steps: Seq<Step<T>>,
    units: Seq<BuildUnit>,
    added: Seq<Entry>,
    n: int,
) -> bool {
    forall|k: int| 0 <= k < n ==> step_outcomes_ok(steps[k], units, #[trigger] step_block(steps, units, added, k))
}

/// An ordered list of steps making up one operation.
pub struct Flow<T> {
    pub steps: Vec<Step<T>>,
}

impl<T: Task> Flow<T> {
    /// Runs the steps in order. Every task of a step runs, for every unit
    /// where the step is parallel, before the step's outcomes are judged; a
    /// step with a failure ends the flow before the next step starts.
    pub fn execute(&self, units: &Vec<BuildUnit>, ctx: &mut BuildContext, report: &mut Report) -> (r:
        Result<(), StepFailed>)
        requires
            old(ctx).wf(),
        ensures
            final(ctx).wf(),
            extends(old(report).entries@, final(report).entries@),
            flow_run(self.steps@, units@, added(old(report).entries@, final(report).entries@), r),
    {
        let ghost start = report.entries@;
        assert(added(start, start) =~= Seq::<Entry>::empty());
        assert(start.subrange(0, start.len() as int) =~= start);
        assert(labels(Seq::<Entry>::empty()) =~= Seq::empty());
        let mut k: usize = 0;
        while k < self.steps.len()
            invariant
                ctx.wf(),
                k <= self.steps.len(),
                start == old(report).entries@,
                extends(start, report.entries@),
                labels(added(start, report.entries@)) == flow_labels(self.steps@, units@, k as nat),
                !has_failure(added(start, report.entries@)),
                steps_outcomes_ok(self.steps@, units@, added(start, report.entries@), k as int),
            decreases self.steps.len() - k,
        {
            let ghost mid = report.entries@;
            let failed = run_step(&self.steps[k], units, ctx, report);
            proof {
                let a0 = added(start, mid);
                let a1 = added(mid, report.entries@);
                let a = added(start, report.entries@);
                assert(report.entries@.subrange(0, mid.len() as int) =~= mid);
                assert(a =~= a0 + a1);
                assert(report.entries@.subrange(0, start.len() as int) =~= mid.subrange(
                    0,
                    start.len() as int,
                ));
                assert(labels(a) =~= labels(a0) + labels(a1));
                assert(a.subrange(0, a0.len() as int) =~= a0);
                assert(a.subrange(a0.len() as int, a.len() as int) =~= a1);
                lemma_failure_concat(a0, a1);
                let steps = self.steps@;
                assert(labels(a0).len() == a0.len() && labels(a1).len() == a1.len() && labels(a).len() == a.len());
                assert(flow_labels(steps, units@, (k + 1) as nat) == flow_labels(steps, units@, k as nat) + step_labels(steps[k as int], units@));
                assert forall|k2: int| 0 <= k2 < k + 1 implies step_outcomes_ok(
                    steps[k2],
                    units@,
                    #[trigger] step_block(steps, units@, a, k2),
                ) by {
                    if k2 < k {
                        lemma_flow_labels_prefix(steps, units@, (k2 + 1) as nat, k as nat);
                        lemma_flow_labels_prefix(steps, units@, k2 as nat, (k2 + 1) as nat);
                        assert(step_block(steps, units@, a, k2) =~= step_block(steps, units@, a0, k2));
                    } else {
                        assert(step_block(steps, units@, a, k2) =~= a1);
                    }
                }
            }
            if failed {
                return Err(StepFailed { step: k, stage: step_label_name(&self.steps[k]) });
            }
            k = k + 1;
        }
        Ok(())
    }
}

proof fn lemma_failure_concat(a: Seq<Entry>, b: Seq<Entry>)
    ensures
        has_failure(a + b) == (has_failure(a) || has_failure(b)),
{
    if has_failure(a) {
        let k = choose|k: int| 0 <= k < a.len() && a[k].outcome is Failure;
        assert((a + b)[k] == a[k]);
    }
    if has_failure(b) {
        let k = choose|k: int| 0 <= k < b.len() && b[k].outcome is Failure;
        assert((a + b)[a.len() + k] == b[k]);
    }
    if has_failure(a + b) {
        let k = choose|k: int| 0 <= k < (a + b).len() && (a + b)[k].outcome is Failure;
        if k < a.len() {
            assert((a + b)[k] == a[k]);
        } else {
            assert((a + b)[k] == b[k - a.len()]);
        }
    }
}

/// The name of a step; a skipped step has none.
pub fn step_label_name<T>(step: &Step<T>) -> (r: String)
    ensures
        r@ == step_name(*step),
{
    match step {
        Step::Single { name, task: _ } => name.clone(),
        Step::Parallel { name, tasks: _ } => name.clone(),
        Step::Skip => String::new(),
    }
}

/// A parallel stage with `m` tasks over `n` units records exactly `n * m`
/// entries, each under one of the units and the stage's name.
pub proof fn law_parallel_entry_count(units: Seq<BuildUnit>, m: nat, stage: Seq<char>)
    ensures
        unit_labels(units, m, stage).len() == units.len() * m,
        forall|x: int|
            0 <= x < unit_labels(units, m, stage).len() ==> (#[trigger] unit_labels(units, m, stage)[x]).1
                == stage,
    decreases units.len(),
{
    if units.len() > 0 {
        law_parallel_entry_count(units.drop_last(), m, stage);
        assert((units.len() - 1) * m + m == units.len() * m) by (nonlinear_arith);
        let pre = unit_labels(units.drop_last(), m, stage);
        let tail = Seq::new(m, |_k: int| (units.last().name@, stage));
        assert forall|x: int| 0 <= x < (pre + tail).len() implies (#[trigger] (pre + tail)[x]).1
            == stage by {
            if x < pre.len() {
                assert((pre + tail)[x] == pre[x]);
            } else {
                assert((pre + tail)[x] == tail[x - pre.len()]);
            }
        }
    }
}

/// In a flow whose first step fails, nothing of any later step is
/// recorded: every entry belongs to the first step, and that step's entries
/// are all there.
pub proof fn law_failure_stops_flow<T: Task>(
    steps: Seq<Step<T>>,
    units: Seq<BuildUnit>,
    added: Seq<Entry>,
    r: Result<(), StepFailed>,
)
    requires
        steps.len() >= 1,
        flow_run(steps, units, added, r),
        has_failure(added.subrange(0, step_labels(steps[0], units).len() as int)),
    ensures
        r matches Err(f) && f.step == 0 && f.stage@ == step_name(steps[0]),
        labels(added) == step_labels(steps[0], units),
{
    assert(flow_labels(steps, units, 0) =~= Seq::empty());
    assert(flow_labels(steps, units, 1) =~= step_labels(steps[0], units));
    assert(labels(added).len() == added.len());
    let n = step_labels(steps[0], units).len() as int;
    match r {
        Ok(_) => {
            lemma_flow_labels_prefix(steps, units, 1, steps.len());
            let k = choose|k: int| 0 <= k < n && added.subrange(0, n)[k].outcome is Failure;
            assert(added[k] == added.subrange(0, n)[k]);
            assert(has_failure(added));
        },
        Err(f) => {
            if f.step > 0 {
                lemma_flow_labels_prefix(steps, units, 1, f.step as nat);
                lemma_flow_labels_prefix(steps, units, f.step as nat, f.step as nat + 1);
                let k = choose|k: int| 0 <= k < n && added.subrange(0, n)[k].outcome is Failure;
                let done = flow_labels(steps, units, f.step as nat).len() as int;
                assert(added.subrange(0, done)[k] == added[k]);
                assert(added[k] == added.subrange(0, n)[k]);
                assert(has_failure(added.subrange(0, done)));
            }
        },
    }
}

/// Where a task of a parallel step can only fail for one of the units, the
/// flow fails at that step or before it, and no later step records
/// anything.
pub proof fn law_forced_failure_stops_flow<T: Task>(
    steps: Seq<Step<T>>,
    units: Seq<BuildUnit>,
    added: Seq<Entry>,
    r: Result<(), StepFailed>,
    k: int,
    i: int,
    j: int,
)
    requires
        flow_run(steps, units, added, r),
        0 <= k < steps.len(),
        steps[k] is Parallel,
        0 <= i < units.len(),
        0 <= j < steps[k]->Parallel_tasks@.len(),
        forall|o: Outcome| #[trigger] steps[k]->Parallel_tasks@[j].allows_outcome(Some(units[i]), o) ==> o is Failure,
    ensures
        r matches Err(f) && f.step <= k,
        r matches Err(f) ==> labels(added) == flow_labels(steps, units, (f.step + 1) as nat),
{
    let tasks = steps[k]->Parallel_tasks@;
    let m = tasks.len();
    let n = match r { Ok(_) => steps.len() as int, Err(f) => f.step as int };
    if n > k {
        // step k ran whole and recorded no failure, yet task j failed for unit i
        let lo = flow_labels(steps, units, k as nat).len() as int;
        let block = step_block(steps, units, added, k);
        assert(labels(added).len() == added.len());
        lemma_flow_labels_prefix(steps, units, (k + 1) as nat, n as nat);
        match r {
            Ok(_) => {},
            Err(f) => {
                lemma_flow_labels_prefix(steps, units, f.step as nat, (f.step + 1) as nat);
            },
        }
        assert(flow_labels(steps, units, (k + 1) as nat) == flow_labels(steps, units, k as nat)
            + step_labels(steps[k], units));
        law_parallel_entry_count(units, m, step_name(steps[k]));
        lemma_slot_before(m, i, j, units.len() as int);
        let x = slot(m, i, j);
        assert(step_outcomes_ok(steps[k], units, block));
        assert(tasks[j].allows_outcome(Some(units[i]), block[x].outcome));
        assert(block[x] == added[lo + x]);
        match r {
            Ok(_) => {
                assert(has_failure(added));
            },
            Err(f) => {
                let done = flow_labels(steps, units, f.step as nat).len() as int;
                assert(added.subrange(0, done)[lo + x] == added[lo + x]);
                assert(has_failure(added.subrange(0, done)));
            },
        }
    }
}

/// Fewer steps record a prefix of what more steps record.
pub proof fn lemma_flow_labels_prefix<T>(steps: Seq<Step<T>>, units: Seq<BuildUnit>, a: nat, b: nat)
    requires
        a <= b <= steps.len(),
    ensures
        flow_labels(steps, units, a).len() <= flow_labels(steps, units, b).len(),
    decreases b,
{
    if a < b {
        lemma_flow_labels_prefix(steps, units, a, (b - 1) as nat);
    }
}

/// Lexicographic order of character sequences by code point, the order of
/// `str`.
pub open spec fn text_lt(a: Seq<char>, b: Seq<char>) -> bool
    decreases a.len(),
{
    if b.len() == 0 {
        false
    } else if a.len() == 0 {
        true
    } else if a[0] != b[0] {
        a[0] < b[0]
    } else {
        text_lt(a.drop_first(), b.drop_first())
    }
}

/// Relies on `String`'s `<`: byte-wise lexicographic order of UTF-8, which
/// is the order of code points.
#[verifier::external_body]
fn text_less(a: &String, b: &String) -> (r: bool)
    ensures
        r == text_lt(a@, b@),
{
    a < b
}

proof fn lemma_text_lt_irreflexive(a: Seq<char>)
    ensures
        !text_lt(a, a),
    decreases a.len(),
{
    if a.len() > 0 {
        lemma_text_lt_irreflexive(a.drop_first());
    }
}

/// `text_lt(c, a)` splits at any `b`: this gives both that `text_lt` is
/// transitive and that its negation is.
proof fn lemma_text_lt_split(c: Seq<char>, b: Seq<char>, a: Seq<char>)
    requires
        text_lt(c, a),
    ensures
        text_lt(c, b) || text_lt(b, a),
    decreases c.len(),
{
    if c.len() > 0 && b.len() > 0 && a.len() > 0 {
        if c[0] == a[0] && b[0] == c[0] {
            lemma_text_lt_split(c.drop_first(), b.drop_first(), a.drop_first());
        }
    }
}

proof fn lemma_text_lt_asymmetric(a: Seq<char>, b: Seq<char>)
    requires
        text_lt(a, b),
    ensures
        !text_lt(b, a),
    decreases a.len(),
{
    if a.len() > 0 && b.len() > 0 && a[0] == b[0] {
        lemma_text_lt_asymmetric(a.drop_first(), b.drop_first());
    }
}

/// Whether `order` lists every index of `entries` once, by unit name, and
/// the entries of one unit in the order they were recorded.
pub open spec fn is_summary_order(entries: Seq<Entry>, order: Seq<usize>) -> bool {
    &&& order.len() == entries.len()
    &&& forall|k: int| 0 <= k < order.len() ==> order[k] < entries.len()
    &&& forall|k: int, l: int| 0 <= k < l < order.len() ==> order[k] != order[l]
    &&& sorted_by_unit(entries, order)
}

pub open spec fn sorted_by_unit(entries: Seq<Entry>, order: Seq<usize>) -> bool {
    forall|k: int, l: int|
        0 <= k < l < order.len() ==> {
            &&& !text_lt(entries[order[l] as int].unit@, entries[order[k] as int].unit@)
            &&& (entries[order[l] as int].unit@ == entries[order[k] as int].unit@ ==> order[k] < order[l])
        }
}

impl Report {
    /// The order in which a summary shows the entries: units sorted by name,
    /// each unit's entries in the order they were recorded.
    pub fn summarize(&self) -> (r: Vec<usize>)
        ensures
            is_summary_order(self.entries@, r@),
    {
        let ghost es = self.entries@;
        let mut order: Vec<usize> = Vec::new();
        let mut i: usize = 0;
        while i < self.entries.len()
            invariant
                es == self.entries@,
                i <= es.len(),
                order@.len() == i,
                forall|k: int| 0 <= k < order@.len() ==> order@[k] < i,
                forall|k: int, l: int| 0 <= k < l < order@.len() ==> order@[k] != order@[l],
                sorted_by_unit(es, order@),
            decreases es.len() - i,
        {
            let mut p: usize = order.len();
            while p > 0 && text_less(&self.entries[i].unit, &self.entries[order[p - 1]].unit)
                invariant
                    es == self.entries@,
                    i < es.len(),
                    p <= order@.len(),
                    order@.len() == i,
                    forall|k: int| 0 <= k < order@.len() ==> order@[k] < i,
                    forall|k: int| p <= k < order@.len() ==> text_lt(es[i as int].unit@, es[order@[k] as int].unit@),
                decreases p,
            {
                p = p - 1;
            }
            let ghost before = order@;
            order.insert(p, i);
            proof {
                let x = es[i as int].unit@;
                assert(order@ == before.insert(p as int, i));
                assert forall|k: int| 0 <= k < order@.len() implies order@[k] < i + 1 by {
                    if k < p { assert(order@[k] == before[k]); }
                    else if k > p { assert(order@[k] == before[k - 1]); }
                }
                assert forall|k: int, l: int| 0 <= k < l < order@.len() implies order@[k] != order@[l] by {
                    if k < p { assert(order@[k] == before[k]); }
                    else if k > p { assert(order@[k] == before[k - 1]); }
                    if l < p { assert(order@[l] == before[l]); }
                    else if l > p { assert(order@[l] == before[l - 1]); }
                }
                if p > 0 {
                    assert(!text_lt(x, es[before[p - 1] as int].unit@));
                }
                assert forall|k: int, l: int| 0 <= k < l < order@.len() implies {
                    &&& !text_lt(es[order@[l] as int].unit@, es[order@[k] as int].unit@)
                    &&& (es[order@[l] as int].unit@ == es[order@[k] as int].unit@ ==> order@[k] < order@[l])
                } by {
                    let ok = if k < p { k } else if k > p { k - 1 } else { -1 };
                    let ol = if l < p { l } else if l > p { l - 1 } else { -1 };
                    if k != p && l != p {
                        assert(order@[k] == before[ok]);
                        assert(order@[l] == before[ol]);
                        assert(ok < ol);
                        assert(sorted_by_unit(es, before));
                        assert(!text_lt(es[before[ol] as int].unit@, es[before[ok] as int].unit@));
                    } else if k == p {
                        // the new entry comes before one that sorts after it
                        assert(order@[l] == before[ol]);
                        assert(order@[k] == i);
                        assert(text_lt(x, es[before[ol] as int].unit@));
                        lemma_text_lt_asymmetric(x, es[before[ol] as int].unit@);
                        lemma_text_lt_irreflexive(x);
                    } else {
                        // the new entry comes after one it does not sort before
                        assert(order@[k] == before[ok]);
                        assert(order@[l] == i);
                        let y = es[before[ok] as int].unit@;
                        let z = es[before[p - 1] as int].unit@;
                        assert(before[ok] < i);
                        if text_lt(x, y) {
                            if ok < p - 1 {
                                assert(sorted_by_unit(es, before));
                                assert(!text_lt(z, y));
                                lemma_text_lt_split(x, z, y);
                            }
                        }
                    }
                }
            }
            i = i + 1;
        }
        order
    }
}

} // verus!
