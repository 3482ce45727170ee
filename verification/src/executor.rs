//! The executor: outcome handling for recipe invocations, resolution of
//! requested targets, and a dependency-walking state machine. The machine
//! owns every decision; the caller performs the filesystem probes and
//! process invocations it asks for and feeds the answers back as events.

use vstd::prelude::*;
use crate::error::{Info, RakeError};
use crate::job::{find_target, JobStore, JobView};
use crate::ss::SSymbol;
use crate::text::{join_sep, views};

verus! {

/// What one recipe line's process reported: its exit code (absent when
/// it ended without one) and captured stderr.
pub struct LineOut {
    pub code: Option<i32>,
    pub stderr: Vec<char>,
}

/// What running a job's recipe produced: per-line results, a missing
/// executable path, or some other failure message.
pub enum RunOutcome {
    Ran(Vec<LineOut>),
    NotFound(Vec<char>),
    Other(Vec<char>),
}

/// A line failed: it reported a nonzero exit code.
pub open spec fn line_failed(l: LineOut) -> bool {
    l.code matches Some(c) && c != 0
}

/// Index of the first failed line at or past `i`.
pub open spec fn first_fail_from(outs: Seq<LineOut>, i: int) -> Option<int>
    decreases outs.len() - i,
{
    if !(0 <= i < outs.len()) {
        None
    } else if line_failed(outs[i]) {
        Some(i)
    } else {
        first_fail_from(outs, i + 1)
    }
}

/// The failure policy of recipe invocation: a missing executable is an
/// invalid dependency whatever `keepgoing` says; a nonzero exit fails
/// the run with that line's stderr unless `keepgoing`; any other error
/// fails the run with its message.
pub open spec fn handle_rel(
    keepgoing: bool,
    path: Seq<char>,
    row: int,
    outcome: RunOutcome,
    r: Result<(), RakeError>,
) -> bool {
    match outcome {
        RunOutcome::Ran(outs) => match first_fail_from(outs@, 0) {
            Some(ix) => if keepgoing {
                r is Ok
            } else {
                r matches Err(RakeError::FailedToExecute(inf, msg)) && inf.0@ == path
                    && inf.1 as int == row && msg@ == outs@[ix].stderr@
            },
            None => r is Ok,
        },
        RunOutcome::NotFound(p) => r matches Err(RakeError::InvalidDependency(inf, d)) && inf.0@
            == path && inf.1 as int == row && d@ == p@,
        RunOutcome::Other(m) => r matches Err(RakeError::FailedToExecute(inf, msg)) && inf.0@
            == path && inf.1 as int == row && msg@ == m@,
    }
}

/// Judge one run per the failure policy.
pub fn handle_output(keepgoing: bool, info: &Info, outcome: RunOutcome) -> (r: Result<
    (),
    RakeError,
>)
    ensures
        handle_rel(keepgoing, info.0@, info.1 as int, outcome, r),
{
    match outcome {
        RunOutcome::Ran(outs) => {
            let mut k: usize = 0;
            while k < outs.len()
                invariant
                    outcome == RunOutcome::Ran(outs),
                    k <= outs@.len(),
                    first_fail_from(outs@, 0) == first_fail_from(outs@, k as int),
                decreases outs@.len() - k,
            {
                let failed = match outs[k].code {
                    Some(c) => c != 0,
                    None => false,
                };
                if failed {
                    proof {
                        assert(line_failed(outs@[k as int]));
                        assert(first_fail_from(outs@, 0) == Some(k as int));
                    }
                    if keepgoing {
                        return Ok(());
                    }
                    let msg = crate::text::dup_chars(&outs[k].stderr);
                    return Err(RakeError::FailedToExecute(info.duplicate(), msg));
                }
                k += 1;
            }
            Ok(())
        },
        RunOutcome::NotFound(p) => Err(RakeError::InvalidDependency(info.duplicate(), p)),
        RunOutcome::Other(m) => Err(RakeError::FailedToExecute(info.duplicate(), m)),
    }
}

/// Resolution of the requested names against the store, in request
/// order with duplicates collapsed; the first unknown name fails.
pub open spec fn resolve_from(
    jobs: Seq<JobView>,
    pot: Seq<Seq<char>>,
    i: int,
    acc: Seq<int>,
) -> Result<Seq<int>, Seq<char>>
    decreases pot.len() - i,
{
    if !(0 <= i < pot.len()) {
        Ok(acc)
    } else {
        match find_target(jobs, pot[i]) {
            None => Err(pot[i]),
            Some(j) => resolve_from(
                jobs,
                pot,
                i + 1,
                if acc.contains(j) {
                    acc
                } else {
                    acc.push(j)
                },
            ),
        }
    }
}

/// The user-visible targets: every stored target that is not a marker
/// or substitution symbol's text, in store order.
pub open spec fn known_names(jobs: Seq<JobView>, i: int) -> Seq<Seq<char>>
    decreases jobs.len() - i,
{
    if !(0 <= i < jobs.len()) {
        Seq::empty()
    } else if SSymbol::is_symbol_text(jobs[i].target) {
        known_names(jobs, i + 1)
    } else {
        seq![jobs[i].target] + known_names(jobs, i + 1)
    }
}

/// The indices a list of positions denotes.
pub open spec fn idx_views(v: Seq<usize>) -> Seq<int> {
    v.map_values(|x: usize| x as int)
}

fn contains_idx(v: &Vec<usize>, j: usize) -> (r: bool)
    ensures
        r == idx_views(v@).contains(j as int),
{
    let mut k: usize = 0;
    while k < v.len()
        invariant
            k <= v@.len(),
            forall|t: int| 0 <= t < k ==> idx_views(v@)[t] != j as int,
        decreases v@.len() - k,
    {
        if v[k] == j {
            assert(idx_views(v@)[k as int] == j as int);
            return true;
        }
        k += 1;
    }
    assert forall|t: int| 0 <= t < idx_views(v@).len() implies idx_views(v@)[t] != j as int by {}
    false
}

fn known_names_exec(store: &JobStore, i: usize) -> (out: Vec<Vec<char>>)
    requires
        i <= store@.len(),
    ensures
        views(out@) == known_names(store@, i as int),
    decreases store@.len() - i,
{
    if i >= store.jobs.len() {
        let out: Vec<Vec<char>> = Vec::new();
        assert(views(out@) =~= known_names(store@, i as int));
        return out;
    }
    let t = crate::text::dup_chars(&store.jobs[i].target);
    let is_sym = match SSymbol::try_from(&t) {
        Ok(_) => true,
        Err(_) => false,
    };
    if is_sym {
        known_names_exec(store, i + 1)
    } else {
        let mut out: Vec<Vec<char>> = Vec::new();
        out.push(t);
        let mut rest = known_names_exec(store, i + 1);
        out.append(&mut rest);
        assert(views(out@) =~= known_names(store@, i as int));
        out
    }
}

/// Resolve every requested name against the store. An unknown name is
/// `InvalidArgument`, carrying the user-visible targets joined by
/// commas; the result keeps request order with duplicates collapsed.
pub fn check_potential_jobs(store: &JobStore, potential: &Vec<Vec<char>>) -> (r: Result<
    Vec<usize>,
    RakeError,
>)
    ensures
        match r {
            Ok(idxs) => resolve_from(store@, views(potential@), 0, Seq::empty()) == Result::<
                Seq<int>,
                Seq<char>,
            >::Ok(idx_views(idxs@)) && forall|t: int|
                0 <= t < idxs@.len() ==> idxs@[t] < store@.len(),
            Err(e) => ({
                let res = resolve_from(store@, views(potential@), 0, Seq::empty());
                &&& res is Err
                &&& e matches RakeError::InvalidArgument(arg, names) && arg@ == res->Err_0
                    && names@ == join_sep(known_names(store@, 0), seq![',', ' '], 0)
            }),
        },
{
    let mut acc: Vec<usize> = Vec::new();
    proof {
        assert(idx_views(acc@) =~= Seq::<int>::empty());
    }
    let mut i: usize = 0;
    while i < potential.len()
        invariant
            i <= potential@.len(),
            resolve_from(store@, views(potential@), 0, Seq::empty()) == resolve_from(
                store@,
                views(potential@),
                i as int,
                idx_views(acc@),
            ),
            forall|t: int| 0 <= t < acc@.len() ==> acc@[t] < store@.len(),
        decreases potential@.len() - i,
    {
        match store.find_job_by_target(&potential[i]) {
            None => {
                let names = known_names_exec(store, 0);
                let mut sep: Vec<char> = Vec::new();
                sep.push(',');
                sep.push(' ');
                proof {
                    assert(sep@ =~= seq![',', ' ']);
                    assert(views(potential@)[i as int] == potential@[i as int]@);
                }
                let joined = crate::text::join_sep_exec(&names, &sep);
                let arg = crate::text::dup_chars(&potential[i]);
                return Err(RakeError::InvalidArgument(arg, joined));
            },
            Some(j) => {
                proof {
                    crate::job::lemma_find_target(store@, views(potential@)[i as int], 0);
                }
                if !contains_idx(&acc, j) {
                    let ghost pre = idx_views(acc@);
                    acc.push(j);
                    proof {
                        assert(idx_views(acc@) =~= pre.push(j as int));
                    }
                }
                i += 1;
            },
        }
    }
    Ok(acc)
}

/// Choose what to run: the resolved requested targets in request order,
/// else the first declared job; no requests against an empty store is a
/// missing-target failure.
pub fn select_jobs(store: &JobStore, potential: &Vec<Vec<char>>, path: &String) -> (r: Result<
    Vec<usize>,
    RakeError,
>)
    ensures
        match r {
            Ok(idxs) => ({
                let res = resolve_from(store@, views(potential@), 0, Seq::empty());
                &&& res is Ok
                &&& if res->Ok_0.len() > 0 {
                    idx_views(idxs@) == res->Ok_0
                } else {
                    store@.len() > 0 && idxs@.len() == 1 && idxs@[0] == 0
                }
                &&& forall|t: int| 0 <= t < idxs@.len() ==> (idxs@[t] as int) < store@.len()
            }),
            Err(e) => ({
                let res = resolve_from(store@, views(potential@), 0, Seq::empty());
                match res {
                    Err(name) => e matches RakeError::InvalidArgument(arg, names) && arg@ == name
                        && names@ == join_sep(known_names(store@, 0), seq![',', ' '], 0),
                    Ok(sel) => {
                        &&& sel.len() == 0 && store@.len() == 0
                        &&& e matches RakeError::NoTarget(i) && i.0@ == path@ && i.1 == 0
                    },
                }
            }),
        },
{
    match check_potential_jobs(store, potential) {
        Err(e) => Err(e),
        Ok(idxs) => {
            if idxs.len() > 0 {
                Ok(idxs)
            } else if store.len() > 0 {
                let mut first: Vec<usize> = Vec::new();
                first.push(0);
                Ok(first)
            } else {
                Err(RakeError::NoTarget(Info(path.clone(), 0)))
            }
        },
    }
}

/// What the machine asks its caller to do next. `Continue` asks for
/// nothing but another `Tick`.
pub enum Action {
    /// Ask whether dependency `k` of job `job` names an existing file.
    AskIsFile(usize, usize),
    /// Ask whether dependency `k` of job `job` names an existing directory.
    AskIsDir(usize, usize),
    /// Run the recipe of this job, every line, and report the outcomes.
    RunJob(usize),
    Continue,
    Done,
}

/// What the caller reports back.
pub enum Event {
    Tick,
    IsFileAnswer(bool),
    IsDirAnswer(bool),
    RunDone(RunOutcome),
}

/// Where the walk stands.
pub enum Phase {
    /// Begin the next requested root, or finish.
    StartRoot,
    /// Pop the next job from the walk stack.
    Pop,
    /// First pass over a popped job's dependencies: probing each for an
    /// existing file; one suffices to run the job directly.
    Scan1 { job: usize, k: usize },
    /// Second pass: dependency `k` is next to classify as job, file or
    /// directory.
    Check { job: usize, k: usize },
    /// Second pass, probing dependency `k`: first as a file, then as a
    /// directory.
    Scan2 { job: usize, k: usize, dir: bool },
    /// A recipe invocation is outstanding; `root` marks the final run of
    /// the requested root itself.
    Running { job: usize, root: bool },
    Finished,
}

/// The stack after the pending dependency jobs are moved onto it, last
/// collected first, so that they are popped in signature order.
pub open spec fn rev_app(stack: Seq<usize>, pending: Seq<usize>) -> Seq<usize>
    decreases pending.len(),
{
    if pending.len() == 0 {
        stack
    } else {
        rev_app(stack.push(pending.last()), pending.drop_last())
    }
}

/// Moving the pending jobs onto the stack appends them in reverse order.
pub proof fn lemma_rev_app(stack: Seq<usize>, pending: Seq<usize>)
    ensures
        rev_app(stack, pending) == stack + pending.reverse(),
    decreases pending.len(),
{
    if pending.len() == 0 {
        assert(rev_app(stack, pending) =~= stack + pending.reverse());
    } else {
        lemma_rev_app(stack.push(pending.last()), pending.drop_last());
        assert(stack.push(pending.last()) + pending.drop_last().reverse() =~= stack
            + pending.reverse());
    }
}

/// The named dependency resolves to a phony job, whose target an
/// existing file never satisfies.
pub open spec fn phony_as_job(jobs: Seq<JobView>, d: Seq<char>) -> bool {
    match find_target(jobs, d) {
        Some(x) => jobs[x].phony,
        None => false,
    }
}

/// The dependency-walking executor. Seeded with the requested roots, it
/// walks each root's transitive prerequisites depth-first in signature
/// order and asks its caller to probe and to run.
pub struct Executor {
    pub keepgoing: bool,
    pub roots: Vec<usize>,
    pub rpos: usize,
    pub stack: Vec<usize>,
    pub pending: Vec<usize>,
    pub phase: Phase,
}

impl Executor {
    /// Every held index points into the store, and each phase's
    /// bookkeeping is in range.
    pub open spec fn wf(&self, jobs: Seq<JobView>) -> bool {
        &&& forall|t: int| 0 <= t < self.roots@.len() ==> (self.roots@[t] as int) < jobs.len()
        &&& self.rpos <= self.roots@.len()
        &&& forall|t: int| 0 <= t < self.stack@.len() ==> (self.stack@[t] as int) < jobs.len()
        &&& forall|t: int| 0 <= t < self.pending@.len() ==> (self.pending@[t] as int) < jobs.len()
        &&& match self.phase {
            Phase::StartRoot => self.stack@.len() == 0 && self.pending@.len() == 0,
            Phase::Pop => self.rpos >= 1 && self.pending@.len() == 0,
            Phase::Scan1 { job, k } => self.rpos >= 1 && self.pending@.len() == 0 && (job as int)
                < jobs.len() && (k as int) < jobs[job as int].deps.len(),
            Phase::Check { job, k } => self.rpos >= 1 && (job as int) < jobs.len() && (k as int)
                <= jobs[job as int].deps.len(),
            Phase::Scan2 { job, k, dir } => self.rpos >= 1 && (job as int) < jobs.len() && (
            k as int) < jobs[job as int].deps.len(),
            Phase::Running { job, root } => self.rpos >= 1 && (job as int) < jobs.len()
                && self.pending@.len() == 0 && (root ==> self.stack@.len() == 0),
            Phase::Finished => true,
        }
    }

    /// Which event each phase awaits.
    pub open spec fn event_ok(&self, ev: Event) -> bool {
        match self.phase {
            Phase::StartRoot | Phase::Pop | Phase::Check { .. } | Phase::Finished => ev is Tick,
            Phase::Scan1 { .. } => ev is IsFileAnswer,
            Phase::Scan2 { job, k, dir } => if dir {
                ev is IsDirAnswer
            } else {
                ev is IsFileAnswer
            },
            Phase::Running { .. } => ev is RunDone,
        }
    }

    /// Start an executor over the given requested roots.
    pub fn new(keepgoing: bool, roots: Vec<usize>, store: &JobStore) -> (e: Executor)
        requires
            forall|t: int| 0 <= t < roots@.len() ==> (roots@[t] as int) < store@.len(),
        ensures
            e.wf(store@),
            e.keepgoing == keepgoing,
            e.roots@ == roots@,
            e.rpos == 0,
            e.phase is StartRoot,
    {
        Executor {
            keepgoing,
            roots,
            rpos: 0,
            stack: Vec::new(),
            pending: Vec::new(),
            phase: Phase::StartRoot,
        }
    }
}

/// The machine's transition relation: given the pre-state and the event,
/// exactly this post-state and result come out.
pub open spec fn step_rel(
    pre: Executor,
    jobs: Seq<JobView>,
    ev: Event,
    post: Executor,
    r: Result<Action, RakeError>,
) -> bool {
    &&& post.keepgoing == pre.keepgoing
    &&& post.roots@ == pre.roots@
    &&& match pre.phase {
        Phase::Finished => {
            &&& post.rpos == pre.rpos
            &&& post.stack@ == pre.stack@
            &&& post.pending@ == pre.pending@
            &&& post.phase is Finished
            &&& r == Result::<Action, RakeError>::Ok(Action::Done)
        },
        Phase::StartRoot => if pre.rpos == pre.roots@.len() {
            &&& post.rpos == pre.rpos
            &&& post.stack@ == pre.stack@
            &&& post.pending@ == pre.pending@
            &&& post.phase is Finished
            &&& r == Result::<Action, RakeError>::Ok(Action::Done)
        } else {
            &&& post.rpos == pre.rpos + 1
            &&& post.stack@ == seq![pre.roots@[pre.rpos as int]]
            &&& post.pending@ == pre.pending@
            &&& post.phase is Pop
            &&& r == Result::<Action, RakeError>::Ok(Action::Continue)
        },
        Phase::Pop => if pre.stack@.len() == 0 {
            let jr = pre.roots@[pre.rpos - 1];
            &&& post.rpos == pre.rpos
            &&& post.stack@ == pre.stack@
            &&& post.pending@ == pre.pending@
            &&& post.phase == (Phase::Running { job: jr, root: true })
            &&& r == Result::<Action, RakeError>::Ok(Action::RunJob(jr))
        } else {
            let j = pre.stack@.last();
            &&& post.rpos == pre.rpos
            &&& post.stack@ == pre.stack@.drop_last()
            &&& post.pending@ == pre.pending@
            &&& if jobs[j as int].deps.len() == 0 {
                &&& post.phase is Pop
                &&& r == Result::<Action, RakeError>::Ok(Action::Continue)
            } else {
                &&& post.phase == (Phase::Scan1 { job: j, k: 0 })
                &&& r == Result::<Action, RakeError>::Ok(Action::AskIsFile(j, 0))
            }
        },
        Phase::Scan1 { job, k } => {
            let b = ev->IsFileAnswer_0;
            let d = jobs[job as int].deps[k as int];
            let sat = b && !phony_as_job(jobs, d);
            &&& post.rpos == pre.rpos
            &&& post.stack@ == pre.stack@
            &&& post.pending@ == pre.pending@
            &&& if sat {
                &&& post.phase == (Phase::Running { job, root: false })
                &&& r == Result::<Action, RakeError>::Ok(Action::RunJob(job))
            } else if (k + 1) < jobs[job as int].deps.len() {
                &&& post.phase == (Phase::Scan1 { job, k: (k + 1) as usize })
                &&& r == Result::<Action, RakeError>::Ok(Action::AskIsFile(job, (k + 1) as usize))
            } else {
                &&& post.phase == (Phase::Check { job, k: 0 })
                &&& r == Result::<Action, RakeError>::Ok(Action::Continue)
            }
        },
        Phase::Check { job, k } => if k == jobs[job as int].deps.len() {
            &&& post.rpos == pre.rpos
            &&& post.stack@ == rev_app(pre.stack@, pre.pending@)
            &&& post.pending@.len() == 0
            &&& post.phase is Pop
            &&& r == Result::<Action, RakeError>::Ok(Action::Continue)
        } else {
            let d = jobs[job as int].deps[k as int];
            &&& post.rpos == pre.rpos
            &&& post.stack@ == pre.stack@
            &&& match find_target(jobs, d) {
                Some(dj) => {
                    &&& post.pending@ == pre.pending@.push(dj as usize)
                    &&& post.phase == (Phase::Check { job, k: (k + 1) as usize })
                    &&& r == Result::<Action, RakeError>::Ok(Action::Continue)
                },
                None => {
                    &&& post.pending@ == pre.pending@
                    &&& post.phase == (Phase::Scan2 { job, k, dir: false })
                    &&& r == Result::<Action, RakeError>::Ok(Action::AskIsFile(job, k))
                },
            }
        },
        Phase::Scan2 { job, k, dir } => {
            &&& post.rpos == pre.rpos
            &&& post.stack@ == pre.stack@
            &&& post.pending@ == pre.pending@
            &&& if !dir {
                let b = ev->IsFileAnswer_0;
                if b {
                    &&& post.phase == (Phase::Check { job, k: (k + 1) as usize })
                    &&& r == Result::<Action, RakeError>::Ok(Action::Continue)
                } else {
                    &&& post.phase == (Phase::Scan2 { job, k, dir: true })
                    &&& r == Result::<Action, RakeError>::Ok(Action::AskIsDir(job, k))
                }
            } else {
                let b = ev->IsDirAnswer_0;
                if b {
                    &&& post.phase == (Phase::Check { job, k: (k + 1) as usize })
                    &&& r == Result::<Action, RakeError>::Ok(Action::Continue)
                } else {
                    &&& post.phase is Finished
                    &&& r matches Err(RakeError::InvalidDependency(inf, dp)) && inf.0@
                        == jobs[job as int].path && inf.1 as int == jobs[job as int].row && dp@
                        == jobs[job as int].deps[k as int]
                }
            }
        },
        Phase::Running { job, root } => {
            let out = ev->RunDone_0;
            &&& post.rpos == pre.rpos
            &&& post.stack@ == pre.stack@
            &&& post.pending@ == pre.pending@
            &&& match r {
                Err(e) => handle_rel(
                    pre.keepgoing,
                    jobs[job as int].path,
                    jobs[job as int].row,
                    out,
                    Err(e),
                ) && post.phase is Finished,
                Ok(a) => {
                    &&& handle_rel(
                        pre.keepgoing,
                        jobs[job as int].path,
                        jobs[job as int].row,
                        out,
                        Ok(()),
                    )
                    &&& a is Continue
                    &&& if root {
                        post.phase is StartRoot
                    } else {
                        post.phase is Pop
                    }
                },
            }
        },
    }
}

impl Executor {
    /// One transition of the walk. The caller supplies the event the
    /// current phase awaits and performs the action that comes back;
    /// an error ends the walk.
    pub fn step(&mut self, store: &JobStore, ev: Event) -> (r: Result<Action, RakeError>)
        requires
            old(self).wf(store@),
            old(self).event_ok(ev),
        ensures
            final(self).wf(store@),
            step_rel(*old(self), store@, ev, *final(self), r),
            match r {
                Ok(Action::AskIsFile(j, k)) => (j as int) < store@.len() && (k as int)
                    < store@[j as int].deps.len(),
                Ok(Action::AskIsDir(j, k)) => (j as int) < store@.len() && (k as int)
                    < store@[j as int].deps.len(),
                Ok(Action::RunJob(j)) => (j as int) < store@.len(),
                _ => true,
            },
    {
        // The length call puts the store's length bound in scope.
        let nstore = store.jobs.len();
        match self.phase {
            Phase::Finished => Ok(Action::Done),
            Phase::StartRoot => {
                if self.rpos == self.roots.len() {
                    self.phase = Phase::Finished;
                    Ok(Action::Done)
                } else {
                    let root = self.roots[self.rpos];
                    self.rpos += 1;
                    self.stack.push(root);
                    self.phase = Phase::Pop;
                    proof {
                        assert(self.stack@ =~= seq![old(self).roots@[old(self).rpos as int]]);
                    }
                    Ok(Action::Continue)
                }
            },
            Phase::Pop => {
                if self.stack.len() == 0 {
                    let jr = self.roots[self.rpos - 1];
                    self.phase = Phase::Running { job: jr, root: true };
                    Ok(Action::RunJob(jr))
                } else {
                    match self.stack.pop() {
                        Some(j) => {
                            if store.jobs[j].deps.len() == 0 {
                                self.phase = Phase::Pop;
                                Ok(Action::Continue)
                            } else {
                                self.phase = Phase::Scan1 { job: j, k: 0 };
                                Ok(Action::AskIsFile(j, 0))
                            }
                        },
                        None => {
                            // Unreachable: the stack was tested non-empty.
                            self.phase = Phase::Finished;
                            Ok(Action::Done)
                        },
                    }
                }
            },
            Phase::Scan1 { job, k } => {
                let b = match ev {
                    Event::IsFileAnswer(b) => b,
                    _ => false,
                };
                let dn = store.jobs[job].deps.len();
                assert(k < dn);
                let dep = &store.jobs[job].deps[k];
                let phony_dep = match store.find_job_by_target(dep) {
                    Some(x) => {
                        proof {
                            crate::job::lemma_find_target(store@, dep@, 0);
                        }
                        store.jobs[x].phony
                    },
                    None => false,
                };
                if b && !phony_dep {
                    self.phase = Phase::Running { job, root: false };
                    Ok(Action::RunJob(job))
                } else if k + 1 < dn {
                    self.phase = Phase::Scan1 { job, k: k + 1 };
                    Ok(Action::AskIsFile(job, k + 1))
                } else {
                    self.phase = Phase::Check { job, k: 0 };
                    Ok(Action::Continue)
                }
            },
            Phase::Check { job, k } => {
                if k == store.jobs[job].deps.len() {
                    let ghost pre_stack = self.stack@;
                    let ghost pre_pending = self.pending@;
                    let ghost pre_rpos = self.rpos;
                    let ghost pre_roots = self.roots@;
                    let ghost pre_kg = self.keepgoing;
                    let ghost pre_phase = self.phase;
                    while self.pending.len() > 0
                        invariant
                            self.rpos == pre_rpos,
                            self.roots@ == pre_roots,
                            self.keepgoing == pre_kg,
                            self.phase == pre_phase,
                            forall|t: int|
                                0 <= t < self.stack@.len() ==> (self.stack@[t] as int)
                                    < store@.len(),
                            forall|t: int|
                                0 <= t < self.pending@.len() ==> (self.pending@[t] as int)
                                    < store@.len(),
                            rev_app(self.stack@, self.pending@) == rev_app(
                                pre_stack,
                                pre_pending,
                            ),
                        decreases self.pending@.len(),
                    {
                        match self.pending.pop() {
                            Some(x) => {
                                self.stack.push(x);
                            },
                            None => {},
                        }
                    }
                    self.phase = Phase::Pop;
                    Ok(Action::Continue)
                } else {
                    let dep = &store.jobs[job].deps[k];
                    match store.find_job_by_target(dep) {
                        Some(dj) => {
                            proof {
                                crate::job::lemma_find_target(store@, dep@, 0);
                            }
                            self.pending.push(dj);
                            self.phase = Phase::Check { job, k: k + 1 };
                            Ok(Action::Continue)
                        },
                        None => {
                            self.phase = Phase::Scan2 { job, k, dir: false };
                            Ok(Action::AskIsFile(job, k))
                        },
                    }
                }
            },
            Phase::Scan2 { job, k, dir } => {
                let dn = store.jobs[job].deps.len();
                assert(k < dn);
                if !dir {
                    let b = match ev {
                        Event::IsFileAnswer(b) => b,
                        _ => false,
                    };
                    if b {
                        self.phase = Phase::Check { job, k: k + 1 };
                        Ok(Action::Continue)
                    } else {
                        self.phase = Phase::Scan2 { job, k, dir: true };
                        Ok(Action::AskIsDir(job, k))
                    }
                } else {
                    let b = match ev {
                        Event::IsDirAnswer(b) => b,
                        _ => false,
                    };
                    if b {
                        self.phase = Phase::Check { job, k: k + 1 };
                        Ok(Action::Continue)
                    } else {
                        self.phase = Phase::Finished;
                        let loc = store.jobs[job].loc.duplicate();
                        let dep = crate::text::dup_chars(&store.jobs[job].deps[k]);
                        Err(RakeError::InvalidDependency(loc, dep))
                    }
                }
            },
            Phase::Running { job, root } => {
                let out = match ev {
                    Event::RunDone(out) => out,
                    _ => RunOutcome::Ran(Vec::new()),
                };
                let loc = store.jobs[job].loc.duplicate();
                match handle_output(self.keepgoing, &loc, out) {
                    Ok(_) => {
                        if root {
                            self.phase = Phase::StartRoot;
                        } else {
                            self.phase = Phase::Pop;
                        }
                        Ok(Action::Continue)
                    },
                    Err(e) => {
                        self.phase = Phase::Finished;
                        Err(e)
                    },
                }
            },
        }
    }
}

} // verus!
