use rake::error::RakeError;
use rake::executor::{
    check_potential_jobs, handle_output, select_jobs, Action, Event, Executor, LineOut,
    RunOutcome,
};
use rake::error::Info;
use rake::job::JobStore;
use rake::parser::Rakefile;

fn cv(s: &str) -> Vec<char> {
    s.chars().collect()
}

fn parse(text: &str) -> Rakefile {
    Rakefile::parse("Rakefile", text).unwrap()
}

fn ok_lines(n: usize) -> RunOutcome {
    let mut outs = Vec::new();
    for _ in 0..n {
        outs.push(LineOut { code: Some(0), stderr: Vec::new() });
    }
    RunOutcome::Ran(outs)
}

/// Drive the machine against a scripted filesystem; every run succeeds
/// unless a scripted outcome is supplied for it. Returns the indices of
/// the jobs that were run, in order.
fn drive(
    store: &JobStore,
    keepgoing: bool,
    roots: Vec<usize>,
    files: &[&str],
    dirs: &[&str],
    mut outcomes: Vec<RunOutcome>,
) -> Result<Vec<usize>, RakeError> {
    let mut ex = Executor::new(keepgoing, roots, store);
    let mut ran = Vec::new();
    let mut ev = Event::Tick;
    let mut fuel = 10000;
    loop {
        fuel -= 1;
        if fuel == 0 {
            panic!("the walk did not finish");
        }
        let act = ex.step(store, ev)?;
        ev = match act {
            Action::Done => return Ok(ran),
            Action::Continue => Event::Tick,
            Action::AskIsFile(j, k) => {
                let dep: String = store.jobs[j].deps[k].iter().collect();
                Event::IsFileAnswer(files.contains(&dep.as_str()))
            },
            Action::AskIsDir(j, k) => {
                let dep: String = store.jobs[j].deps[k].iter().collect();
                Event::IsDirAnswer(dirs.contains(&dep.as_str()))
            },
            Action::RunJob(j) => {
                ran.push(j);
                let out = if outcomes.is_empty() {
                    ok_lines(store.jobs[j].recipe.len())
                } else {
                    outcomes.remove(0)
                };
                Event::RunDone(out)
            },
        };
    }
}

#[test]
fn basic_build_runs_the_compiler() {
    let rf = parse("hello: hello.c\n    cc -o $@ $<\n");
    let roots = select_jobs(&rf.jobs, &Vec::new(), &"Rakefile".to_string()).unwrap();
    assert_eq!(roots, vec![0]);
    let ran = drive(&rf.jobs, false, roots, &["hello.c"], &[], Vec::new()).unwrap();
    // The walk runs the job for its file dependency, then the root run.
    assert_eq!(ran, vec![0, 0]);
    assert_eq!(rf.jobs.jobs[0].recipe, vec![cv("cc -o hello hello.c")]);
}

#[test]
fn override_runs_second_recipe() {
    let rf = parse("foo:\n    echo one\nfoo:\n    echo two\n");
    let ran = drive(&rf.jobs, false, vec![0], &[], &[], Vec::new()).unwrap();
    assert_eq!(ran, vec![0]);
    assert_eq!(rf.jobs.jobs[0].recipe, vec![cv("echo two")]);
}

#[test]
fn phony_job_runs_even_when_file_exists() {
    let rf = parse("clean:\n    rm -rf build\n.PHONY: clean\n");
    // A file named `clean` exists, but the job has no dependencies, so
    // the walk reaches the root run and the recipe is invoked.
    let ran = drive(&rf.jobs, false, vec![0], &["clean"], &[], Vec::new()).unwrap();
    assert_eq!(ran, vec![0]);
}

#[test]
fn phony_dependency_is_walked_not_satisfied_by_file() {
    let rf = parse("all: clean\n    echo done\nclean:\n    rm -rf build\n.PHONY: clean\n");
    // `clean` exists as a file, but names a phony job: the walk must not
    // treat it as a source file; it pushes the job and runs the root.
    let ran = drive(&rf.jobs, false, vec![0], &["clean"], &[], Vec::new()).unwrap();
    assert_eq!(ran, vec![0]);
}

#[test]
fn keepgoing_defers_failures() {
    let rf = parse("a:\n    bad\n    good\n");
    let fail = RunOutcome::Ran(vec![
        LineOut { code: Some(1), stderr: cv("boom") },
        LineOut { code: Some(0), stderr: Vec::new() },
    ]);
    // Without -k the run fails with the failing line's stderr.
    match drive(&rf.jobs, false, vec![0], &[], &[], vec![fail]) {
        Err(RakeError::FailedToExecute(info, msg)) => {
            assert_eq!(info.1, 1);
            assert_eq!(msg, cv("boom"));
        },
        _ => panic!("expected a failed run"),
    }
    // With -k both lines were attempted and the walk succeeds.
    let fail2 = RunOutcome::Ran(vec![
        LineOut { code: Some(1), stderr: cv("boom") },
        LineOut { code: Some(0), stderr: Vec::new() },
    ]);
    let ran = drive(&rf.jobs, true, vec![0], &[], &[], vec![fail2]).unwrap();
    assert_eq!(ran, vec![0]);
}

#[test]
fn invalid_dependency_fails_at_execute_time() {
    let rf = parse("a: nosuch\n    x\n");
    match drive(&rf.jobs, false, vec![0], &[], &[], Vec::new()) {
        Err(RakeError::InvalidDependency(info, dep)) => {
            assert_eq!(info.1, 1);
            assert_eq!(dep, cv("nosuch"));
        },
        _ => panic!("expected an invalid dependency"),
    }
}

#[test]
fn directory_dependency_is_satisfied() {
    let rf = parse("a: somedir\n    x\n");
    let ran = drive(&rf.jobs, false, vec![0], &[], &["somedir"], Vec::new()).unwrap();
    assert_eq!(ran, vec![0]);
}

#[test]
fn dependencies_walked_in_signature_order() {
    let rf = parse("all: b c\n    x\nb:\n    y\nc:\n    z\n");
    // b and c have no dependencies and are only traversed; the root runs.
    let ran = drive(&rf.jobs, false, vec![0], &[], &[], Vec::new()).unwrap();
    assert_eq!(ran, vec![0]);
    // With file dependencies, both are run, b before c.
    let rf2 = parse("all: b c\n    x\nb: b.c\n    y\nc: c.c\n    z\n");
    let ran2 = drive(&rf2.jobs, false, vec![0], &["b.c", "c.c"], &[], Vec::new()).unwrap();
    assert_eq!(ran2, vec![1, 2, 0]);
}

#[test]
fn not_found_is_invalid_dependency_even_with_keepgoing() {
    let rf = parse("a:\n    x\n");
    let out = RunOutcome::NotFound(cv("x"));
    match drive(&rf.jobs, true, vec![0], &[], &[], vec![out]) {
        Err(RakeError::InvalidDependency(_, p)) => assert_eq!(p, cv("x")),
        _ => panic!("expected an invalid dependency"),
    }
}

#[test]
fn other_failure_reports_its_message() {
    let info = Info("Rakefile".to_string(), 4);
    match handle_output(true, &info, RunOutcome::Other(cv("io trouble"))) {
        Err(RakeError::FailedToExecute(i, m)) => {
            assert_eq!(i.1, 4);
            assert_eq!(m, cv("io trouble"));
        },
        _ => panic!("expected a failed run"),
    }
}

#[test]
fn line_without_exit_code_is_not_a_failure() {
    let info = Info("Rakefile".to_string(), 1);
    let out = RunOutcome::Ran(vec![LineOut { code: None, stderr: cv("ignored") }]);
    assert!(handle_output(false, &info, out).is_ok());
}

#[test]
fn no_targets_and_empty_store_is_no_target_failure() {
    let store = JobStore::new();
    match select_jobs(&store, &Vec::new(), &"Rakefile".to_string()) {
        Err(RakeError::NoTarget(info)) => assert_eq!(info.1, 0),
        _ => panic!("expected a missing-target failure"),
    }
}

#[test]
fn unknown_requested_target_lists_known_jobs() {
    let rf = parse("build:\n    x\ntest:\n    y\n");
    match check_potential_jobs(&rf.jobs, &vec![cv("nope")]) {
        Err(RakeError::InvalidArgument(arg, names)) => {
            assert_eq!(arg, cv("nope"));
            assert_eq!(names, cv("build, test"));
        },
        _ => panic!("expected an invalid argument"),
    }
}

#[test]
fn requested_targets_keep_order_and_collapse_duplicates() {
    let rf = parse("a:\n    x\nb:\n    y\n");
    let idxs = check_potential_jobs(&rf.jobs, &vec![cv("b"), cv("a"), cv("b")]).unwrap();
    assert_eq!(idxs, vec![1, 0]);
}

#[test]
fn transitive_prerequisites_are_walked_depth_first() {
    let rf = parse("all: lib\n    link\nlib: obj\n    archive\nobj: src.c\n    compile\n");
    // Only jobs with a source-file dependency run during the walk; the
    // requested root runs at the end.
    let ran = drive(&rf.jobs, false, vec![0], &["src.c"], &[], Vec::new()).unwrap();
    assert_eq!(ran, vec![2, 0]);
}

#[test]
fn default_target_is_first_declared() {
    let rf = parse("first:\n    x\nsecond:\n    y\n");
    let roots = select_jobs(&rf.jobs, &Vec::new(), &"Rakefile".to_string()).unwrap();
    assert_eq!(roots, vec![0]);
}
