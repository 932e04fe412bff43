use mrot::driver::StepOutcome;
use mrot::error::{ConfigError, CycleError, OrchestrationError, TriggerError};
use mrot::github::GithubWorkflow;
use mrot::orchestration::Orchestration;
use mrot::runner::StepReport;
use mrot::steps::{OrchestrationStep, OrchestrationYml};
use mrot::term_ui::{TuiApp, EXIT_KEY};

fn step(name: &str, deps: &[&str]) -> OrchestrationStep {
    let plain = OrchestrationStep::new(
        name.to_string(),
        "acme".to_string(),
        format!("{}-repo", name),
        format!("{}.yml", name),
    );
    if deps.is_empty() {
        plain
    } else {
        plain.after(deps.iter().map(|d| d.to_string()).collect())
    }
}

fn orchestration(steps: Vec<OrchestrationStep>) -> OrchestrationYml {
    OrchestrationYml { name: "release".to_string(), description: String::new(), steps }
}

fn chain() -> OrchestrationYml {
    orchestration(vec![step("ship", &["test"]), step("build", &[]), step("test", &["build"])])
}

fn failed(reason: &str) -> StepOutcome {
    StepOutcome::Failure(reason.to_string())
}

fn line(step: usize, outcome: StepOutcome) -> StepReport {
    StepReport { step, outcome }
}

#[test]
fn run_walks_the_order_and_reports_each_step() {
    let mut run = chain().run_orchestration_safely(true).expect("the steps are sound");
    assert_eq!(run.order(), &vec![1, 2, 0]);
    assert_eq!(run.recorded(), 0);
    assert_eq!(run.next_step(), Some(1));
    assert!(run.record(StepOutcome::Success));
    assert_eq!(run.next_step(), Some(2));
    assert!(run.record(StepOutcome::Success));
    assert_eq!(run.next_step(), Some(0));
    assert!(run.record(StepOutcome::Success));
    assert_eq!(run.next_step(), None);
    assert!(!run.is_halted());
    assert_eq!(run.recorded(), 3);
    assert_eq!(
        run.report(),
        vec![
            line(1, StepOutcome::Success),
            line(2, StepOutcome::Success),
            line(0, StepOutcome::Success)
        ]
    );
}

#[test]
fn failure_stops_the_run_that_stops_on_failure() {
    let mut run = chain().run_orchestration_safely(true).expect("the steps are sound");
    assert!(run.record(StepOutcome::Success));
    assert!(run.record(failed("Workflow failed")));
    assert!(run.is_halted());
    assert_eq!(run.next_step(), None);
    assert!(!run.record(StepOutcome::Success));
    assert_eq!(
        run.report(),
        vec![
            line(1, StepOutcome::Success),
            line(2, failed("Workflow failed")),
            line(0, StepOutcome::Skipped)
        ]
    );
}

#[test]
fn failure_stops_independent_steps_too_where_the_run_stops_on_failure() {
    let s = orchestration(vec![step("A", &[]), step("B", &[]), step("C", &[])]);
    let mut run = s.run_orchestration_safely(true).expect("the steps are sound");
    assert!(run.record(failed("Workflow failed")));
    assert!(run.is_halted());
    assert_eq!(run.next_step(), None);
    assert_eq!(
        run.report(),
        vec![
            line(0, failed("Workflow failed")),
            line(1, StepOutcome::Skipped),
            line(2, StepOutcome::Skipped)
        ]
    );
}

#[test]
fn step_behind_a_failed_step_is_passed_over() {
    let mut run = chain().run_orchestration_safely(false).expect("the steps are sound");
    assert_eq!(run.next_step(), Some(1));
    assert!(run.record(failed("exceeded retry budget")));
    assert!(!run.is_halted());
    // "test" waits for "build", and "ship" for "test": neither can run any more
    assert_eq!(run.next_step(), None);
    assert_eq!(run.recorded(), 3);
    assert!(!run.record(StepOutcome::Success));
    assert_eq!(
        run.report(),
        vec![
            line(1, failed("exceeded retry budget")),
            line(2, StepOutcome::Skipped),
            line(0, StepOutcome::Skipped)
        ]
    );
}

#[test]
fn both_dependents_of_a_failed_step_are_passed_over() {
    let s = orchestration(vec![step("A", &[]), step("B", &["A"]), step("C", &["A"])]);
    let mut run = s.run_orchestration_safely(false).expect("the steps are sound");
    assert_eq!(run.next_step(), Some(0));
    assert!(run.record(failed("Workflow failed")));
    assert_eq!(run.next_step(), None);
    assert_eq!(
        run.report(),
        vec![
            line(0, failed("Workflow failed")),
            line(1, StepOutcome::Skipped),
            line(2, StepOutcome::Skipped)
        ]
    );
}

#[test]
fn run_goes_on_with_steps_that_do_not_depend_on_the_failure() {
    let s = orchestration(vec![
        step("A", &[]),
        step("B", &["A"]),
        step("C", &[]),
        step("D", &["C", "B"]),
        step("E", &["C"]),
    ]);
    let mut run = s.run_orchestration_safely(false).expect("the steps are sound");
    assert_eq!(run.order(), &vec![0, 1, 2, 3, 4]);
    assert_eq!(run.next_step(), Some(0));
    assert!(run.record(StepOutcome::NotTriggered(TriggerError::Rejected(403))));
    // B is passed over, C does not depend on A
    assert_eq!(run.next_step(), Some(2));
    assert_eq!(run.recorded(), 2);
    assert!(run.record(StepOutcome::Success));
    // D waits for B, which was passed over; E only waits for C
    assert_eq!(run.next_step(), Some(4));
    assert!(run.record(StepOutcome::Success));
    assert_eq!(run.next_step(), None);
    assert_eq!(
        run.report(),
        vec![
            line(0, StepOutcome::NotTriggered(TriggerError::Rejected(403))),
            line(1, StepOutcome::Skipped),
            line(2, StepOutcome::Success),
            line(3, StepOutcome::Skipped),
            line(4, StepOutcome::Success)
        ]
    );
}

#[test]
fn failure_of_a_last_step_is_recorded_and_the_run_ends() {
    let mut run = chain().run_orchestration_safely(false).expect("the steps are sound");
    assert!(run.record(StepOutcome::Success));
    assert!(run.record(StepOutcome::Success));
    assert_eq!(run.next_step(), Some(0));
    assert!(run.record(failed("Workflow timed out")));
    assert_eq!(run.next_step(), None);
    assert_eq!(
        run.report(),
        vec![
            line(1, StepOutcome::Success),
            line(2, StepOutcome::Success),
            line(0, failed("Workflow timed out"))
        ]
    );
}

#[test]
fn trigger_failure_stops_the_run_too() {
    let mut run = chain().run_orchestration_safely(true).expect("the steps are sound");
    assert!(run.record(StepOutcome::NotTriggered(TriggerError::Transport)));
    assert!(run.is_halted());
    assert_eq!(run.next_step(), None);
    assert_eq!(
        run.report(),
        vec![
            line(1, StepOutcome::NotTriggered(TriggerError::Transport)),
            line(2, StepOutcome::Skipped),
            line(0, StepOutcome::Skipped)
        ]
    );
}

#[test]
fn report_before_any_step_lists_all_as_skipped() {
    let run = chain().run_orchestration_safely(true).expect("the steps are sound");
    assert_eq!(
        run.report(),
        vec![
            line(1, StepOutcome::Skipped),
            line(2, StepOutcome::Skipped),
            line(0, StepOutcome::Skipped)
        ]
    );
}

#[test]
fn faulty_steps_give_no_run() {
    let unknown = orchestration(vec![step("A", &["ghost"])]);
    assert_eq!(
        unknown.run_orchestration_safely(true).err(),
        Some(OrchestrationError::Config(ConfigError::UnknownDependency("ghost".to_string())))
    );
    let twice = orchestration(vec![step("A", &[]), step("A", &[])]);
    assert_eq!(
        twice.run_orchestration_safely(false).err(),
        Some(OrchestrationError::Config(ConfigError::DuplicateName("A".to_string())))
    );
    let circle = orchestration(vec![step("A", &["A"])]);
    assert_eq!(
        circle.run_orchestration_safely(true).err(),
        Some(OrchestrationError::Cycle(CycleError { node: 0 }))
    );
}

#[test]
fn empty_run_is_over_at_once() {
    let mut run = orchestration(vec![]).run_orchestration_safely(true).expect("nothing is wrong");
    assert_eq!(run.next_step(), None);
    assert!(!run.record(StepOutcome::Success));
    assert_eq!(run.report(), vec![]);
}

#[test]
fn step_becomes_a_workflow() {
    let s = chain();
    let expected = GithubWorkflow::new(
        "build".to_string(),
        "build-repo".to_string(),
        "acme".to_string(),
        "build.yml".to_string(),
    );
    assert_eq!(s.workflow(1), Some(expected));
    assert_eq!(s.workflow(3), None);
}

#[test]
fn dashboard_keeps_its_title_and_leaves_on_q() {
    let app = TuiApp::new("MROT");
    assert_eq!(app.title(), "MROT");
    assert!(TuiApp::is_exit_key('q'));
    assert!(!TuiApp::is_exit_key('Q'));
    assert!(!TuiApp::is_exit_key('x'));
    assert_eq!(EXIT_KEY, 'q');
}
