use mrot::error::{ConfigError, CycleError, OrchestrationError};
use mrot::graph::{build, DependencyGraph};
use mrot::orchestration::Orchestration;
use mrot::steps::{find_step, OrchestrationStep, OrchestrationYml};
use mrot::toposort::sort;

fn step(name: &str, deps: &[&str]) -> OrchestrationStep {
    let plain = OrchestrationStep::new(
        name.to_string(),
        "acme".to_string(),
        format!("{}-repo", name),
        format!("{}.yml", name),
    );
    if deps.is_empty() {
        plain
    } else {
        plain.after(deps.iter().map(|d| d.to_string()).collect())
    }
}

fn orchestration(steps: Vec<OrchestrationStep>) -> OrchestrationYml {
    OrchestrationYml {
        name: "release".to_string(),
        description: "all repositories".to_string(),
        steps,
    }
}

fn place(order: &[usize], node: usize) -> usize {
    order.iter().position(|&n| n == node).expect("every node is in the order")
}

#[test]
fn fan_out_keeps_declaration_order() {
    let s = orchestration(vec![step("A", &[]), step("B", &["A"]), step("C", &["A"])]);
    assert_eq!(s.generate_orchestrations(), Ok(vec![0, 1, 2]));
}

fn cycle_at(node: usize) -> Result<Vec<usize>, OrchestrationError> {
    Err(OrchestrationError::Cycle(CycleError { node }))
}

#[test]
fn two_step_cycle_is_reported() {
    let s = orchestration(vec![step("A", &["B"]), step("B", &["A"])]);
    match s.generate_orchestrations() {
        Err(OrchestrationError::Cycle(CycleError { node })) => assert!(node == 0 || node == 1),
        other => panic!("expected a cycle, got {:?}", other),
    }
    assert_eq!(s.generate_orchestrations(), cycle_at(0));
}

#[test]
fn cycle_names_a_node_on_it_not_one_behind_it() {
    // step 0 only hangs on the cycle between steps 1 and 2
    let s = orchestration(vec![step("C", &["A"]), step("A", &["B"]), step("B", &["A"])]);
    assert_eq!(s.generate_orchestrations(), cycle_at(1));
}

#[test]
fn cycle_behind_a_chain_is_found() {
    let s = orchestration(vec![
        step("first", &[]),
        step("second", &["first"]),
        step("x", &["second", "z"]),
        step("y", &["x"]),
        step("z", &["y"]),
        step("last", &["z"]),
    ]);
    assert_eq!(s.generate_orchestrations(), cycle_at(2));
}

#[test]
fn of_two_cycles_the_one_declared_first_is_named() {
    let s = orchestration(vec![
        step("free", &[]),
        step("between", &["p", "x"]),
        step("x", &["y"]),
        step("y", &["x"]),
        step("p", &["q"]),
        step("q", &["p"]),
    ]);
    // step 1 hangs on both cycles and lies on none
    assert_eq!(s.generate_orchestrations(), cycle_at(2));
}

#[test]
fn same_faulty_steps_give_the_same_error() {
    let circle = || orchestration(vec![step("a", &["c"]), step("b", &["a"]), step("c", &["b"])]);
    assert_eq!(circle().generate_orchestrations(), circle().generate_orchestrations());
    assert_eq!(circle().generate_orchestrations(), cycle_at(0));
    let unknown = || orchestration(vec![step("a", &["x"]), step("b", &["y"])]);
    assert_eq!(unknown().generate_orchestrations(), unknown().generate_orchestrations());
    let twice = || orchestration(vec![step("a", &[]), step("b", &[]), step("b", &[]), step("a", &[])]);
    assert_eq!(twice().generate_orchestrations(), twice().generate_orchestrations());
    assert_eq!(
        twice().generate_orchestrations(),
        Err(OrchestrationError::Config(ConfigError::DuplicateName("b".to_string())))
    );
}

#[test]
fn step_that_depends_on_itself_is_a_cycle() {
    let s = orchestration(vec![step("A", &[]), step("B", &["B"])]);
    assert_eq!(s.generate_orchestrations(), cycle_at(1));
}

#[test]
fn unknown_dependency_fails_build() {
    let s = orchestration(vec![step("A", &[]), step("B", &["A", "nowhere"])]);
    match build(&s) {
        Err(error) => assert_eq!(error, ConfigError::UnknownDependency("nowhere".to_string())),
        Ok(_) => panic!("no graph may come of an unknown dependency"),
    }
    assert_eq!(
        s.generate_orchestrations(),
        Err(OrchestrationError::Config(ConfigError::UnknownDependency("nowhere".to_string())))
    );
}

#[test]
fn first_unknown_dependency_is_named() {
    let s = orchestration(vec![step("A", &["B", "x1", "x2"]), step("B", &["x0"])]);
    match build(&s) {
        Err(error) => assert_eq!(error, ConfigError::UnknownDependency("x1".to_string())),
        Ok(_) => panic!("no graph may come of an unknown dependency"),
    }
}

#[test]
fn duplicate_name_fails_build() {
    let s = orchestration(vec![step("A", &[]), step("B", &["A"]), step("A", &[]), step("B", &[])]);
    match build(&s) {
        Err(error) => assert_eq!(error, ConfigError::DuplicateName("A".to_string())),
        Ok(_) => panic!("no graph may come of a repeated name"),
    }
}

#[test]
fn unknown_dependency_comes_before_duplicate_name() {
    let s = orchestration(vec![step("A", &[]), step("A", &["missing"])]);
    match build(&s) {
        Err(error) => assert_eq!(error, ConfigError::UnknownDependency("missing".to_string())),
        Ok(_) => panic!("no graph may come of faulty steps"),
    }
}

#[test]
fn build_makes_one_node_per_step_and_one_edge_per_dependency() {
    let s = orchestration(vec![step("A", &[]), step("B", &["A"]), step("C", &["B", "A"])]);
    let graph = build(&s).expect("the steps are sound");
    assert_eq!(graph.node_count(), 3);
    assert_eq!(graph.edge_count(), 3);
    assert_eq!(graph.edges(), vec![(0, 1), (1, 2), (0, 2)]);
}

#[test]
fn graph_grows_by_nodes_and_edges() {
    let mut graph = DependencyGraph::new();
    assert_eq!(graph.node_count(), 0);
    assert_eq!(graph.edge_count(), 0);
    assert_eq!(graph.add_node(), 0);
    assert_eq!(graph.add_node(), 1);
    assert_eq!(graph.add_node(), 2);
    assert_eq!(graph.node_count(), 3);
    assert_eq!(graph.add_edge(2, 0), 0);
    assert_eq!(graph.add_edge(0, 1), 1);
    assert_eq!(graph.edge_count(), 2);
    assert_eq!(graph.edges(), vec![(2, 0), (0, 1)]);
    assert_eq!(sort(&graph), Ok(vec![2, 0, 1]));
}

#[test]
fn empty_spec_has_empty_order() {
    assert_eq!(orchestration(vec![]).generate_orchestrations(), Ok(vec![]));
}

#[test]
fn independent_steps_run_as_declared() {
    let s = orchestration(vec![step("c", &[]), step("a", &[]), step("b", &[])]);
    assert_eq!(s.generate_orchestrations(), Ok(vec![0, 1, 2]));
}

#[test]
fn dependency_declared_later_still_runs_first() {
    let s = orchestration(vec![step("deploy", &["build"]), step("build", &[])]);
    assert_eq!(s.generate_orchestrations(), Ok(vec![1, 0]));
}

#[test]
fn earliest_declared_ready_step_is_taken_first() {
    // 0 waits for 3; 1 and 2 are free; 4 waits for 1. After 1 and 2, step 3
    // frees step 0, which then goes before step 4.
    let s = orchestration(vec![
        step("s0", &["s3"]),
        step("s1", &[]),
        step("s2", &[]),
        step("s3", &[]),
        step("s4", &["s1"]),
    ]);
    assert_eq!(s.generate_orchestrations(), Ok(vec![1, 2, 3, 0, 4]));
}

#[test]
fn every_dependency_stands_before_its_dependents() {
    let steps = vec![
        step("publish", &["test-api", "test-web"]),
        step("test-web", &["build-web"]),
        step("test-api", &["build-api"]),
        step("build-web", &["lint"]),
        step("build-api", &["lint"]),
        step("lint", &[]),
        step("notify", &["publish"]),
    ];
    let s = orchestration(steps);
    let order = s.generate_orchestrations().expect("the steps have no cycle");
    assert_eq!(order, vec![5, 3, 1, 4, 2, 0, 6]);
    for (b, step) in s.steps.iter().enumerate() {
        for dep in step.depends_on.iter().flatten() {
            let a = find_step(&s.steps, dep).expect("every dependency resolves");
            assert!(place(&order, a) < place(&order, b));
        }
    }
}

#[test]
fn same_spec_gives_same_order() {
    let make = || {
        orchestration(vec![
            step("d", &["b", "c"]),
            step("c", &["a"]),
            step("b", &["a"]),
            step("a", &[]),
        ])
    };
    let first = make().generate_orchestrations();
    let second = make().generate_orchestrations();
    assert_eq!(first, second);
    assert_eq!(first, Ok(vec![3, 1, 2, 0]));
}

#[test]
fn repeated_dependency_is_harmless() {
    let s = orchestration(vec![step("A", &[]), step("B", &["A", "A"])]);
    let graph = build(&s).expect("the steps are sound");
    assert_eq!(graph.edges(), vec![(0, 1), (0, 1)]);
    assert_eq!(sort(&graph), Ok(vec![0, 1]));
}

#[test]
fn find_step_gives_the_first_step_of_a_name() {
    let steps = vec![step("A", &[]), step("B", &[]), step("A", &[])];
    assert_eq!(find_step(&steps, &"A".to_string()), Some(0));
    assert_eq!(find_step(&steps, &"B".to_string()), Some(1));
    assert_eq!(find_step(&steps, &"C".to_string()), None);
}

#[test]
fn new_step_has_no_dependencies() {
    let s = OrchestrationStep::new(
        "A".to_string(),
        "acme".to_string(),
        "site".to_string(),
        "deploy.yml".to_string(),
    );
    assert_eq!(s.name, "A");
    assert_eq!(s.owner, "acme");
    assert_eq!(s.repo, "site");
    assert_eq!(s.workflow_id, "deploy.yml");
    assert_eq!(s.description, None);
    assert_eq!(s.args, None);
    assert_eq!(s.depends_on, None);
    assert_eq!(s.dependency_count(), 0);
    let later = s.after(vec!["B".to_string(), "C".to_string()]);
    assert_eq!(later.depends_on, Some(vec!["B".to_string(), "C".to_string()]));
    assert_eq!(later.dependency_count(), 2);
    assert_eq!(later.name, "A");
}
