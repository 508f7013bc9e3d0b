use bingo_core::pipeline::{resolve_stage_dependencies, DependencyError, StageDependencies};

fn stage(id: &str, deps: &[&str]) -> StageDependencies {
    StageDependencies { id: id.to_string(), dependencies: deps.iter().map(|d| d.to_string()).collect() }
}

#[test]
fn test_dependencies_resolved_in_order() {
    let stages = vec![stage("c", &["b"]), stage("b", &["a"]), stage("a", &[])];
    assert_eq!(resolve_stage_dependencies(&stages).unwrap(), vec!["a", "b", "c"]);
}

#[test]
fn test_one_pass_resolves_chain_in_order() {
    let stages = vec![stage("a", &[]), stage("b", &["a"]), stage("c", &["a", "b"])];
    assert_eq!(resolve_stage_dependencies(&stages).unwrap(), vec!["a", "b", "c"]);
}

#[test]
fn test_independent_stages_keep_their_order() {
    let stages = vec![stage("x", &[]), stage("y", &[]), stage("z", &["y"])];
    assert_eq!(resolve_stage_dependencies(&stages).unwrap(), vec!["x", "y", "z"]);
    assert!(resolve_stage_dependencies(&Vec::new()).unwrap().is_empty());
}

#[test]
fn test_circular_dependencies() {
    let stages = vec![stage("ok", &[]), stage("a", &["b"]), stage("b", &["a"])];
    match resolve_stage_dependencies(&stages) {
        Err(DependencyError::CircularDependency(ids)) => assert_eq!(ids, vec!["a", "b"]),
        other => panic!("unexpected {:?}", other),
    }
}

#[test]
fn test_missing_dependency() {
    let stages = vec![stage("a", &["missing"])];
    match resolve_stage_dependencies(&stages) {
        Err(DependencyError::CircularDependency(ids)) => assert_eq!(ids, vec!["a"]),
        other => panic!("unexpected {:?}", other),
    }
}

fn reversed_chain(n: usize) -> Vec<StageDependencies> {
    let mut stages = Vec::new();
    for i in (0..n).rev() {
        let id = format!("s{}", i);
        if i == 0 {
            stages.push(StageDependencies { id, dependencies: Vec::new() });
        } else {
            stages.push(StageDependencies { id, dependencies: vec![format!("s{}", i - 1)] });
        }
    }
    stages
}

#[test]
fn test_pass_limit() {
    let order = resolve_stage_dependencies(&reversed_chain(99)).unwrap();
    assert_eq!(order.len(), 99);
    assert_eq!(order[0], "s0");
    assert_eq!(order[98], "s98");
    assert!(matches!(resolve_stage_dependencies(&reversed_chain(100)), Err(DependencyError::MaxIterationsExceeded)));
}

#[test]
fn test_acyclic_stages_with_shared_dependencies_resolve() {
    let stages = vec![
        stage("report", &["gross", "tax"]),
        stage("tax", &["gross"]),
        stage("gross", &["hours", "rate"]),
        stage("rate", &[]),
        stage("hours", &[]),
    ];
    assert_eq!(resolve_stage_dependencies(&stages).unwrap(), vec!["rate", "hours", "gross", "tax", "report"]);
}
