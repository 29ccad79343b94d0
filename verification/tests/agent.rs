use codexu::core_agent::{Executor, Planner, Reporter, Validator};

#[test]
fn executor_reports_the_step() {
    assert_eq!(Executor.execute_step("Entender tarefa").unwrap(), "execução mock: Entender tarefa");
}

#[test]
fn plans_have_three_pending_steps() {
    let plan = Planner::default().create_plan("corrigir o login");
    assert_eq!(plan.goal, "corrigir o login");
    let ids: Vec<usize> = plan.steps.iter().map(|s| s.id).collect();
    assert_eq!(ids, vec![1, 2, 3]);
    let titles: Vec<&str> = plan.steps.iter().map(|s| s.title.as_str()).collect();
    assert_eq!(titles, vec!["Entender tarefa", "Propor alteração em diff", "Validar e reportar"]);
    assert!(plan.steps.iter().all(|s| s.status == "pending"));
}

#[test]
fn summary_joins_lines() {
    let items = vec!["a".to_string(), "b".to_string(), "c".to_string()];
    let summary = Reporter::summarize(&items);
    assert_eq!(summary, "a\nb\nc");
    assert_eq!(summary.lines().collect::<Vec<_>>(), vec!["a", "b", "c"]);
    assert_eq!(Reporter::summarize(&[]), "");
}

#[test]
fn validator_reports_no_checks() {
    assert_eq!(Validator.run().unwrap(), vec!["validator mock: sem checks neste milestone"]);
}

#[test]
fn summary_splits_back_on_line_feeds() {
    for items in [vec!["", "x", ""], vec!["a\r", "b"], vec![""], vec!["one", "two", "three"]] {
        let items: Vec<String> = items.into_iter().map(String::from).collect();
        let summary = Reporter::summarize(&items);
        assert_eq!(summary.split('\n').map(String::from).collect::<Vec<_>>(), items);
    }
}
