use yushi::engine::{compute_next_cron_match, cron_condition_holds, next_cron_match_at, text_condition, count_conditions, CommandOutcome, RuleCommand, RuleEngine};
use yushi::rule::{Condition, ConditionGroup, MatchMode, Op, Rule, RulePatch};

fn rule(id: &str, source: &str) -> Rule {
    Rule::new(id.to_string(), "n".to_string(), source.to_string(), "m".to_string())
}

fn cond(op: Op, value: &str, dur: Option<u32>) -> Condition {
    Condition { field: "f".to_string(), op, value: value.to_string(), duration_seconds: dur }
}

#[test]
fn test_compute_next_cron_match() {
    let mut every_minute = rule("c", "clock");
    every_minute.conditions.push(cond(Op::CronMatch, "* * * * *", None));
    assert!(compute_next_cron_match(&every_minute).is_some());
    let mut invalid = rule("c", "clock");
    invalid.conditions.push(cond(Op::CronMatch, "invalid", None));
    assert!(compute_next_cron_match(&invalid).is_none());
}

#[test]
fn commands_add_update_remove_run() {
    let mut e = RuleEngine::new();
    assert!(matches!(e.handle_command(RuleCommand::Add(rule("r1", "sensor"))), CommandOutcome::Reply(Ok(()))));
    match e.handle_command(RuleCommand::Update("nope".to_string(), RulePatch::new())) {
        CommandOutcome::Reply(Err(m)) => assert_eq!(m, "Rule not found: nope"),
        other => panic!("unexpected {:?}", other),
    }
    let patch = RulePatch { name: Some("x".to_string()), ..Default::default() };
    assert!(matches!(e.handle_command(RuleCommand::Update("r1".to_string(), patch)), CommandOutcome::Reply(Ok(()))));
    match e.handle_command(RuleCommand::RunNow("r1".to_string())) {
        CommandOutcome::Execute(req) => {
            assert_eq!(req.trigger_source, "manual");
            assert_eq!(req.context, Some("手动触发".to_string()));
            assert_eq!(req.rule_name, "x");
        },
        other => panic!("unexpected {:?}", other),
    }
    match e.handle_command(RuleCommand::RunNow("r1".to_string())) {
        CommandOutcome::RunRefused(m) => assert_eq!(m, "Rule r1 is already running"),
        other => panic!("unexpected {:?}", other),
    }
    e.finish_run("r1");
    assert!(!e.is_running("r1"));
    assert!(matches!(e.handle_command(RuleCommand::Remove("r1".to_string())), CommandOutcome::Reply(Ok(()))));
    match e.handle_command(RuleCommand::List) {
        CommandOutcome::Rules(v) => assert!(v.is_empty()),
        other => panic!("unexpected {:?}", other),
    }
    assert!(matches!(e.handle_command(RuleCommand::Shutdown), CommandOutcome::Shutdown));
}

#[test]
fn durations_must_hold() {
    let mut e = RuleEngine::new();
    let mut r = rule("r", "s");
    r.conditions.push(cond(Op::Gt, "1", Some(10)));
    e.add_rule(r.clone());
    assert_eq!(count_conditions(&r), 1);
    assert!(!e.evaluate_rule(&r, &vec![true], 0));
    assert!(!e.evaluate_rule(&r, &vec![true], 5_000));
    assert!(e.evaluate_rule(&r, &vec![true], 10_000));
    assert!(!e.evaluate_rule(&r, &vec![false], 11_000));
    assert!(!e.evaluate_rule(&r, &vec![true], 12_000));
}

#[test]
fn groups_combine_by_mode() {
    let mut e = RuleEngine::new();
    let mut r = rule("r", "s");
    r.match_mode = MatchMode::Any;
    r.conditions.push(cond(Op::Eq, "1", None));
    r.groups.push(ConditionGroup { match_mode: MatchMode::All, conditions: vec![cond(Op::Eq, "a", None), cond(Op::Eq, "b", None)], groups: vec![] });
    e.add_rule(r.clone());
    assert_eq!(count_conditions(&r), 3);
    assert!(!e.evaluate_rule(&r, &vec![false, true, false], 0));
    assert!(e.evaluate_rule(&r, &vec![false, true, true], 0));
    assert!(e.evaluate_rule(&r, &vec![true, false, false], 0));
    let ids = e.matching_rules("s");
    assert_eq!(ids, vec!["r".to_string()]);
    assert!(e.matching_rules("t").is_empty());
}

#[test]
fn clock_rules_wake_and_run() {
    let mut e = RuleEngine::new();
    let mut r = rule("c", "clock");
    r.conditions.push(cond(Op::CronMatch, "* * * * *", None));
    e.add_rule_with(r, Some(500));
    assert_eq!(e.compute_next_clock_wake(), Some(500));
    assert!(e.due_clock_rules(499).is_empty());
    assert_eq!(e.due_clock_rules(500), vec!["c".to_string()]);
    let req = e.begin_clock_run("c", "t".to_string()).unwrap();
    assert_eq!(req.trigger_source, "clock");
    assert!(e.begin_clock_run("c", "t".to_string()).is_none());
    e.finish_clock_run_with("c", Some(900));
    assert_eq!(e.compute_next_clock_wake(), Some(900));
    let plan = yushi::storage::PlanStatus { exists: false, path: String::new(), created_at_ms: None, steps_count: 0 };
    let st = e.status(&vec![plan], &vec![None]);
    assert_eq!(st.total_rules, 1);
    assert_eq!(st.enabled_rules, 1);
    assert_eq!(st.next_clock_wake_ms, Some(900));
    assert!(st.rules[0].plan.is_none());
}

#[test]
fn next_cron_match_from_a_given_time() {
    let mut every_minute = rule("c", "clock");
    every_minute.conditions.push(cond(Op::CronMatch, "* * * * *", None));
    assert_eq!(next_cron_match_at(&every_minute, 0), Some(60_000));
    assert_eq!(next_cron_match_at(&every_minute, 60_500), Some(120_000));
    let mut hourly = rule("h", "clock");
    hourly.conditions.push(cond(Op::CronMatch, "0 * * * *", None));
    assert_eq!(next_cron_match_at(&hourly, 1_000), Some(3_600_000));
    assert_eq!(next_cron_match_at(&rule("s", "sensor"), 0), None);
}

#[test]
fn text_conditions() {
    assert!(text_condition(Op::Eq, "on", "on"));
    assert!(!text_condition(Op::Eq, "on", "off"));
    assert!(text_condition(Op::Ne, "on", "off"));
    assert!(text_condition(Op::Contains, "temperature high", "high"));
    assert!(!text_condition(Op::Contains, "low", "high"));
    assert!(!text_condition(Op::Gt, "b", "a"));
}

#[test]
fn removing_an_unknown_rule_leaves_no_state_for_it() {
    let mut e = RuleEngine::new();
    e.handle_command(RuleCommand::Add(rule("r1", "sensor")));
    match e.handle_command(RuleCommand::Remove("r1".to_string())) {
        CommandOutcome::Reply(Ok(())) => {},
        other => panic!("unexpected {:?}", other),
    }
    assert!(e.eval_states.iter().all(|s| s.rule_id != "r1"));
    match e.handle_command(RuleCommand::Remove("r1".to_string())) {
        CommandOutcome::Reply(Err(m)) => assert_eq!(m, "Rule not found: r1"),
        other => panic!("unexpected {:?}", other),
    }
}

#[test]
fn cron_conditions_hold_within_a_minute() {
    assert!(cron_condition_holds("* * * * *", 0));
    assert!(cron_condition_holds("* * * * *", 30_500));
    assert!(cron_condition_holds("0 0 1 1 *", 0));
    assert!(!cron_condition_holds("0 0 1 1 *", 864_000_000));
    assert!(!cron_condition_holds("not a cron", 0));
}
