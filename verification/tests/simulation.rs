use interface::bridge::BridgeRequest;
use interface::simulation::{
    apply_bridge_message, apply_click, end_session, loading_tick, path_overlay, reset_simulation,
    BridgeMessage, Click, PlannerLog, Point, SimulationState, StepLog, HISTORY_CAP,
    LOADING_DELAY_NANOS, SYSTEM_LOG_CAP,
};
use interface::states::AppState;

fn pt(x: f32, y: f32) -> Point {
    Point { x_bits: x.to_bits(), y_bits: y.to_bits() }
}

fn step(i: i64) -> StepLog {
    StepLog { index: i, f_bits: 1.0f64.to_bits(), g_bits: 2.0f64.to_bits(), h_bits: 3.0f64.to_bits() }
}

fn plan(poses: Vec<Option<Point>>) -> BridgeMessage {
    BridgeMessage {
        op: "publish".to_string(),
        topic: "/plan".to_string(),
        poses: Some(poses),
        log_data: None,
        log_step: None,
    }
}

fn log_text(text: &str, parsed: Option<StepLog>) -> BridgeMessage {
    BridgeMessage {
        op: "publish".to_string(),
        topic: "/planner_log".to_string(),
        poses: None,
        log_data: Some(text.to_string()),
        log_step: parsed,
    }
}

fn click(left: bool, right: bool, middle: bool, fine: Point, coarse: Point, hits: Vec<bool>) -> Click {
    Click { left, right, middle, fine, coarse, hits }
}

#[test]
fn default_state() {
    let s = SimulationState::default();
    assert!(s.obstacles.is_empty() && s.path.is_empty());
    assert_eq!(s.selected_algorithm, "AStar");
    assert!(s.start_pos.is_none() && s.goal_pos.is_none());
    assert!(!s.is_calculating);
    assert_eq!(s.calc_elapsed_nanos, 0);
}

#[test]
fn plan_replaces_path_and_snaps_last_point_to_goal() {
    let mut s = SimulationState::default();
    s.goal_pos = Some(pt(2.0, 2.0));
    s.is_calculating = true;
    s.path.push(pt(9.0, 9.0));
    let mut log = PlannerLog::default();
    apply_bridge_message(&mut s, &mut log, &plan(vec![Some(pt(0.0, 0.0)), None, Some(pt(1.9, 2.1))]));
    assert_eq!(s.path, vec![pt(0.0, 0.0), pt(2.0, 2.0)]);
    assert!(!s.is_calculating);
    assert_eq!(log.system_logs, vec!["[INFO] Path found! Nodes: 3".to_string()]);
}

#[test]
fn plan_without_goal_keeps_points() {
    let mut s = SimulationState::default();
    let mut log = PlannerLog::default();
    let poses: Vec<Option<Point>> = (0..12).map(|i| Some(pt(i as f32, 0.0))).collect();
    apply_bridge_message(&mut s, &mut log, &plan(poses));
    assert_eq!(s.path.len(), 12);
    assert_eq!(s.path[11], pt(11.0, 0.0));
    assert_eq!(log.system_logs[0], "[INFO] Path found! Nodes: 12");
}

#[test]
fn step_history_is_capped() {
    let mut s = SimulationState::default();
    let mut log = PlannerLog::default();
    for i in 0..(HISTORY_CAP as i64 + 5) {
        apply_bridge_message(&mut s, &mut log, &log_text("{}", Some(step(i))));
    }
    assert_eq!(log.history.len(), HISTORY_CAP);
    assert_eq!(log.history[0].index, 5);
    assert_eq!(log.history[HISTORY_CAP - 1].index, HISTORY_CAP as i64 + 4);
    assert!(log.system_logs.is_empty());
}

#[test]
fn planner_texts_are_capped_and_errors_stop_waiting() {
    let mut s = SimulationState::default();
    s.is_calculating = true;
    let mut log = PlannerLog::default();
    for i in 0..20 {
        apply_bridge_message(&mut s, &mut log, &log_text(&format!("line {}", i), None));
    }
    assert_eq!(log.system_logs.len(), SYSTEM_LOG_CAP);
    assert_eq!(log.system_logs[0], "line 5");
    assert!(s.is_calculating);
    apply_bridge_message(&mut s, &mut log, &log_text("Planning failed", None));
    assert!(!s.is_calculating);
    s.is_calculating = true;
    apply_bridge_message(&mut s, &mut log, &log_text("Gagal mencari jalur", None));
    assert!(!s.is_calculating);
    s.is_calculating = true;
    apply_bridge_message(&mut s, &mut log, &log_text("abort (lower case)", None));
    assert!(s.is_calculating);
}

#[test]
fn other_messages_change_nothing() {
    let mut s = SimulationState::default();
    let mut log = PlannerLog::default();
    let mut m = plan(vec![Some(pt(1.0, 1.0))]);
    m.op = "subscribe".to_string();
    apply_bridge_message(&mut s, &mut log, &m);
    let mut m2 = plan(vec![Some(pt(1.0, 1.0))]);
    m2.topic = "/other".to_string();
    apply_bridge_message(&mut s, &mut log, &m2);
    let mut m3 = log_text("x", None);
    m3.log_data = None;
    apply_bridge_message(&mut s, &mut log, &m3);
    assert!(s.path.is_empty());
    assert!(log.system_logs.is_empty() && log.history.is_empty());
}

#[test]
fn clicks_set_goal_start_and_toggle_obstacles() {
    let mut s = SimulationState::default();
    let mut log = PlannerLog::default();
    log.history.push(step(1));
    let r = apply_click(&mut s, &mut log, &click(false, true, false, pt(1.0, 1.0), pt(1.0, 1.0), vec![]));
    assert!(r.is_none());
    assert_eq!(s.goal_pos, Some(pt(1.0, 1.0)));
    assert!(log.history.is_empty());
    let r = apply_click(&mut s, &mut log, &click(true, false, false, pt(0.55, 0.5), pt(0.5, 0.5), vec![]));
    assert!(r.is_none());
    assert_eq!(s.obstacles, vec![pt(0.5, 0.5)]);
    let r = apply_click(&mut s, &mut log, &click(false, false, true, pt(-1.0, 0.0), pt(-1.0, 0.0), vec![false]));
    let req = r.expect("start and goal are set");
    assert_eq!(req.start, pt(-1.0, 0.0));
    assert_eq!(req.goal, pt(1.0, 1.0));
    assert_eq!(req.algorithm, "AStar");
    assert_eq!(req.obstacles, vec![pt(0.5, 0.5)]);
    assert!(s.is_calculating);
    assert_eq!(log.system_logs, vec!["[INFO] Calculating new path...".to_string()]);
    let req = apply_click(&mut s, &mut log, &click(true, false, false, pt(0.5, 0.5), pt(0.5, 0.5), vec![true]))
        .expect("still both set");
    assert!(s.obstacles.is_empty());
    assert!(req.obstacles.is_empty());
}

#[test]
fn right_button_wins_over_others() {
    let mut s = SimulationState::default();
    let mut log = PlannerLog::default();
    apply_click(&mut s, &mut log, &click(true, true, true, pt(3.0, 3.0), pt(3.0, 3.0), vec![]));
    assert_eq!(s.goal_pos, Some(pt(3.0, 3.0)));
    assert!(s.start_pos.is_none() && s.obstacles.is_empty());
}

#[test]
fn no_button_changes_nothing() {
    let mut s = SimulationState::default();
    s.path.push(pt(1.0, 1.0));
    let mut log = PlannerLog::default();
    log.history.push(step(0));
    assert!(apply_click(&mut s, &mut log, &click(false, false, false, pt(0.0, 0.0), pt(0.0, 0.0), vec![])).is_none());
    assert_eq!(s.path.len(), 1);
    assert_eq!(log.history.len(), 1);
}

#[test]
fn ucs_is_requested_as_dijkstra() {
    let mut s = SimulationState::default();
    s.selected_algorithm = "UCS".to_string();
    s.start_pos = Some(pt(0.0, 0.0));
    let mut log = PlannerLog::default();
    let req = apply_click(&mut s, &mut log, &click(false, true, false, pt(1.0, 0.0), pt(1.0, 0.0), vec![])).unwrap();
    assert_eq!(req.algorithm, "Dijkstra");
    s.selected_algorithm = "GBFS".to_string();
    let req = apply_click(&mut s, &mut log, &click(false, true, false, pt(1.0, 0.0), pt(1.0, 0.0), vec![])).unwrap();
    assert_eq!(req.algorithm, "GBFS");
}

#[test]
fn reset_clears_everything_but_the_algorithm() {
    let mut s = SimulationState::default();
    s.selected_algorithm = "GBFS".to_string();
    s.obstacles.push(pt(1.0, 1.0));
    s.start_pos = Some(pt(0.0, 0.0));
    s.is_calculating = true;
    s.calc_elapsed_nanos = 7;
    let mut log = PlannerLog::default();
    log.history.push(step(0));
    log.system_logs.push("x".to_string());
    let r = reset_simulation(&mut s, &mut log);
    assert!(matches!(r, BridgeRequest::ClearGlobalCostmap));
    assert!(s.obstacles.is_empty() && s.start_pos.is_none() && !s.is_calculating);
    assert_eq!(s.calc_elapsed_nanos, 0);
    assert_eq!(s.selected_algorithm, "GBFS");
    assert!(log.history.is_empty());
    assert_eq!(log.system_logs, vec!["[INFO] System Reset. Global Costmap Cleared.".to_string()]);
}

#[test]
fn end_session_cancels_only_when_connected() {
    let mut s = SimulationState::default();
    let mut log = PlannerLog::default();
    log.system_logs.push("x".to_string());
    assert!(matches!(end_session(&mut s, &mut log, true), Some(BridgeRequest::CancelGoal)));
    assert!(log.system_logs.is_empty());
    assert!(end_session(&mut s, &mut log, false).is_none());
}

#[test]
fn timer_counts_only_while_waiting() {
    let mut s = SimulationState::default();
    s.update_timer(10);
    assert_eq!(s.calc_elapsed_nanos, 0);
    s.is_calculating = true;
    s.update_timer(10);
    s.update_timer(5);
    assert_eq!(s.calc_elapsed_nanos, 15);
    s.update_timer(u64::MAX);
    assert_eq!(s.calc_elapsed_nanos, u64::MAX);
}

#[test]
fn loading_screen_moves_on_after_delay() {
    let mut waited = 0u64;
    let mut next = None;
    loading_tick(&mut waited, LOADING_DELAY_NANOS, &mut next);
    assert_eq!(next, None);
    assert_eq!(waited, LOADING_DELAY_NANOS);
    loading_tick(&mut waited, 1, &mut next);
    assert_eq!(next, Some(AppState::Sim2DRun));
    assert_eq!(waited, 0);
}

#[test]
fn overlay_joins_points_and_goal() {
    let mut s = SimulationState::default();
    let o = path_overlay(&s);
    assert!(o.segments.is_empty() && o.waypoints.is_empty());
    s.path = vec![pt(0.0, 0.0), pt(1.0, 0.0), pt(2.0, 0.0)];
    s.goal_pos = Some(pt(2.0, 1.0));
    let o = path_overlay(&s);
    assert_eq!(o.segments, vec![(pt(0.0, 0.0), pt(1.0, 0.0)), (pt(1.0, 0.0), pt(2.0, 0.0)), (pt(2.0, 0.0), pt(2.0, 1.0))]);
    assert_eq!(o.waypoints, vec![pt(1.0, 0.0)]);
    s.path.truncate(1);
    let o = path_overlay(&s);
    assert_eq!(o.segments, vec![(pt(0.0, 0.0), pt(2.0, 1.0))]);
    assert!(o.waypoints.is_empty());
}

#[test]
fn obstacle_added_then_removed_restores_scene() {
    let mut s = SimulationState::default();
    s.obstacles = vec![pt(1.0, 1.0), pt(2.0, 2.0)];
    let before = s.obstacles.clone();
    let mut log = PlannerLog::default();
    apply_click(&mut s, &mut log, &click(true, false, false, pt(0.0, 0.0), pt(0.0, 0.0), vec![false, false]));
    assert_eq!(s.obstacles.len(), 3);
    apply_click(&mut s, &mut log, &click(true, false, false, pt(0.05, 0.0), pt(0.0, 0.0), vec![false, false, true]));
    assert_eq!(s.obstacles, before);
}
