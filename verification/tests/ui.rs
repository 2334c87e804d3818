use interface::simulation::{PlannerLog, SimulationState, StepLog};
use interface::states::AppState;
use interface::ui::{log_panel, main_menu_target, map_image_path, select_files, MenuAction};

fn step(i: i64) -> StepLog {
    StepLog { index: i, f_bits: 10.0f64.to_bits(), g_bits: 4.0f64.to_bits(), h_bits: 6.0f64.to_bits() }
}

#[test]
fn main_menu_buttons() {
    assert_eq!(main_menu_target(MenuAction::Play2D), AppState::AlgorithmSelection2D);
    assert_eq!(main_menu_target(MenuAction::Play3D), AppState::AlgorithmSelection3D);
}

#[test]
fn panel_columns_follow_algorithm() {
    let s = SimulationState::default();
    let mut log = PlannerLog::default();
    log.history.push(step(1));
    log.history.push(step(2));
    let p = log_panel(&s, &log, "AStar");
    let rows = p.rows.unwrap();
    assert_eq!(rows.len(), 2);
    assert_eq!(rows[0].index, 2);
    assert_eq!(rows[1].index, 1);
    assert_eq!(rows[0].g_bits, Some(4.0f64.to_bits()));
    assert_eq!(rows[0].h_bits, Some(6.0f64.to_bits()));
    let rows = log_panel(&s, &log, "Dijkstra").rows.unwrap();
    assert!(rows[0].g_bits.is_some() && rows[0].h_bits.is_none());
    let rows = log_panel(&s, &log, "UCS").rows.unwrap();
    assert!(rows[0].g_bits.is_some() && rows[0].h_bits.is_none());
    let rows = log_panel(&s, &log, "GBFS").rows.unwrap();
    assert!(rows[0].g_bits.is_none() && rows[0].h_bits.is_some());
    let rows = log_panel(&s, &log, "BFS").rows.unwrap();
    assert!(rows[0].g_bits.is_none() && rows[0].h_bits.is_none());
    assert_eq!(rows[0].f_bits, 10.0f64.to_bits());
    assert!(p.standby);
}

#[test]
fn panel_waits_when_idle() {
    let mut s = SimulationState::default();
    let mut log = PlannerLog::default();
    log.system_logs.push("x".to_string());
    let p = log_panel(&s, &log, "AStar");
    assert!(p.rows.is_none() && !p.standby && !p.show_progress);
    s.is_calculating = true;
    let p = log_panel(&s, &log, "AStar");
    assert!(p.show_progress);
    assert_eq!(p.rows.map(|r| r.len()), Some(0));
}

#[test]
fn map_images() {
    assert_eq!(map_image_path(""), None);
    assert_eq!(map_image_path("lab.yaml"), Some("Test/maps/lab.png".to_string()));
    assert_eq!(map_image_path("a.yaml.yaml"), Some("Test/maps/a.png.png".to_string()));
    assert_eq!(map_image_path("plain"), Some("Test/maps/plain".to_string()));
}

#[test]
fn files_are_filtered_and_sorted() {
    let names: Vec<String> = ["zeta.urdf", "b.yaml", "alpha.urdf", "Beta.urdf", "notes.txt", "alpha.urdf.bak", "é.urdf", "a.urdf"]
        .iter()
        .map(|s| s.to_string())
        .collect();
    let r = select_files(&names, ".urdf");
    let mut expected: Vec<String> = names.iter().filter(|n| n.ends_with(".urdf")).cloned().collect();
    expected.sort();
    assert_eq!(r, expected);
    assert_eq!(r, vec!["Beta.urdf", "a.urdf", "alpha.urdf", "zeta.urdf", "é.urdf"]);
    assert!(select_files(&Vec::new(), ".yaml").is_empty());
}
