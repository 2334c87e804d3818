use interface::navigation::{pop_state, push_state, NavStack};
use interface::states::AppState;

#[test]
fn push_then_pop_returns_to_previous_screen() {
    let mut nav = NavStack::default();
    let mut next = None;
    push_state(AppState::MainMenu, AppState::AlgorithmSelection2D, &mut next, &mut nav);
    assert_eq!(next, Some(AppState::AlgorithmSelection2D));
    assert_eq!(nav.history, vec![AppState::MainMenu]);
    pop_state(&mut next, &mut nav);
    assert_eq!(next, Some(AppState::MainMenu));
    assert!(nav.history.is_empty());
}

#[test]
fn pop_on_empty_history_changes_nothing() {
    let mut nav = NavStack::new();
    let mut next = Some(AppState::Sim2DRun);
    pop_state(&mut next, &mut nav);
    assert_eq!(next, Some(AppState::Sim2DRun));
    assert!(nav.history.is_empty());
    let mut none = None;
    pop_state(&mut none, &mut nav);
    assert_eq!(none, None);
}

#[test]
fn nested_navigation_unwinds_in_order() {
    let mut nav = NavStack::new();
    let mut next = None;
    push_state(AppState::MainMenu, AppState::AlgorithmSelection2D, &mut next, &mut nav);
    push_state(AppState::AlgorithmSelection2D, AppState::Sim2DLoading, &mut next, &mut nav);
    assert_eq!(nav.history.len(), 2);
    pop_state(&mut next, &mut nav);
    assert_eq!(next, Some(AppState::AlgorithmSelection2D));
    pop_state(&mut next, &mut nav);
    assert_eq!(next, Some(AppState::MainMenu));
    assert_eq!(AppState::default(), AppState::MainMenu);
}
