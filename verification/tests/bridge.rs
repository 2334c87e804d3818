use interface::bridge::{bridge_endpoint, bridge_startup, request_route, BridgeError, BridgeRequest};

#[test]
fn startup_without_map_only_subscribes() {
    let s = bridge_startup("");
    assert_eq!(s.subscriptions.len(), 2);
    match &s.subscriptions[0] {
        BridgeRequest::Subscribe { topic, msg_type } => {
            assert_eq!(topic, "/plan");
            assert_eq!(msg_type, "nav_msgs/msg/Path");
        }
        _ => panic!("expected a subscription"),
    }
    match &s.subscriptions[1] {
        BridgeRequest::Subscribe { topic, msg_type } => {
            assert_eq!(topic, "/planner_log");
            assert_eq!(msg_type, "std_msgs/msg/String");
        }
        _ => panic!("expected a subscription"),
    }
    assert!(s.map_requests.is_empty());
}

#[test]
fn startup_with_map_loads_it() {
    let s = bridge_startup("lab.yaml");
    assert_eq!(s.map_requests.len(), 2);
    match &s.map_requests[0] {
        BridgeRequest::LoadMap { map_url } => assert_eq!(map_url, "/workspace/src/navigation/maps/lab.yaml"),
        _ => panic!("expected a map load"),
    }
    assert!(matches!(s.map_requests[1], BridgeRequest::ClearGlobalCostmap));
}

#[test]
fn default_endpoint_is_normalized() {
    assert_eq!(bridge_endpoint(None), Ok("ws://127.0.0.1:9090/".to_string()));
    assert_eq!(
        bridge_endpoint(Some("WS://Robot.local:9090/bridge".to_string())),
        Ok("ws://robot.local:9090/bridge".to_string())
    );
}

#[test]
fn invalid_endpoint_is_refused() {
    assert_eq!(bridge_endpoint(Some("not a url".to_string())), Err(BridgeError::InvalidUrl));
    assert_eq!(bridge_endpoint(Some(String::new())), Err(BridgeError::InvalidUrl));
}

#[test]
fn routes_of_requests() {
    let sub = BridgeRequest::Subscribe { topic: "/plan".to_string(), msg_type: "x".to_string() };
    assert_eq!(request_route(&sub), ("subscribe".to_string(), "/plan".to_string()));
    assert_eq!(
        request_route(&BridgeRequest::ClearGlobalCostmap),
        ("call_service".to_string(), "/global_costmap/clear_entirely_global_costmap".to_string())
    );
    assert_eq!(
        request_route(&BridgeRequest::CancelGoal),
        ("call_service".to_string(), "/compute_path_to_pose/_action/cancel_goal".to_string())
    );
    assert_eq!(
        request_route(&BridgeRequest::LoadMap { map_url: "m".to_string() }),
        ("call_service".to_string(), "/map_server/load_map".to_string())
    );
}
