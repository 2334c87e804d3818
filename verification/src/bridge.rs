use vstd::prelude::*;
use crate::nav2_params::{docker_map_path, docker_map_path_spec};
use crate::simulation::PlanRequest;

verus! {

/// A request to the robot bridge.
pub enum BridgeRequest {
    /// Subscribe to `topic`, whose messages are of type `msg_type`.
    Subscribe { topic: String, msg_type: String },
    /// Have the map server load the map at `map_url`.
    LoadMap { map_url: String },
    /// Clear the global cost map.
    ClearGlobalCostmap,
    /// Cancel the goal the planner is working on.
    CancelGoal,
    /// Publish a planning request to the planner.
    PublishPlan(PlanRequest),
}

/// The bridge operation a request is and the topic or service it addresses.
pub open spec fn route(r: BridgeRequest) -> (Seq<char>, Seq<char>) {
    match r {
        BridgeRequest::Subscribe { topic, .. } => ("subscribe"@, topic@),
        BridgeRequest::LoadMap { .. } => ("call_service"@, "/map_server/load_map"@),
        BridgeRequest::ClearGlobalCostmap => (
            "call_service"@,
            "/global_costmap/clear_entirely_global_costmap"@,
        ),
        BridgeRequest::CancelGoal => ("call_service"@, "/compute_path_to_pose/_action/cancel_goal"@),
        BridgeRequest::PublishPlan(_) => ("publish"@, "/frontend/obstacles"@),
    }
}

/// The bridge operation (`op`) of `r` and the topic or service it addresses.
pub fn request_route(r: &BridgeRequest) -> (out: (String, String))
    ensures
        (out.0@, out.1@) == route(*r),
{
    match r {
        BridgeRequest::Subscribe { topic, .. } => (String::from_str("subscribe"), topic.clone()),
        BridgeRequest::LoadMap { .. } => (
            String::from_str("call_service"),
            String::from_str("/map_server/load_map"),
        ),
        BridgeRequest::ClearGlobalCostmap => (
            String::from_str("call_service"),
            String::from_str("/global_costmap/clear_entirely_global_costmap"),
        ),
        BridgeRequest::CancelGoal => (
            String::from_str("call_service"),
            String::from_str("/compute_path_to_pose/_action/cancel_goal"),
        ),
        BridgeRequest::PublishPlan(_) => (
            String::from_str("publish"),
            String::from_str("/frontend/obstacles"),
        ),
    }
}

/// `r` subscribes to `topic` with messages of type `msg_type`.
pub open spec fn is_subscription(r: BridgeRequest, topic: Seq<char>, msg_type: Seq<char>) -> bool {
    r matches BridgeRequest::Subscribe { topic: t, msg_type: m } && t@ == topic && m@ == msg_type
}

/// `r` loads the map `map_name` as the planner container sees it.
pub open spec fn is_map_load(r: BridgeRequest, map_name: Seq<char>) -> bool {
    r matches BridgeRequest::LoadMap { map_url } && map_url@ == docker_map_path_spec(map_name)
}

/// The requests sent once the bridge is connected: the subscriptions to the
/// plan and to the planner log, then, after a pause and only when a map was
/// chosen, loading that map and clearing the global cost map.
pub struct BridgeStartup {
    pub subscriptions: Vec<BridgeRequest>,
    pub map_requests: Vec<BridgeRequest>,
}

pub fn bridge_startup(map_name: &str) -> (s: BridgeStartup)
    ensures
        s.subscriptions@.len() == 2,
        is_subscription(s.subscriptions@[0], "/plan"@, "nav_msgs/msg/Path"@),
        is_subscription(s.subscriptions@[1], "/planner_log"@, "std_msgs/msg/String"@),
        map_name@.len() == 0 ==> s.map_requests@.len() == 0,
        map_name@.len() > 0 ==> {
            &&& s.map_requests@.len() == 2
            &&& is_map_load(s.map_requests@[0], map_name@)
            &&& s.map_requests@[1] is ClearGlobalCostmap
        },
{
    let mut subscriptions: Vec<BridgeRequest> = Vec::new();
    subscriptions.push(
        BridgeRequest::Subscribe {
            topic: String::from_str("/plan"),
            msg_type: String::from_str("nav_msgs/msg/Path"),
        },
    );
    subscriptions.push(
        BridgeRequest::Subscribe {
            topic: String::from_str("/planner_log"),
            msg_type: String::from_str("std_msgs/msg/String"),
        },
    );
    let mut map_requests: Vec<BridgeRequest> = Vec::new();
    if !map_name.is_empty() {
        map_requests.push(BridgeRequest::LoadMap { map_url: docker_map_path(map_name) });
        map_requests.push(BridgeRequest::ClearGlobalCostmap);
    }
    BridgeStartup { subscriptions, map_requests }
}

/// What `url::Url::parse` makes of `input`: the serialization of the parsed
/// URL, or `None` when the input is not an absolute URL.
pub uninterp spec fn url_parsed(input: Seq<char>) -> Option<Seq<char>>;

/// `url::Url::parse`, the result taken by its serialization (`Url::as_str`).
/// Claimed: the result is `url_parsed` of the input, so that the same input
/// always gives the same answer; nothing is claimed about which inputs parse.
#[verifier::external_body]
fn parse_url(input: &str) -> (r: Option<String>)
    ensures
        match r {
            Some(s) => url_parsed(input@) == Some(s@),
            None => url_parsed(input@) is None,
        },
{
    match url::Url::parse(input) {
        Ok(u) => Some(u.as_str().to_string()),
        Err(_) => None,
    }
}

/// Why the bridge cannot be reached.
#[derive(Clone, Copy, PartialEq, Eq, Structural, Debug)]
pub enum BridgeError {
    /// The bridge address is not a valid URL.
    InvalidUrl,
}

/// The bridge address used when none is configured.
pub open spec fn default_bridge_url() -> Seq<char> {
    "ws://127.0.0.1:9090"@
}

/// The address the bridge is reached at: the configured one, or the default,
/// as `url::Url::parse` normalizes it.
pub fn bridge_endpoint(configured: Option<String>) -> (r: Result<String, BridgeError>)
    ensures
        ({
            let input = match configured {
                Some(s) => s@,
                None => default_bridge_url(),
            };
            match r {
                Ok(s) => url_parsed(input) == Some(s@),
                Err(e) => e == BridgeError::InvalidUrl && url_parsed(input) is None,
            }
        }),
{
    let input = match configured {
        Some(s) => s,
        None => String::from_str("ws://127.0.0.1:9090"),
    };
    match parse_url(input.as_str()) {
        Some(s) => Ok(s),
        None => Err(BridgeError::InvalidUrl),
    }
}


/// Where each request goes: subscriptions to their topic; map loading, cost
/// map clearing and goal cancelling to their services; and planning requests
/// to the planner's input topic.
pub proof fn lemma_routes(r: BridgeRequest)
    ensures
        r matches BridgeRequest::Subscribe { topic, .. } ==> route(r) == ("subscribe"@, topic@),
        r is LoadMap ==> route(r) == ("call_service"@, "/map_server/load_map"@),
        r is ClearGlobalCostmap ==> route(r) == (
            "call_service"@,
            "/global_costmap/clear_entirely_global_costmap"@,
        ),
        r is CancelGoal ==> route(r) == ("call_service"@, "/compute_path_to_pose/_action/cancel_goal"@),
        r is PublishPlan ==> route(r) == ("publish"@, "/frontend/obstacles"@),
{
}

} // verus!
