use vstd::prelude::*;
use crate::bridge::BridgeRequest;
use crate::states::AppState;
use crate::text::{
    chars_of, contains, contains_chars, decimal, occurs_at, push_decimal, str_equals, string_of,
};

verus! {

/// A point of the map in metres. Each coordinate is kept as the bit pattern
/// of the single-precision float that the renderer and the planner use, so
/// the library stores and compares points without doing arithmetic on them.
#[derive(Clone, Copy, PartialEq, Eq, Structural, Debug)]
pub struct Point {
    pub x_bits: u32,
    pub y_bits: u32,
}

/// One expansion step that the planner reports: the node's index and its
/// f, g and h costs (bit patterns of double-precision floats).
#[derive(Clone, Copy, PartialEq, Eq, Structural, Debug)]
pub struct StepLog {
    pub index: i64,
    pub f_bits: u64,
    pub g_bits: u64,
    pub h_bits: u64,
}

/// At most this many planner steps are kept.
pub const HISTORY_CAP: usize = 100;

/// A planner text that arrives when this many system lines are kept pushes
/// the oldest one out.
pub const SYSTEM_LOG_CAP: usize = 15;

/// How long the loading screen waits for the planner back end, in nanoseconds.
pub const LOADING_DELAY_NANOS: u64 = 2_500_000_000;

/// The state of the 2D simulation screen.
pub struct SimulationState {
    pub obstacles: Vec<Point>,
    pub path: Vec<Point>,
    pub selected_algorithm: String,
    pub start_pos: Option<Point>,
    pub goal_pos: Option<Point>,
    pub is_calculating: bool,
    /// Time spent waiting for the current plan, in nanoseconds.
    pub calc_elapsed_nanos: u64,
}

/// What the planner has reported: its expansion steps and its text lines.
pub struct PlannerLog {
    pub history: Vec<StepLog>,
    pub system_logs: Vec<String>,
}

/// The texts of a sequence of strings.
pub open spec fn texts(v: Seq<String>) -> Seq<Seq<char>> {
    Seq::new(v.len(), |i: int| v[i]@)
}

pub proof fn lemma_texts_push(v: Seq<String>, s: String)
    ensures
        texts(v.push(s)) == texts(v).push(s@),
{
    assert(texts(v.push(s)) =~= texts(v).push(s@));
}

pub proof fn lemma_texts_drop_first(v: Seq<String>)
    requires
        v.len() > 0,
    ensures
        texts(v.drop_first()) == texts(v).drop_first(),
{
    assert(texts(v.drop_first()) =~= texts(v).drop_first());
}

impl PlannerLog {
    /// The planner's text lines.
    pub open spec fn lines(&self) -> Seq<Seq<char>> {
        texts(self.system_logs@)
    }

    pub fn new() -> (l: PlannerLog)
        ensures
            l.history@ == Seq::<StepLog>::empty(),
            l.lines() == Seq::<Seq<char>>::empty(),
    {
        let l = PlannerLog { history: Vec::new(), system_logs: Vec::new() };
        assert(l.lines() =~= Seq::<Seq<char>>::empty());
        l
    }
}

impl Default for PlannerLog {
    fn default() -> (l: PlannerLog)
        ensures
            l.history@ == Seq::<StepLog>::empty(),
            l.lines() == Seq::<Seq<char>>::empty(),
    {
        PlannerLog::new()
    }
}

impl Default for SimulationState {
    fn default() -> (s: SimulationState)
        ensures
            s.obstacles@ == Seq::<Point>::empty(),
            s.path@ == Seq::<Point>::empty(),
            s.selected_algorithm@ == "AStar"@,
            s.start_pos is None,
            s.goal_pos is None,
            !s.is_calculating,
            s.calc_elapsed_nanos == 0,
    {
        SimulationState {
            obstacles: Vec::new(),
            path: Vec::new(),
            selected_algorithm: String::from_str("AStar"),
            start_pos: None,
            goal_pos: None,
            is_calculating: false,
            calc_elapsed_nanos: 0,
        }
    }
}

impl SimulationState {
    /// Counts the time spent waiting for a plan: while a plan is awaited the
    /// elapsed time grows by `delta_nanos` (stopping at `u64::MAX`).
    pub fn update_timer(&mut self, delta_nanos: u64)
        ensures
            final(self).calc_elapsed_nanos == if old(self).is_calculating {
                if old(self).calc_elapsed_nanos + delta_nanos > u64::MAX {
                    u64::MAX as int
                } else {
                    old(self).calc_elapsed_nanos + delta_nanos
                }
            } else {
                old(self).calc_elapsed_nanos as int
            },
            final(self).obstacles == old(self).obstacles,
            final(self).path == old(self).path,
            final(self).selected_algorithm == old(self).selected_algorithm,
            final(self).start_pos == old(self).start_pos,
            final(self).goal_pos == old(self).goal_pos,
            final(self).is_calculating == old(self).is_calculating,
            path_ends_at_goal(*old(self)) ==> path_ends_at_goal(*final(self)),
    {
        if self.is_calculating {
            self.calc_elapsed_nanos = self.calc_elapsed_nanos.saturating_add(delta_nanos);
        }
    }
}

/// One frame of the loading screen: the waited time grows by `delta_nanos`
/// (stopping at `u64::MAX`); once it is past the delay the simulation screen
/// is requested and the wait starts over.
pub fn loading_tick(waited_nanos: &mut u64, delta_nanos: u64, next_state: &mut Option<AppState>)
    ensures
        ({
            let total = if *old(waited_nanos) + delta_nanos > u64::MAX {
                u64::MAX as int
            } else {
                *old(waited_nanos) + delta_nanos
            };
            if total > LOADING_DELAY_NANOS {
                *final(waited_nanos) == 0 && *final(next_state) == Some(AppState::Sim2DRun)
            } else {
                *final(waited_nanos) == total && *final(next_state) == *old(next_state)
            }
        }),
{
    *waited_nanos = waited_nanos.saturating_add(delta_nanos);
    if *waited_nanos > LOADING_DELAY_NANOS {
        *next_state = Some(AppState::Sim2DRun);
        *waited_nanos = 0;
    }
}


/// The drawn path ends at the goal whenever both are there.
pub open spec fn path_ends_at_goal(s: SimulationState) -> bool {
    s.goal_pos is Some && s.path@.len() > 0 ==> s.path@.last() == s.goal_pos->0
}

/// What a message from the robot bridge holds that the simulation reads.
/// Fields that are missing or of another kind in the message are empty
/// strings or `None`.
pub struct BridgeMessage {
    /// The message's `op`.
    pub op: String,
    /// The message's `topic`.
    pub topic: String,
    /// The `msg.poses` array: for each pose, its `pose.position` when that is
    /// an object.
    pub poses: Option<Vec<Option<Point>>>,
    /// The `msg.data` text.
    pub log_data: Option<String>,
    /// `log_data` read as a planner step record, when it is one.
    pub log_step: Option<StepLog>,
}

/// The path of a plan (see `planned_path`).
pub fn plan_points(poses: &Vec<Option<Point>>, goal: Option<Point>) -> (path: Vec<Point>)
    ensures
        path@ == planned_path(poses@, goal),
{
    let mut path: Vec<Point> = Vec::new();
    let n = poses.len();
    for i in 0..n
        invariant
            n == poses@.len(),
            path@ == pose_points(poses@.take(i as int)),
    {
        assert(poses@.take(i + 1).drop_last() =~= poses@.take(i as int));
        if let Some(p) = poses[i] {
            path.push(p);
        }
    }
    assert(poses@.take(n as int) =~= poses@);
    if path.len() > 0 {
        if let Some(g) = goal {
            let last = path.len() - 1;
            path.set(last, g);
        }
    }
    path
}

/// A published plan.
pub open spec fn is_plan_message(m: BridgeMessage) -> bool {
    &&& m.op@ == "publish"@
    &&& m.topic@ == "/plan"@
    &&& m.poses is Some
}

/// A published planner log entry.
pub open spec fn is_log_message(m: BridgeMessage) -> bool {
    &&& m.op@ == "publish"@
    &&& m.topic@ == "/planner_log"@
    &&& m.log_data is Some
}

/// The positions of the poses that have one, in order.
pub open spec fn pose_points(ps: Seq<Option<Point>>) -> Seq<Point>
    decreases ps.len(),
{
    if ps.len() == 0 {
        seq![]
    } else {
        let rest = pose_points(ps.drop_last());
        match ps.last() {
            Some(p) => rest.push(p),
            None => rest,
        }
    }
}

/// The path drawn for a plan: the poses' positions, the last one replaced by
/// the goal when a goal is set.
pub open spec fn planned_path(ps: Seq<Option<Point>>, goal: Option<Point>) -> Seq<Point> {
    let pts = pose_points(ps);
    if pts.len() > 0 && goal is Some {
        pts.update(pts.len() - 1, goal->0)
    } else {
        pts
    }
}

/// The line logged when a plan of `n` poses arrives.
pub open spec fn path_found_line(n: nat) -> Seq<char> {
    "[INFO] Path found! Nodes: "@ + decimal(n)
}

/// A planner text that reports that planning stopped.
pub open spec fn is_abort_text(t: Seq<char>) -> bool {
    contains(t, "ABORT"@) || contains(t, "failed"@) || contains(t, "Gagal"@) || contains(t, "ERROR"@)
}

/// `s` after one item was added: the oldest item goes when more than `cap` are held.
pub open spec fn capped<T>(s: Seq<T>, cap: nat) -> Seq<T> {
    if s.len() > cap {
        s.drop_first()
    } else {
        s
    }
}

/// The parts of the state that planner messages leave alone.
pub open spec fn same_scene(a: SimulationState, b: SimulationState) -> bool {
    &&& a.obstacles == b.obstacles
    &&& a.selected_algorithm == b.selected_algorithm
    &&& a.start_pos == b.start_pos
    &&& a.goal_pos == b.goal_pos
    &&& a.calc_elapsed_nanos == b.calc_elapsed_nanos
}

fn is_abort(t: &str) -> (b: bool)
    ensures
        b == is_abort_text(t@),
{
    let v = chars_of(t);
    contains_chars(&v, &chars_of("ABORT")) || contains_chars(&v, &chars_of("failed"))
        || contains_chars(&v, &chars_of("Gagal")) || contains_chars(&v, &chars_of("ERROR"))
}

/// Takes in one message of the robot bridge.
///
/// A published plan replaces the path by the poses' positions, the last one
/// moved onto the goal when a goal is set, ends the wait for a plan and logs
/// how many poses came. A published planner log entry that is a step record
/// joins the step history (the oldest step goes beyond `HISTORY_CAP`); any
/// other text joins the system lines (the oldest goes beyond
/// `SYSTEM_LOG_CAP`) and, when it reports an abort or error, ends the wait
/// for a plan. Other messages change nothing.
pub fn apply_bridge_message(state: &mut SimulationState, log: &mut PlannerLog, msg: &BridgeMessage)
    ensures
        same_scene(*final(state), *old(state)),
        path_ends_at_goal(*old(state)) || is_plan_message(*msg) ==> path_ends_at_goal(*final(state)),
        old(log).history@.len() <= HISTORY_CAP ==> final(log).history@.len() <= HISTORY_CAP,
        is_plan_message(*msg) ==> {
            &&& final(state).path@ == planned_path(msg.poses->0@, old(state).goal_pos)
            &&& !final(state).is_calculating
            &&& final(log).lines() == old(log).lines().push(path_found_line(msg.poses->0@.len()))
            &&& final(log).history == old(log).history
        },
        is_log_message(*msg) && msg.log_step is Some ==> {
            &&& final(log).history@ == capped(old(log).history@.push(msg.log_step->0), HISTORY_CAP as nat)
            &&& final(log).system_logs == old(log).system_logs
            &&& *final(state) == *old(state)
        },
        is_log_message(*msg) && msg.log_step is None ==> {
            &&& final(log).lines() == capped(old(log).lines().push(msg.log_data->0@), SYSTEM_LOG_CAP as nat)
            &&& final(log).history == old(log).history
            &&& final(state).path == old(state).path
            &&& final(state).is_calculating == (old(state).is_calculating && !is_abort_text(msg.log_data->0@))
        },
        !is_plan_message(*msg) && !is_log_message(*msg) ==> {
            &&& *final(state) == *old(state)
            &&& *final(log) == *old(log)
        },
{
    if !str_equals(msg.op.as_str(), "publish") {
        return;
    }
    proof {
        reveal_strlit("/plan");
        reveal_strlit("/planner_log");
    }
    assert("/plan"@.len() == 5);
    assert("/planner_log"@.len() == 12);
    if str_equals(msg.topic.as_str(), "/plan") {
        if let Some(poses) = &msg.poses {
            state.path = plan_points(poses, state.goal_pos);
            state.is_calculating = false;
            let mut line = chars_of("[INFO] Path found! Nodes: ");
            push_decimal(&mut line, poses.len());
            let text = string_of(&line);
            proof {
                lemma_texts_push(log.system_logs@, text);
            }
            log.system_logs.push(text);
        }
    } else if str_equals(msg.topic.as_str(), "/planner_log") {
        if let Some(data) = &msg.log_data {
            if let Some(step) = msg.log_step {
                log.history.push(step);
                if log.history.len() > HISTORY_CAP {
                    log.history.remove(0);
                    assert(log.history@ =~= capped(old(log).history@.push(step), HISTORY_CAP as nat));
                }
            } else {
                let text = data.clone();
                proof {
                    lemma_texts_push(log.system_logs@, text);
                }
                log.system_logs.push(text);
                if log.system_logs.len() > SYSTEM_LOG_CAP {
                    proof {
                        lemma_texts_drop_first(log.system_logs@);
                    }
                    log.system_logs.remove(0);
                    assert(log.system_logs@ =~= old(log).system_logs@.push(text).drop_first());
                }
                if is_abort(data.as_str()) {
                    state.is_calculating = false;
                }
            }
        }
    }
}


/// A click on the map in the current frame.
pub struct Click {
    /// The buttons that went down this frame.
    pub left: bool,
    pub right: bool,
    pub middle: bool,
    /// The click's position snapped to the fine grid (start and goal cells).
    pub fine: Point,
    /// The click's position snapped to the coarse grid (obstacle cells).
    pub coarse: Point,
    /// For each obstacle, in order, whether it lies within the click radius
    /// of the click's position.
    pub hits: Vec<bool>,
}

/// The planning request sent to the planner: start, goal, the planner's name
/// for the chosen algorithm, and the obstacles.
pub struct PlanRequest {
    pub start: Point,
    pub goal: Point,
    pub algorithm: String,
    pub obstacles: Vec<Point>,
}

/// The obstacles whose `hits` entry is false, in order.
pub open spec fn keep_unhit(obs: Seq<Point>, hits: Seq<bool>) -> Seq<Point>
    decreases obs.len(),
{
    if obs.len() == 0 {
        seq![]
    } else {
        let rest = keep_unhit(obs.drop_last(), hits);
        if hits[obs.len() - 1] {
            rest
        } else {
            rest.push(obs.last())
        }
    }
}

/// Some obstacle was hit.
pub open spec fn any_hit(hits: Seq<bool>) -> bool {
    exists|i: int| 0 <= i < hits.len() && #[trigger] hits[i]
}

/// A left click removes the obstacles it hits; when it hits none it adds an
/// obstacle at the clicked coarse cell.
pub open spec fn toggled_obstacles(obs: Seq<Point>, hits: Seq<bool>, cell: Point) -> Seq<Point> {
    if any_hit(hits) {
        keep_unhit(obs, hits)
    } else {
        obs.push(cell)
    }
}

/// The name under which the planner knows the chosen algorithm: uniform-cost
/// search is the planner's Dijkstra.
pub open spec fn planner_algorithm(selected: Seq<char>) -> Seq<char> {
    if selected == "UCS"@ {
        "Dijkstra"@
    } else {
        selected
    }
}

/// The line logged when a plan is requested.
pub open spec fn calculating_line() -> Seq<char> {
    "[INFO] Calculating new path..."@
}

fn copy_points(v: &Vec<Point>) -> (r: Vec<Point>)
    ensures
        r@ == v@,
{
    let mut r: Vec<Point> = Vec::new();
    let n = v.len();
    for i in 0..n
        invariant
            n == v@.len(),
            r@ == v@.take(i as int),
    {
        r.push(v[i]);
        assert(v@.take(i + 1) =~= v@.take(i as int).push(v@[i as int]));
    }
    assert(v@.take(n as int) =~= v@);
    r
}

/// The obstacles after a left click (see `toggled_obstacles`).
pub fn toggle_obstacles(obs: &Vec<Point>, hits: &Vec<bool>, cell: Point) -> (r: Vec<Point>)
    requires
        hits@.len() == obs@.len(),
    ensures
        r@ == toggled_obstacles(obs@, hits@, cell),
{
    let mut kept: Vec<Point> = Vec::new();
    let mut removed = false;
    let n = obs.len();
    for i in 0..n
        invariant
            n == obs@.len(),
            hits@.len() == n,
            kept@ == keep_unhit(obs@.take(i as int), hits@),
            removed == exists|j: int| 0 <= j < i && #[trigger] hits@[j],
    {
        assert(obs@.take(i + 1).drop_last() =~= obs@.take(i as int));
        if hits[i] {
            removed = true;
        } else {
            kept.push(obs[i]);
        }
    }
    assert(obs@.take(n as int) =~= obs@);
    if removed {
        kept
    } else {
        let mut r = copy_points(obs);
        r.push(cell);
        r
    }
}

fn planner_algorithm_name(selected: &String) -> (r: String)
    ensures
        r@ == planner_algorithm(selected@),
{
    if str_equals(selected.as_str(), "UCS") {
        String::from_str("Dijkstra")
    } else {
        selected.clone()
    }
}

/// Takes in a click on the map.
///
/// The right button sets the goal and the middle button the start, both at
/// the fine cell; otherwise the left button toggles obstacles (see
/// `toggled_obstacles`). Any of them clears the path and the step history;
/// then, when both start and goal are set, a plan is requested: the wait
/// starts at zero, a line is logged, and the request is returned.
pub fn apply_click(state: &mut SimulationState, log: &mut PlannerLog, click: &Click) -> (r: Option<PlanRequest>)
    requires
        click.hits@.len() == old(state).obstacles@.len(),
    ensures
        final(state).selected_algorithm == old(state).selected_algorithm,
        path_ends_at_goal(*old(state)) ==> path_ends_at_goal(*final(state)),
        old(log).history@.len() <= HISTORY_CAP ==> final(log).history@.len() <= HISTORY_CAP,
        click.right ==> {
            &&& final(state).goal_pos == Some(click.fine)
            &&& final(state).start_pos == old(state).start_pos
            &&& final(state).obstacles@ == old(state).obstacles@
        },
        !click.right && click.middle ==> {
            &&& final(state).start_pos == Some(click.fine)
            &&& final(state).goal_pos == old(state).goal_pos
            &&& final(state).obstacles@ == old(state).obstacles@
        },
        !click.right && !click.middle && click.left ==> {
            &&& final(state).obstacles@ == toggled_obstacles(old(state).obstacles@, click.hits@, click.coarse)
            &&& final(state).start_pos == old(state).start_pos
            &&& final(state).goal_pos == old(state).goal_pos
        },
        !click.right && !click.middle && !click.left ==> {
            &&& *final(state) == *old(state)
            &&& *final(log) == *old(log)
            &&& r is None
        },
        click.right || click.middle || click.left ==> {
            &&& final(state).path@ == Seq::<Point>::empty()
            &&& final(log).history@ == Seq::<StepLog>::empty()
            &&& if final(state).start_pos is Some && final(state).goal_pos is Some {
                &&& final(state).is_calculating
                &&& final(state).calc_elapsed_nanos == 0
                &&& final(log).lines() == old(log).lines().push(calculating_line())
                &&& r matches Some(req) && {
                    &&& req.start == final(state).start_pos->0
                    &&& req.goal == final(state).goal_pos->0
                    &&& req.algorithm@ == planner_algorithm(old(state).selected_algorithm@)
                    &&& req.obstacles@ == final(state).obstacles@
                }
            } else {
                &&& final(state).is_calculating == old(state).is_calculating
                &&& final(state).calc_elapsed_nanos == old(state).calc_elapsed_nanos
                &&& final(log).system_logs == old(log).system_logs
                &&& r is None
            }
        },
{
    if click.right {
        state.goal_pos = Some(click.fine);
    } else if click.middle {
        state.start_pos = Some(click.fine);
    } else if click.left {
        state.obstacles = toggle_obstacles(&state.obstacles, &click.hits, click.coarse);
    } else {
        return None;
    }
    state.path.clear();
    log.history.clear();
    match (state.start_pos, state.goal_pos) {
        (Some(start), Some(goal)) => {
            state.is_calculating = true;
            state.calc_elapsed_nanos = 0;
            let req = PlanRequest {
                start,
                goal,
                algorithm: planner_algorithm_name(&state.selected_algorithm),
                obstacles: copy_points(&state.obstacles),
            };
            let text = String::from_str("[INFO] Calculating new path...");
            proof {
                lemma_texts_push(log.system_logs@, text);
            }
            log.system_logs.push(text);
            Some(req)
        },
        _ => None,
    }
}


/// The scene is empty and no plan is awaited; the chosen algorithm stays.
pub open spec fn is_cleared(after: SimulationState, before: SimulationState) -> bool {
    &&& path_ends_at_goal(after)
    &&& after.obstacles@ == Seq::<Point>::empty()
    &&& after.path@ == Seq::<Point>::empty()
    &&& after.start_pos is None
    &&& after.goal_pos is None
    &&& !after.is_calculating
    &&& after.calc_elapsed_nanos == 0
    &&& after.selected_algorithm == before.selected_algorithm
}

fn clear_scene(state: &mut SimulationState, log: &mut PlannerLog)
    ensures
        is_cleared(*final(state), *old(state)),
        final(log).history@ == Seq::<StepLog>::empty(),
        final(log).lines() == Seq::<Seq<char>>::empty(),
{
    state.path.clear();
    state.obstacles.clear();
    state.start_pos = None;
    state.goal_pos = None;
    state.is_calculating = false;
    state.calc_elapsed_nanos = 0;
    log.history.clear();
    log.system_logs.clear();
    assert(log.lines() =~= Seq::<Seq<char>>::empty());
}

/// The line logged by a reset.
pub open spec fn reset_line() -> Seq<char> {
    "[INFO] System Reset. Global Costmap Cleared."@
}

/// The reset button: the scene and the logs are cleared, one line tells of
/// the reset, and the global cost map is to be cleared.
pub fn reset_simulation(state: &mut SimulationState, log: &mut PlannerLog) -> (r: BridgeRequest)
    ensures
        is_cleared(*final(state), *old(state)),
        final(log).history@ == Seq::<StepLog>::empty(),
        final(log).lines() == seq![reset_line()],
        r is ClearGlobalCostmap,
{
    clear_scene(state, log);
    let text = String::from_str("[INFO] System Reset. Global Costmap Cleared.");
    proof {
        lemma_texts_push(log.system_logs@, text);
    }
    log.system_logs.push(text);
    assert(log.lines() =~= seq![reset_line()]);
    BridgeRequest::ClearGlobalCostmap
}

/// Leaving the simulation screen: the scene and the logs are cleared, and
/// when the bridge is connected the planner's goal is to be cancelled.
pub fn end_session(state: &mut SimulationState, log: &mut PlannerLog, bridge_connected: bool) -> (r: Option<BridgeRequest>)
    ensures
        is_cleared(*final(state), *old(state)),
        final(log).history@ == Seq::<StepLog>::empty(),
        final(log).lines() == Seq::<Seq<char>>::empty(),
        bridge_connected ==> r matches Some(BridgeRequest::CancelGoal),
        !bridge_connected ==> r is None,
{
    clear_scene(state, log);
    if bridge_connected {
        Some(BridgeRequest::CancelGoal)
    } else {
        None
    }
}

/// What is drawn of the path: the segments joining consecutive points, with
/// one more from the last point to the goal when a goal is set, and a marker
/// on each point but the first and the last.
pub struct PathOverlay {
    pub segments: Vec<(Point, Point)>,
    pub waypoints: Vec<Point>,
}

pub open spec fn path_segments(path: Seq<Point>, goal: Option<Point>) -> Seq<(Point, Point)> {
    if path.len() == 0 {
        seq![]
    } else {
        let joins = Seq::new((path.len() - 1) as nat, |i: int| (path[i], path[i + 1]));
        match goal {
            Some(g) => joins.push((path.last(), g)),
            None => joins,
        }
    }
}

pub open spec fn path_waypoints(path: Seq<Point>) -> Seq<Point> {
    if path.len() < 2 {
        seq![]
    } else {
        path.subrange(1, path.len() - 1)
    }
}

pub fn path_overlay(state: &SimulationState) -> (o: PathOverlay)
    ensures
        o.segments@ == path_segments(state.path@, state.goal_pos),
        o.waypoints@ == path_waypoints(state.path@),
{
    let path = &state.path;
    let n = path.len();
    let mut segments: Vec<(Point, Point)> = Vec::new();
    let mut waypoints: Vec<Point> = Vec::new();
    if n == 0 {
        return PathOverlay { segments, waypoints };
    }
    for i in 0..n - 1
        invariant
            n == path@.len(),
            n > 0,
            segments@ == Seq::new(i as nat, |k: int| (path@[k], path@[k + 1])),
            waypoints@ == (if i == 0 { Seq::<Point>::empty() } else { path@.subrange(1, i as int) }),
    {
        segments.push((path[i], path[i + 1]));
        if i > 0 {
            waypoints.push(path[i]);
        }
        assert(segments@ =~= Seq::new((i + 1) as nat, |k: int| (path@[k], path@[k + 1])));
        assert(waypoints@ =~= (if i + 1 == 0 { Seq::<Point>::empty() } else { path@.subrange(1, i + 1) }));
    }
    if let Some(g) = state.goal_pos {
        segments.push((path[n - 1], g));
    }
    assert(waypoints@ =~= path_waypoints(path@));
    assert(segments@ =~= path_segments(path@, state.goal_pos));
    PathOverlay { segments, waypoints }
}


/// A log that holds at most `cap` items still does after one more arrives.
pub proof fn lemma_capped_stays_within(s: Seq<StepLog>, x: StepLog, cap: nat)
    requires
        s.len() <= cap,
        cap > 0,
    ensures
        capped(s.push(x), cap).len() <= cap,
        capped(s.push(x), cap).last() == x,
{
    let t = s.push(x);
    if t.len() > cap {
        assert(t.drop_first().last() == t.last());
    }
}

/// The path of a plan has one point per pose with a position, and it ends at
/// the goal when a goal is set.
pub proof fn lemma_plan_ends_at_goal(ps: Seq<Option<Point>>, goal: Option<Point>)
    ensures
        planned_path(ps, goal).len() == pose_points(ps).len(),
        pose_points(ps).len() > 0 && goal is Some ==> planned_path(ps, goal).last() == goal->0,
{
}

proof fn lemma_keep_unhit_none_hit(obs: Seq<Point>, hits: Seq<bool>)
    requires
        obs.len() <= hits.len(),
        forall|i: int| 0 <= i < obs.len() ==> !#[trigger] hits[i],
    ensures
        keep_unhit(obs, hits) == obs,
    decreases obs.len(),
{
    if obs.len() > 0 {
        lemma_keep_unhit_none_hit(obs.drop_last(), hits);
        assert(obs.drop_last().push(obs.last()) =~= obs);
    }
}

/// A left click on an empty cell adds an obstacle there, and a second left
/// click that hits only that obstacle removes it again: the obstacles are
/// back as they were.
pub proof fn lemma_obstacle_toggle_undoes(obs: Seq<Point>, first_hits: Seq<bool>, cell: Point, other: Point)
    requires
        first_hits.len() == obs.len(),
        !any_hit(first_hits),
    ensures
        ({
            let added = toggled_obstacles(obs, first_hits, cell);
            let second_hits = Seq::new(added.len(), |i: int| i == obs.len());
            &&& added == obs.push(cell)
            &&& toggled_obstacles(added, second_hits, other) == obs
        }),
{
    let added = obs.push(cell);
    let second_hits = Seq::new(added.len(), |i: int| i == obs.len());
    assert(second_hits[obs.len() as int]);
    assert(any_hit(second_hits));
    assert(added.drop_last() =~= obs);
    lemma_keep_unhit_none_hit(obs, second_hits);
}


/// A planner text ends the wait for a plan exactly when it mentions one of
/// "ABORT", "failed", "Gagal" or "ERROR" somewhere in it.
pub proof fn lemma_abort_words(t: Seq<char>)
    ensures
        is_abort_text(t) <==> exists|w: Seq<char>, i: int|
            (w == "ABORT"@ || w == "failed"@ || w == "Gagal"@ || w == "ERROR"@) && 0 <= i && i
                + w.len() <= t.len() && #[trigger] t.subrange(i, i + w.len()) == w,
{
    if is_abort_text(t) {
        if contains(t, "ABORT"@) {
            let i = choose|i: int| occurs_at(t, "ABORT"@, i);
            assert(t.subrange(i, i + "ABORT"@.len()) == "ABORT"@);
        } else if contains(t, "failed"@) {
            let i = choose|i: int| occurs_at(t, "failed"@, i);
            assert(t.subrange(i, i + "failed"@.len()) == "failed"@);
        } else if contains(t, "Gagal"@) {
            let i = choose|i: int| occurs_at(t, "Gagal"@, i);
            assert(t.subrange(i, i + "Gagal"@.len()) == "Gagal"@);
        } else {
            let i = choose|i: int| occurs_at(t, "ERROR"@, i);
            assert(t.subrange(i, i + "ERROR"@.len()) == "ERROR"@);
        }
    }
    if exists|w: Seq<char>, i: int|
        (w == "ABORT"@ || w == "failed"@ || w == "Gagal"@ || w == "ERROR"@) && 0 <= i && i + w.len()
            <= t.len() && #[trigger] t.subrange(i, i + w.len()) == w {
        let (w, i) = choose|w: Seq<char>, i: int|
            (w == "ABORT"@ || w == "failed"@ || w == "Gagal"@ || w == "ERROR"@) && 0 <= i && i
                + w.len() <= t.len() && #[trigger] t.subrange(i, i + w.len()) == w;
        assert(occurs_at(t, w, i));
    }
}

/// An error report from the planner ends the wait for a plan.
pub proof fn lemma_error_report_stops_waiting()
    ensures
        is_abort_text("[ERROR] No valid path found"@),
{
    reveal_strlit("[ERROR] No valid path found");
    reveal_strlit("ERROR");
    let t = "[ERROR] No valid path found"@;
    assert(t.subrange(1, 6) =~= "ERROR"@);
    assert(occurs_at(t, "ERROR"@, 1));
}

/// The overlay joins each point of the path to the next and the last one to
/// the goal, and marks every point but the first and the last.
pub proof fn lemma_overlay_shape(path: Seq<Point>, goal: Option<Point>)
    ensures
        path.len() >= 2 ==> path_waypoints(path).len() == path.len() - 2,
        path.len() < 2 ==> path_waypoints(path).len() == 0,
        forall|k: int| 0 <= k < path.len() - 2 ==> #[trigger] path_waypoints(path)[k] == path[k + 1],
        path.len() == 0 ==> path_segments(path, goal).len() == 0,
        path.len() > 0 ==> path_segments(path, goal).len() == path.len() - 1 + if goal is Some {
            1int
        } else {
            0int
        },
        forall|k: int|
            0 <= k < path.len() - 1 ==> #[trigger] path_segments(path, goal)[k] == (path[k], path[k + 1]),
        path.len() > 0 && goal is Some ==> path_segments(path, goal)[path.len() - 1] == (
            path[path.len() - 1],
            goal->0,
        ),
{
}

} // verus!
