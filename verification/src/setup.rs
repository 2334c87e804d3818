use vstd::prelude::*;
use crate::simulation::Point;

verus! {

/// What a click on the map places.
#[derive(Clone, Copy, PartialEq, Eq, Structural, Debug)]
pub enum InteractionMode {
    Obstacle,
    Start,
    Goal,
}

impl Default for InteractionMode {
    fn default() -> (m: InteractionMode)
        ensures
            m == InteractionMode::Obstacle,
    {
        InteractionMode::Obstacle
    }
}

/// The groups of choices made before a simulation starts.
#[derive(Clone, Copy, PartialEq, Eq, Structural, Debug)]
pub enum ConfigCategory {
    Algorithm,
    MapName,
    Urdf,
}

/// The choices made before a simulation starts.
#[derive(Debug)]
pub struct SetupConfig {
    pub algorithm: String,
    pub urdf_model: String,
    pub map_name: String,
    pub start_pos: Option<Point>,
    pub goal_pos: Option<Point>,
    pub interaction_mode: InteractionMode,
}

impl Default for SetupConfig {
    fn default() -> (c: SetupConfig)
        ensures
            c.algorithm@ == Seq::<char>::empty(),
            c.urdf_model@ == Seq::<char>::empty(),
            c.map_name@ == Seq::<char>::empty(),
            c.start_pos is None,
            c.goal_pos is None,
            c.interaction_mode == InteractionMode::Obstacle,
    {
        SetupConfig {
            algorithm: String::new(),
            urdf_model: String::new(),
            map_name: String::new(),
            start_pos: None,
            goal_pos: None,
            interaction_mode: InteractionMode::default(),
        }
    }
}

/// One entry of a selection list: the group it belongs to and the value it stands for.
pub struct SelectionItem {
    pub category: ConfigCategory,
    pub value: String,
}

} // verus!
