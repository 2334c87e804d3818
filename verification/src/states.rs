use vstd::prelude::*;

verus! {

/// The screens of the application.
#[derive(Clone, Copy, PartialEq, Eq, Structural, Debug, Hash)]
pub enum AppState {
    MainMenu,
    AlgorithmSelection2D,
    AlgorithmSelection3D,
    Sim2DLoading,
    Sim2DRun,
}

impl Default for AppState {
    fn default() -> (s: AppState)
        ensures
            s == AppState::MainMenu,
    {
        AppState::MainMenu
    }
}

} // verus!
