use vstd::prelude::*;
use crate::states::AppState;

verus! {

/// The screens visited before the current one, the most recent last.
pub struct NavStack {
    pub history: Vec<AppState>,
}

impl NavStack {
    pub open spec fn view(&self) -> Seq<AppState> {
        self.history@
    }

    /// An empty history.
    pub fn new() -> (s: NavStack)
        ensures
            s@ == Seq::<AppState>::empty(),
    {
        NavStack { history: Vec::new() }
    }
}

impl Default for NavStack {
    fn default() -> (s: NavStack)
        ensures
            s@ == Seq::<AppState>::empty(),
    {
        NavStack::new()
    }
}

/// Moves to `new_state`, remembering `current_state` so that `pop_state` can
/// return to it. `next_state` is the transition requested for the next frame
/// (`None`: none requested).
pub fn push_state(
    current_state: AppState,
    new_state: AppState,
    next_state: &mut Option<AppState>,
    nav_stack: &mut NavStack,
)
    ensures
        final(nav_stack)@ == old(nav_stack)@.push(current_state),
        *final(next_state) == Some(new_state),
{
    nav_stack.history.push(current_state);
    *next_state = Some(new_state);
}

/// Returns to the screen visited last and forgets it; with an empty history
/// nothing changes.
pub fn pop_state(next_state: &mut Option<AppState>, nav_stack: &mut NavStack)
    ensures
        old(nav_stack)@.len() > 0 ==> {
            &&& *final(next_state) == Some(old(nav_stack)@.last())
            &&& final(nav_stack)@ == old(nav_stack)@.drop_last()
        },
        old(nav_stack)@.len() == 0 ==> {
            &&& *final(next_state) == *old(next_state)
            &&& final(nav_stack)@ == old(nav_stack)@
        },
{
    if let Some(prev_state) = nav_stack.history.pop() {
        *next_state = Some(prev_state);
    }
}

/// Going back right after moving forward returns to the screen one came from
/// and leaves the history as it was.
pub proof fn lemma_pop_undoes_push(history: Seq<AppState>, current: AppState)
    ensures
        history.push(current).len() > 0,
        history.push(current).last() == current,
        history.push(current).drop_last() == history,
{
    assert(history.push(current).drop_last() =~= history);
}

} // verus!
