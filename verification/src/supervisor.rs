//! The connectivity supervisor's logic: an explicit state machine behind
//! the reconnect loop (wait for the link to drop, issue a connect, wait
//! for an address, and either stop after the first success or keep the
//! link up forever).

use vstd::prelude::*;

verus! {

/// The supervisor's position in its wait / connect / wait-for-address
/// cycle.
#[derive(Clone, Copy, PartialEq, Eq, Debug, Structural)]
pub enum SupState {
    /// Waiting for the interface to report that the link is down. This
    /// is where the loop starts (the interface starts down) and where a
    /// later disconnect is observed before retrying.
    AwaitDown,
    /// The link was seen down; a connect request is to be issued and
    /// awaited.
    Connecting,
    /// The connect request completed; waiting for the interface to
    /// report link-up with an assigned address.
    AwaitAddress,
    /// Link-up with an address was reported and the run mode asked to
    /// stop after the first success: the terminal state.
    Connected,
}

/// What the interface reported at the suspension point the current state
/// was waiting on.
#[derive(Clone, Copy, PartialEq, Eq, Debug, Structural)]
pub enum SupEvent {
    /// The interface reports that the link is down.
    LinkDown,
    /// The connect request completed successfully.
    ConnectDone,
    /// The interface reports link-up with an assigned address.
    AddressAssigned,
}

/// What the driver should be asked for next in a given state.
#[derive(Clone, Copy, PartialEq, Eq, Debug, Structural)]
pub enum SupAction {
    /// Suspend until the interface reports the link down.
    WaitForDown,
    /// Issue a connect request and suspend until it completes.
    IssueConnect,
    /// Suspend until the interface reports an assigned address.
    WaitForAddress,
    /// The run is complete: return successfully.
    Finish,
}

/// The action a state waits on.
pub open spec fn action_of(state: SupState) -> SupAction {
    match state {
        SupState::AwaitDown => SupAction::WaitForDown,
        SupState::Connecting => SupAction::IssueConnect,
        SupState::AwaitAddress => SupAction::WaitForAddress,
        SupState::Connected => SupAction::Finish,
    }
}

/// The transition relation of the reconnect loop. `None` means the event
/// is not the one the state was waiting on: the loop's driver never
/// produces such a pair, and a run that sees one aborts.
pub open spec fn step_spec(state: SupState, event: SupEvent, exit_after_first: bool) -> Option<
    SupState,
> {
    match (state, event) {
        (SupState::AwaitDown, SupEvent::LinkDown) => Some(SupState::Connecting),
        (SupState::Connecting, SupEvent::ConnectDone) => Some(SupState::AwaitAddress),
        (SupState::AwaitAddress, SupEvent::AddressAssigned) => if exit_after_first {
            Some(SupState::Connected)
        } else {
            Some(SupState::AwaitDown)
        },
        _ => None,
    }
}

/// The action the driver should perform next for `state`.
pub fn next_action(state: SupState) -> (a: SupAction)
    ensures
        a == action_of(state),
{
    match state {
        SupState::AwaitDown => SupAction::WaitForDown,
        SupState::Connecting => SupAction::IssueConnect,
        SupState::AwaitAddress => SupAction::WaitForAddress,
        SupState::Connected => SupAction::Finish,
    }
}

/// One transition of the supervisor: the state reached when `event`
/// arrives in `state`, under the given run mode.
pub fn step(state: SupState, event: SupEvent, exit_after_first: bool) -> (r: Option<SupState>)
    ensures
        r == step_spec(state, event, exit_after_first),
{
    match (state, event) {
        (SupState::AwaitDown, SupEvent::LinkDown) => Some(SupState::Connecting),
        (SupState::Connecting, SupEvent::ConnectDone) => Some(SupState::AwaitAddress),
        (SupState::AwaitAddress, SupEvent::AddressAssigned) => if exit_after_first {
            Some(SupState::Connected)
        } else {
            Some(SupState::AwaitDown)
        },
        _ => None,
    }
}

/// The state after consuming a trace of events from `state`: `None` if
/// some event was not the one its state waited on; the run stops as soon
/// as the terminal state is reached, leaving later events unconsumed.
pub open spec fn run_spec(state: SupState, events: Seq<SupEvent>, exit_after_first: bool) -> Option<
    SupState,
>
    decreases events.len(),
{
    if state is Connected {
        Some(SupState::Connected)
    } else if events.len() == 0 {
        Some(state)
    } else {
        match step_spec(state, events.first(), exit_after_first) {
            Some(next) => run_spec(next, events.drop_first(), exit_after_first),
            None => None,
        }
    }
}

/// Drives the supervisor from the start of the reconnect loop (the
/// interface starts down) through a finite trace of interface events.
pub fn run_trace(events: &Vec<SupEvent>, exit_after_first: bool) -> (r: Option<SupState>)
    ensures
        r == run_spec(SupState::AwaitDown, events@, exit_after_first),
{
    let mut state = SupState::AwaitDown;
    let mut i: usize = 0;
    proof {
        assert(events@.skip(0) =~= events@);
    }
    while i < events.len()
        invariant
            i <= events.len(),
            state !is Connected,
            run_spec(SupState::AwaitDown, events@, exit_after_first) == run_spec(
                state,
                events@.skip(i as int),
                exit_after_first,
            ),
        decreases events.len() - i,
    {
        proof {
            assert(events@.skip(i as int).first() == events@[i as int]);
            assert(events@.skip(i as int).drop_first() =~= events@.skip(i as int + 1));
        }
        match step(state, events[i], exit_after_first) {
            Some(next) => {
                state = next;
            },
            None => {
                return None;
            },
        }
        i = i + 1;
        match state {
            SupState::Connected => {
                return Some(SupState::Connected);
            },
            _ => {
            },
        }
    }
    Some(state)
}

/// A run that ends in the terminal state got there by consuming an
/// `AddressAssigned` event, and only in the run mode that exits after the
/// first success. So when the initial connection run returns
/// successfully, the interface has reported link-up with an assigned
/// address.
pub proof fn lemma_connected_implies_address(
    state: SupState,
    events: Seq<SupEvent>,
    exit_after_first: bool,
)
    requires
        state !is Connected,
        run_spec(state, events, exit_after_first) == Some(SupState::Connected),
    ensures
        exit_after_first,
        exists|i: int| 0 <= i < events.len() && events[i] is AddressAssigned,
    decreases events.len(),
{
    let next = step_spec(state, events.first(), exit_after_first)->Some_0;
    if next is Connected {
        assert(events[0] is AddressAssigned);
    } else {
        lemma_connected_implies_address(next, events.drop_first(), exit_after_first);
        let j = choose|j: int|
            0 <= j < events.drop_first().len() && events.drop_first()[j] is AddressAssigned;
        assert(events[j + 1] is AddressAssigned);
    }
}

/// The keep-alive run mode never reaches the terminal state: a run that
/// does not exit after the first success goes back to waiting for the
/// next disconnect, forever.
pub proof fn lemma_stay_connected_never_done(state: SupState, events: Seq<SupEvent>)
    requires
        state !is Connected,
    ensures
        run_spec(state, events, false) != Some(SupState::Connected),
    decreases events.len(),
{
    if events.len() > 0 {
        match step_spec(state, events.first(), false) {
            Some(next) => {
                lemma_stay_connected_never_done(next, events.drop_first());
            },
            None => {
            },
        }
    }
}

} // verus!
