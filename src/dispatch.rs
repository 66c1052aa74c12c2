//! What handlers report to the interrupt dispatcher, and the shape of a
//! dispatch: the walk of one line's chain from head to tail.
use vstd::prelude::*;
use crate::table::Hook;

verus! {

/// What a handler asks of the dispatcher.
#[derive(Clone, Copy, Debug, PartialEq, Eq, Structural)]
pub enum HandlerStatus {
    /// Go on with the next hook of the chain.
    Continue,
    /// Stop the walk and rearm the line.
    ReenableRequested,
    /// The handler failed with this (negative) code; go on with the next hook.
    HandlerError(i32),
}

impl HandlerStatus {
    /// The status that a handler's signed return code stands for: zero goes
    /// on, a positive code asks for the line to be rearmed, a negative code
    /// is an error.
    pub fn from_code(code: i32) -> (r: HandlerStatus)
        ensures
            code == 0 ==> r == HandlerStatus::Continue,
            code > 0 ==> r == HandlerStatus::ReenableRequested,
            code < 0 ==> r == HandlerStatus::HandlerError(code),
    {
        if code == 0 {
            HandlerStatus::Continue
        } else if code > 0 {
            HandlerStatus::ReenableRequested
        } else {
            HandlerStatus::HandlerError(code)
        }
    }
}

/// Runs the handlers that the embedding system supplies (`Handler::External`).
/// It is called in interrupt context: it must neither block nor sleep.
pub trait HookHandler {
    fn handle(&mut self, hook: &Hook) -> HandlerStatus;
}

/// What one dispatch did.
pub struct DispatchReport {
    /// The ids of the hooks whose handlers ran, in order.
    pub invoked: Vec<u64>,
    /// What each of them returned.
    pub statuses: Vec<HandlerStatus>,
    /// Whether the walk ended on a request to rearm the line.
    pub rearm: bool,
}

/// A dispatch over `chain` that ran the hooks `invoked`, which returned
/// `statuses`: the hooks run from the head of the chain, and the walk ends
/// at the tail or right after the first hook that asks for the line to be
/// rearmed.
pub open spec fn dispatch_walk(
    chain: Seq<u64>,
    invoked: Seq<u64>,
    statuses: Seq<HandlerStatus>,
    rearm: bool,
) -> bool {
    &&& statuses.len() == invoked.len()
    &&& invoked.len() <= chain.len()
    &&& invoked == chain.take(invoked.len() as int)
    &&& forall|i: int|
        0 <= i < invoked.len() - 1 ==> !(#[trigger] statuses[i] is ReenableRequested)
    &&& rearm == (invoked.len() > 0 && statuses.last() is ReenableRequested)
    &&& invoked.len() < chain.len() ==> rearm
}

/// A handler that fails does not end the walk: every later hook of the chain
/// runs, up to and including the first one that asks for the line to be
/// rearmed.
pub proof fn law_error_does_not_stop_dispatch(
    chain: Seq<u64>,
    invoked: Seq<u64>,
    statuses: Seq<HandlerStatus>,
    rearm: bool,
    k: int,
    j: int,
)
    requires
        dispatch_walk(chain, invoked, statuses, rearm),
        0 <= k < invoked.len(),
        statuses[k] is HandlerError,
        k < j < chain.len(),
        forall|i: int| k <= i < j && i < invoked.len() ==> !(#[trigger] statuses[i] is ReenableRequested),
    ensures
        j < invoked.len(),
        invoked[j] == chain[j],
{
    if invoked.len() <= j {
        let last = invoked.len() - 1;
        assert(statuses[last] is ReenableRequested);
    }
}

} // verus!
