//! The engine client's side of a request: issue an identifier, register the
//! waiting caller, and produce the line to send.
use vstd::prelude::*;
use crate::correlation::{CorrelationError, PendingTable};
use crate::game::Stone;
use crate::protocol::{request_line, request_text, stones_view};

verus! {

/// Why a request could not be submitted.
#[derive(Clone, Copy, Debug, PartialEq, Eq, Structural)]
pub enum SubmitError {
    /// Every identifier has been issued.
    IdsExhausted,
    /// The engine is gone, so no response would ever come.
    EngineUnavailable,
}

/// Submits a request for the position after `stones`, whose caller waits on
/// `slot`: returns the fresh identifier and the line to write to the engine,
/// with the caller registered under that identifier. Fails, registering
/// nothing, once the engine is gone or when every identifier has been issued.
pub fn submit<S>(table: &mut PendingTable<S>, slot: S, stones: &Vec<Stone>) -> (r: Result<(u64, String), SubmitError>)
    requires
        old(table).wf(),
    ensures
        final(table).wf(),
        r is Ok <==> !old(table).is_closed() && old(table).next_id() < u64::MAX,
        r == Err::<(u64, String), SubmitError>(SubmitError::EngineUnavailable) <==> old(table).is_closed(),
        r is Err ==> *final(table) == *old(table),
        r matches Ok((id, line)) ==> {
            &&& id == old(table).next_id()
            &&& !old(table).issued().contains(id)
            &&& line@ == request_text(id as nat, stones_view(stones@))
            &&& final(table).issued() == old(table).issued().insert(id)
            &&& final(table).entries() == old(table).entries().push((id, slot))
        },
{
    if table.closed() {
        return Err(SubmitError::EngineUnavailable);
    }
    let id = table.upcoming_id();
    if id == u64::MAX {
        return Err(SubmitError::IdsExhausted);
    }
    let line = request_line(id, stones);
    match table.register(slot) {
        Ok(issued) => Ok((issued, line)),
        Err(CorrelationError::IdsExhausted) => Err(SubmitError::IdsExhausted),
        Err(CorrelationError::EngineGone) => Err(SubmitError::EngineUnavailable),
    }
}

} // verus!
