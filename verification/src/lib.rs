//! Decision core of a staged countdown console: a bounded token entry gate,
//! a sequential phase machine with a level-triggered cancellation signal,
//! and bounded batch selection over path inventories.
//!
//! The crate holds pure logic only: it performs no input or output, touches
//! no file, and leaves every effect to its embedder.

use vstd::prelude::*;

pub mod framing;
pub mod gate;
pub mod inventory;
pub mod phases;
pub mod remover;
pub mod scan;

use crate::gate::Gate;
use crate::inventory::Inventory;
use crate::phases::Orchestrator;

verus! {

/// Handles one submit of the entry gate while entry is enabled: when the
/// buffer equals the secret text, a recovery batch leaves the inventory and
/// the cancellation signal goes up.
pub fn handle_submit(gate: &mut Gate, orch: &mut Orchestrator, inv: &mut Inventory) -> (outcome: Option<
    Vec<String>,
>)
    requires
        old(gate).well_formed(),
        old(orch).well_formed(),
        old(orch).entry_enabled(),
    ensures
        final(gate).buffer() == crate::gate::sentinel(),
        final(gate).token_count() == 0,
        final(gate).well_formed(),
        final(orch).well_formed(),
        outcome is Some <==> old(gate).buffer() == crate::gate::secret_text(),
        match outcome {
            Some(batch) => {
                &&& batch@.len() == crate::inventory::decrypt_take(old(inv).entries().len())
                &&& batch@ == old(inv).entries().take(batch@.len() as int)
                &&& final(inv).entries() == old(inv).entries().skip(batch@.len() as int)
                &&& final(orch).cancel
                &&& final(orch).phase == old(orch).phase
                &&& final(orch).ticks == old(orch).ticks
                &&& final(orch).limit == old(orch).limit
                &&& final(orch).failsafe == old(orch).failsafe
            },
            None => {
                &&& *final(inv) == *old(inv)
                &&& *final(orch) == *old(orch)
            },
        },
{
    let accepted = gate.submit();
    if accepted {
        let batch = inv.select_decrypt_batch();
        orch.request_cancel();
        Some(batch)
    } else {
        None
    }
}

} // verus!
