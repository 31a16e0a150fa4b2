//! The heuristics that label accounts in the database, and the event the
//! airdrop-farming heuristic reports.
use vstd::prelude::*;
use vstd::string::StringSliceAdditionalSpecFns;
use crate::address::{Address, or_zero, unwrap_or_zero};
use crate::capabilities::{Network, reporting_network};
use crate::db::LabelDatabase;

verus! {

/// The flow-through heuristic.
pub struct FlowThrough;

impl FlowThrough {
    /// Records the flow-through label in the database.
    pub fn apply(&self, db: &mut LabelDatabase)
        requires
            old(db).wf(),
        ensures
            final(db).wf(),
            final(db)@ == old(db)@.insert("flow_through_key".spec_bytes(), "flow_through_value"@),
    {
        proof {
            reveal_strlit("flow_through_key");
        }
        db.insert("flow_through_key", "flow_through_value");
    }
}

/// A transaction as the airdrop-farming heuristic reports it.
pub struct AirdropEvent {
    pub network: Network,
    pub block_number: u64,
    pub from: String,
    pub to: String,
}

/// The airdrop-farming event for a transaction; the block number is
/// reported as 0, and a missing address as the zero address.
pub fn airdrop_farming_event(from: Option<Address>, to: Option<Address>) -> (e: AirdropEvent)
    ensures
        e.network.name@ == "your_network"@,
        e.block_number == 0,
        e.from@ == or_zero(from).text(),
        e.to@ == or_zero(to).text(),
{
    let from = unwrap_or_zero(from);
    let to = unwrap_or_zero(to);
    AirdropEvent {
        network: reporting_network(),
        block_number: 0,
        from: from.debug_text(),
        to: to.debug_text(),
    }
}

/// Records the airdrop-farming label in the database.
pub fn record_airdrop_farming(db: &mut LabelDatabase)
    requires
        old(db).wf(),
    ensures
        final(db).wf(),
        final(db)@ == old(db)@.insert(
            "airdrop_farming_key".spec_bytes(),
            "airdrop_farming_value"@,
        ),
{
    proof {
        reveal_strlit("airdrop_farming_key");
    }
    db.insert("airdrop_farming_key", "airdrop_farming_value");
}

} // verus!
