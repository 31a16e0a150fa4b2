//! What the execution extension does with each chain notification.
use vstd::prelude::*;

verus! {

/// The kinds of notification that the node sends about its chain.
#[derive(Debug, Clone, Copy, PartialEq, Eq)]
pub enum ChainNotification {
    /// New blocks were committed.
    Committed,
    /// The chain was reorganised.
    Reorged,
    /// Blocks were reverted.
    Reverted,
}

/// Whether the capabilities are applied to the transactions of a
/// notification: only for committed blocks.
pub fn applies_capabilities(n: ChainNotification) -> (r: bool)
    ensures
        r == (n == ChainNotification::Committed),
{
    match n {
        ChainNotification::Committed => true,
        ChainNotification::Reorged => false,
        ChainNotification::Reverted => false,
    }
}

} // verus!
