//! The events that the capabilities report for a transaction: who sent it,
//! to whom, and (for the token capability) its input data, as text.
use vstd::prelude::*;
use crate::address::{Address, or_zero, unwrap_or_zero};
use crate::text::{bytes_debug, bytes_debug_text};

verus! {

/// The network an event comes from.
pub struct Network {
    pub name: String,
}

/// A transaction as the sybil and money-laundering capabilities report it.
pub struct TransactionEvent {
    pub network: Network,
    pub from: String,
    pub to: String,
}

/// A transaction as the token capability reports it, with its input data.
pub struct DataTransactionEvent {
    pub network: Network,
    pub from: String,
    pub to: String,
    pub data: String,
}

/// The network that the events name.
pub fn reporting_network() -> (n: Network)
    ensures
        n.name@ == "your_network"@,
{
    Network { name: "your_network".to_owned() }
}

/// The event for a transaction with the given sender and recipient, either
/// of which may be missing (then the zero address stands in).
pub fn transaction_event(from: Option<Address>, to: Option<Address>) -> (e: TransactionEvent)
    ensures
        e.network.name@ == "your_network"@,
        e.from@ == or_zero(from).text(),
        e.to@ == or_zero(to).text(),
{
    let from = unwrap_or_zero(from);
    let to = unwrap_or_zero(to);
    TransactionEvent { network: reporting_network(), from: from.debug_text(), to: to.debug_text() }
}

/// The event for a transaction with the given sender, recipient and input
/// data; a missing address is reported as the zero address.
pub fn data_transaction_event(from: Option<Address>, to: Option<Address>, data: &[u8]) -> (e:
    DataTransactionEvent)
    ensures
        e.network.name@ == "your_network"@,
        e.from@ == or_zero(from).text(),
        e.to@ == or_zero(to).text(),
        e.data@ == bytes_debug_text(data@),
{
    let from = unwrap_or_zero(from);
    let to = unwrap_or_zero(to);
    DataTransactionEvent {
        network: reporting_network(),
        from: from.debug_text(),
        to: to.debug_text(),
        data: bytes_debug(data),
    }
}

} // verus!
