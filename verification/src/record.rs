//! The transient record shape one ingestion cycle works on.

use vstd::prelude::*;

verus! {

/// One market entry as the upstream API reports it: a stable external
/// identifier, display attributes, and the numeric fields still in their
/// textual form. Records exist only within one cycle; they are always
/// normalized into dimension and fact rows before anything is kept.
#[derive(Clone)]
pub struct FetchedRecord {
    /// The external stable identifier of the coin.
    pub uuid: String,
    /// The ticker symbol most recently observed for the coin.
    pub symbol: String,
    /// The display name most recently observed for the coin.
    pub name: String,
    /// The price, as the API's textual representation.
    pub price: String,
    /// The market capitalization, as the API's textual representation.
    pub market_cap: String,
}

} // verus!
