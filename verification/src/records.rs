//! The data the engine works on, as plain values.
//!
//! Ledger addresses and authorities arrive from outside as text and raw
//! bytes; the engine never needs more than that. An authority is kept as
//! its 32 raw bytes and rendered to text only at the storage edge.

use vstd::prelude::*;

verus! {

/// Number of bytes in an account authority (a ledger public key).
pub const AUTHORITY_LEN: usize = 32;

/// The singleton aggregate row: how many device records the mirror holds.
#[derive(Clone, Copy, Debug, PartialEq, Eq)]
pub struct NetworkStats {
    pub total_nodes: u64,
}

/// One decoded device account: its controlling authority and its URI.
#[derive(Clone, Debug, PartialEq, Eq)]
pub struct NodeDevice {
    pub authority: Vec<u8>,
    pub uri: String,
}

/// Mathematical value of a [`NodeDevice`].
pub struct NodeDeviceView {
    pub authority: Seq<u8>,
    pub uri: Seq<char>,
}

impl View for NodeDevice {
    type V = NodeDeviceView;

    open spec fn view(&self) -> NodeDeviceView {
        NodeDeviceView { authority: self.authority@, uri: self.uri@ }
    }
}

impl NodeDevice {
    /// A device record is well formed when its authority has exactly the
    /// 32 bytes of a ledger public key.
    pub open spec fn wf(&self) -> bool {
        self.authority@.len() == AUTHORITY_LEN
    }
}

/// One row of the mirror as served by the read API: the account address,
/// the authority in its stored text form, and the URI.
pub struct ApiNode {
    pub pubkey: String,
    pub authority: String,
    pub uri: String,
}

/// One account as returned by a full fetch: its address and raw bytes.
pub struct FetchedAccount {
    pub pubkey: String,
    pub data: Vec<u8>,
}

/// Why a buffer failed to decode under its classified layout.
#[derive(Clone, Copy, Debug, PartialEq, Eq, Structural)]
pub enum DecodeError {
    /// The buffer ends before a fixed-size field it must contain.
    Truncated,
    /// The declared URI length runs past the end of the buffer.
    UriOverrun,
    /// The URI bytes are not valid UTF-8.
    InvalidUtf8,
    /// The buffer holds bytes past the end of the record.
    TrailingBytes,
}

/// The layout a buffer is classified under, by its length alone.
#[derive(Clone, Copy, Debug, PartialEq, Eq, Structural)]
pub enum AccountLayout {
    DeviceLayout,
    AggregateLayout,
    Unknown,
}

/// A whole-cycle fetch failure, as reported by the caller that performed
/// the network round-trip. A cycle with a failed fetch mutates nothing.
pub struct FetchError {
    pub message: String,
}

} // verus!
