//! Analysis core of a USB protocol capture viewer.
//!
//! Raw USB packets, in capture order, are fed to the [`decoder::Decoder`],
//! which groups them into transactions and endpoint-level transfers and
//! records the result in a [`capture::Capture`] store built on run-compressed
//! indices. The [`tree_list_model::TreeListModel`] then projects the store as
//! a flat, virtualised list of rows that can be expanded and collapsed.

use vstd::prelude::*;

pub mod file_vec;
pub mod hybrid_index;
pub mod text;
pub mod usb;
pub mod capture;
pub mod decoder;
pub mod tree_list_model;

verus! {

/// Errors that cross the store's public boundary. Out-of-range reads are
/// reported rather than panicking; all other misuse is excluded by
/// preconditions.
#[derive(Copy, Clone, Debug, PartialEq, Eq, Structural)]
pub enum CaptureError {
    /// An element outside `0 .. len()` was requested.
    OutOfRange,
    /// The decoder was handed a packet without any bytes; the data model
    /// requires at least the identifier byte.
    EmptyPacket,
    /// Storing one more packet would overrun a packed id field.
    CapacityExceeded,
}

} // verus!
