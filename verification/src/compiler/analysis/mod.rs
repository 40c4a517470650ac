//! Static checks of a Brief program against its board: address spaces,
//! addresses known to the board configuration, the entry transaction, and
//! data flow between transactions.

pub mod address_space;
pub mod entry_point;
pub mod cross_reference;
pub mod dataflow;
