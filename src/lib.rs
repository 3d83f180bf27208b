//! A lazy splitter that cuts a borrowed slice into successive packets whose
//! lengths a caller-supplied sizing function reads from the unconsumed rest.

pub mod packet_iterator;

pub use packet_iterator::PacketIterator;
