//! Receiver side of a small segmented file-transfer protocol.
//!
//! A file is sent as an unordered stream of datagrams.  Each datagram is
//! either a header packet, naming the file, or a data packet, carrying one
//! numbered fragment of the file's bytes.  The [`packets`] module decodes a
//! raw datagram into a typed [`packets::Packet`]; the [`packet_group`]
//! module accumulates the fragments of one file and decides when that file
//! is complete; the [`file_manager`] module routes packets to the group for
//! their file id and decides when the whole job is complete.

pub mod file_manager;
pub mod packet_group;
pub mod packets;
