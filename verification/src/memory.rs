//! Memory boundary records exchanged with the proof producer.
use vstd::prelude::*;

verus! {

/// The kind of memory chip an event belongs to.
#[derive(Debug, Clone, Copy, PartialEq, Eq, Structural)]
pub enum MemoryChipType {
    Initialize,
    Finalize,
}

/// A record of one memory cell as the runtime saw it last.
#[derive(Debug, Clone, Copy, PartialEq, Eq, Structural)]
pub struct MemoryRecord {
    pub value: u32,
    pub shard: u32,
    pub clk: u32,
}

/// The wire layout of a memory initialize/finalize event: five little-endian
/// `u32` fields `(addr, value, shard, timestamp, used)`.
#[derive(Debug, Clone, Copy, PartialEq, Eq, Structural)]
pub struct MemoryInitializeFinalizeEvent {
    pub addr: u32,
    pub value: u32,
    pub shard: u32,
    pub timestamp: u32,
    pub used: u32,
}

impl MemoryInitializeFinalizeEvent {
    /// An initialize event is pinned to `shard == 1` and `timestamp == 1`
    /// regardless of the address, and `used` is encoded as `0` or `1`.
    pub fn initialize(addr: u32, value: u32, used: bool) -> (r: Self)
        ensures
            r == (MemoryInitializeFinalizeEvent {
                addr,
                value,
                shard: 1u32,
                timestamp: 1u32,
                used: if used { 1u32 } else { 0u32 },
            }),
    {
        Self { addr, value, shard: 1, timestamp: 1, used: if used { 1 } else { 0 } }
    }

    /// A finalize event carries the record's value, shard and clock, and is
    /// always marked used.
    pub fn finalize_from_record(addr: u32, record: &MemoryRecord) -> (r: Self)
        ensures
            r == (MemoryInitializeFinalizeEvent {
                addr,
                value: record.value,
                shard: record.shard,
                timestamp: record.clk,
                used: 1u32,
            }),
    {
        Self { addr, value: record.value, shard: record.shard, timestamp: record.clk, used: 1 }
    }
}

} // verus!
