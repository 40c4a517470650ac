//! The PCAP (processor configuration access port) driver: register map,
//! status decoding, and the checks made before each transfer.

use vstd::prelude::*;

verus! {

pub const PCAP_BASE: u32 = 0xFF0A_0000;

pub const PCAP_CTRL: u32 = 0xFF0A_0000;
pub const PCAP_STAT: u32 = 0xFF0A_0004;
pub const PCAP_ADDR: u32 = 0xFF0A_0008;
pub const PCAP_SIZE: u32 = 0xFF0A_000C;
pub const PCAP_DATA: u32 = 0xFF0A_0010;
pub const PCAP_LOCK: u32 = 0xFF0A_0014;

pub const PCAP_CTRL_RUN: u32 = 1;
pub const PCAP_CTRL_READ: u32 = 2;
pub const PCAP_CTRL_WRITE: u32 = 4;
pub const PCAP_CTRL_RESET: u32 = 8;

pub const PCAP_STAT_FIFO_EMPTY: u32 = 4;
pub const PCAP_STAT_FIFO_FULL: u32 = 8;
pub const PCAP_STAT_BUSY: u32 = 16;

pub const PARTITION_SIZE_MAX: u32 = 8388608;

pub const ERR_OK: u8 = 0x01;
pub const ERR_NOT_FOUND: u8 = 0x02;
pub const ERR_VERIFY_FAIL: u8 = 0x03;
pub const ERR_TIMEOUT: u8 = 0x08;
pub const ERR_DFX_DECOUPLE: u8 = 0x09;

/// Polling budget of a register access.
pub const REGISTER_TIMEOUT: u32 = 10000;
/// Polling budget of a bitstream stream.
pub const STREAM_TIMEOUT: u32 = 1000000;

/// Decoded PCAP status register.
pub struct PcapStatus {
    pub busy: bool,
    pub fifo_empty: bool,
    pub fifo_full: bool,
    pub error: u8,
}

impl PcapStatus {
    /// Decodes a status register value: the busy and FIFO flags, and the
    /// error byte in bits 8..16.
    pub fn read(stat: u32) -> (s: Self)
        ensures
            s.busy == (stat & PCAP_STAT_BUSY != 0),
            s.fifo_empty == (stat & PCAP_STAT_FIFO_EMPTY != 0),
            s.fifo_full == (stat & PCAP_STAT_FIFO_FULL != 0),
            s.error as u32 == (stat >> 8) & 0xFF,
    {
        let e = (stat >> 8) & 0xFF;
        assert(e <= 0xFF) by (bit_vector)
            requires e == (stat >> 8) & 0xFF;
        PcapStatus {
            busy: (stat & PCAP_STAT_BUSY) != 0,
            fifo_empty: (stat & PCAP_STAT_FIFO_EMPTY) != 0,
            fifo_full: (stat & PCAP_STAT_FIFO_FULL) != 0,
            error: e as u8,
        }
    }
}

/// A pending transfer: destination, source address and size.
pub struct PcapTransfer {
    pub dest_addr: u32,
    pub source_addr: usize,
    pub byte_count: u32,
}

impl PcapTransfer {
    pub fn new(dest: u32, src: usize, bytes: u32) -> (t: Self)
        ensures
            t.dest_addr == dest,
            t.source_addr == src,
            t.byte_count == bytes,
    {
        PcapTransfer { dest_addr: dest, source_addr: src, byte_count: bytes }
    }
}

/// Whether the port is busy, from its status register.
pub fn is_busy(stat: u32) -> (b: bool)
    ensures
        b == (stat & PCAP_STAT_BUSY != 0),
{
    PcapStatus::read(stat).busy
}

/// The status decoded from a register value.
pub fn get_status(stat: u32) -> (s: PcapStatus)
    ensures
        s.busy == (stat & PCAP_STAT_BUSY != 0),
        s.fifo_empty == (stat & PCAP_STAT_FIFO_EMPTY != 0),
        s.fifo_full == (stat & PCAP_STAT_FIFO_FULL != 0),
        s.error as u32 == (stat >> 8) & 0xFF,
{
    PcapStatus::read(stat)
}

/// One round of waiting for the port: having polled `count` times already,
/// `busy` is the latest poll. `Ok(None)` means idle; `Ok(Some(n))` means poll
/// again with count `n`; `ERR_TIMEOUT` once the count reaches the budget.
pub fn wait_until_idle(count: u32, busy: bool, timeout_cycles: u32) -> (r: Result<Option<u32>, u8>)
    requires
        count < u32::MAX,
    ensures
        !busy ==> r == Ok::<Option<u32>, u8>(None),
        busy && count + 1 >= timeout_cycles ==> r == Err::<Option<u32>, u8>(ERR_TIMEOUT),
        busy && count + 1 < timeout_cycles ==> r == Ok::<Option<u32>, u8>(Some((count + 1) as u32)),
{
    if !busy {
        return Ok(None);
    }
    let next = count + 1;
    if next >= timeout_cycles {
        return Err(ERR_TIMEOUT);
    }
    Ok(Some(next))
}

/// A register access may start only when the port is idle; a busy port
/// means the partition is not decoupled.
pub fn check_idle(busy: bool) -> (r: Result<(), u8>)
    ensures
        r == (if busy { Err::<(), u8>(ERR_DFX_DECOUPLE) } else { Ok::<(), u8>(()) }),
{
    if busy {
        return Err(ERR_DFX_DECOUPLE);
    }
    Ok(())
}

/// Control word that starts a write.
pub fn write_command() -> (c: u32)
    ensures
        c == PCAP_CTRL_WRITE | PCAP_CTRL_RUN,
{
    PCAP_CTRL_WRITE | PCAP_CTRL_RUN
}

/// Control word that starts a read.
pub fn read_command() -> (c: u32)
    ensures
        c == PCAP_CTRL_READ | PCAP_CTRL_RUN,
{
    PCAP_CTRL_READ | PCAP_CTRL_RUN
}

/// Checks a bitstream stream request; on success gives the value for the
/// size register. A busy port is refused with `ERR_DFX_DECOUPLE`, a
/// bitstream larger than a partition with `ERR_TIMEOUT`.
pub fn stream_bitstream(busy: bool, byte_count: u32) -> (r: Result<u32, u8>)
    ensures
        busy ==> r == Err::<u32, u8>(ERR_DFX_DECOUPLE),
        !busy && byte_count > PARTITION_SIZE_MAX ==> r == Err::<u32, u8>(ERR_TIMEOUT),
        !busy && byte_count <= PARTITION_SIZE_MAX ==> r == Ok::<u32, u8>(byte_count),
{
    if busy {
        return Err(ERR_DFX_DECOUPLE);
    }
    if byte_count > PARTITION_SIZE_MAX {
        return Err(ERR_TIMEOUT);
    }
    Ok(byte_count)
}

/// The control words written by a reset: the reset bit, then zero.
pub fn reset() -> (r: (u32, u32))
    ensures
        r == (PCAP_CTRL_RESET, 0u32),
{
    (PCAP_CTRL_RESET, 0)
}

/// The control words written by `init`: the same as a reset.
pub fn init() -> (r: (u32, u32))
    ensures
        r == (PCAP_CTRL_RESET, 0u32),
{
    reset()
}

} // verus!
