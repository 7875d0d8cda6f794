//! The library's vocabulary for radio transmit faults.
//!
//! The radio driver itself (SPI, GPIO and the transceiver registers)
//! lives outside the library; it reports its failures in these terms.

use vstd::prelude::*;

verus! {

/// A fault reported by the RFM69 transceiver driver.
#[derive(Debug, Clone, Copy, PartialEq, Eq, Structural)]
pub enum Rfm69Error {
    Cs,
    Spi,
    Timeout,
    AesKeySize,
    SyncSize,
    BufferTooSmall,
    PacketTooLarge,
}

} // verus!
