//! The port abstraction: what the bus engine asks of the hardware.
//!
//! A port owns one SPI peripheral's registers exclusively for its lifetime.
//! Its ghost views record the history the engine's contracts are stated
//! over: every byte accepted into the transmit FIFO, every byte handed back
//! from the receive FIFO, the cycle counter the delays poll, and the
//! busy-wait cycles the port has certified.

use vstd::prelude::*;

use crate::delay::elapsed_cycles;

verus! {

/// SPI error: the four terminal FIFO fault conditions. None is recoverable
/// in place; callers wanting recovery must clear the FIFOs explicitly.
#[derive(Debug, Clone, Copy, PartialEq, Eq, Structural)]
pub enum Error {
    /// Rx overflow occurred
    RxOverflow,
    /// Rx underflow occurred
    RxUnderflow,
    /// Tx overflow occurred
    TxOverflow,
    /// Tx underflow occurred
    TxUnderflow,
}

/// Broad classification of an [`Error`]: a receive overflow is an overrun
/// (data was lost on the way in); everything else is reported as other.
#[derive(Debug, Clone, Copy, PartialEq, Eq, Structural)]
pub enum ErrorKind {
    Overrun,
    Other,
}

/// True of the faults the transmit side of the FIFO reports.
pub open spec fn is_tx_fault(e: Error) -> bool {
    e == Error::TxOverflow || e == Error::TxUnderflow
}

/// True of the faults the receive side of the FIFO reports.
pub open spec fn is_rx_fault(e: Error) -> bool {
    e == Error::RxOverflow || e == Error::RxUnderflow
}

/// True of every terminal FIFO fault.
pub open spec fn is_fifo_fault(e: Error) -> bool {
    is_tx_fault(e) || is_rx_fault(e)
}

impl Error {
    /// The broad kind of this error.
    pub fn kind(&self) -> (r: ErrorKind)
        ensures
            r == (if *self == Error::RxOverflow {
                ErrorKind::Overrun
            } else {
                ErrorKind::Other
            }),
    {
        match self {
            Error::RxOverflow => ErrorKind::Overrun,
            Error::RxUnderflow => ErrorKind::Other,
            Error::TxOverflow => ErrorKind::Other,
            Error::TxUnderflow => ErrorKind::Other,
        }
    }
}

/// One sample of one FIFO direction's status, re-read from the hardware on
/// every poll and never cached.
#[derive(Debug, Clone, Copy, PartialEq, Eq, Structural)]
pub struct FifoStatus {
    /// The direction's overflow flag.
    pub overflow: bool,
    /// The direction's underflow flag.
    pub underflow: bool,
    /// What the direction has to offer right now: free slots for transmit,
    /// pending bytes for receive.
    pub available: u8,
}

/// What one poll of a FIFO direction tells the driver to do next.
#[derive(Debug, Clone, Copy, PartialEq, Eq, Structural)]
pub enum PollStep {
    /// A terminal fault: abort the call and report it.
    Fault(Error),
    /// Not ready yet: re-sample the status and try again.
    Block,
    /// Space (or data) is there: perform the push (or pop).
    Ready,
}

/// The transmit-side polling policy: a set overflow flag wins, then a set
/// underflow flag, then "no free slot" asks for a retry, else push.
pub open spec fn tx_poll_step(st: FifoStatus) -> PollStep {
    if st.overflow {
        PollStep::Fault(Error::TxOverflow)
    } else if st.underflow {
        PollStep::Fault(Error::TxUnderflow)
    } else if st.available == 0 {
        PollStep::Block
    } else {
        PollStep::Ready
    }
}

/// The receive-side polling policy, mirroring the transmit side.
pub open spec fn rx_poll_step(st: FifoStatus) -> PollStep {
    if st.overflow {
        PollStep::Fault(Error::RxOverflow)
    } else if st.underflow {
        PollStep::Fault(Error::RxUnderflow)
    } else if st.available == 0 {
        PollStep::Block
    } else {
        PollStep::Ready
    }
}

/// Decides what to do after one poll of the transmit FIFO's status.
pub fn poll_tx(st: FifoStatus) -> (r: PollStep)
    ensures
        r == tx_poll_step(st),
{
    if st.overflow {
        PollStep::Fault(Error::TxOverflow)
    } else if st.underflow {
        PollStep::Fault(Error::TxUnderflow)
    } else if st.available == 0 {
        PollStep::Block
    } else {
        PollStep::Ready
    }
}

/// Decides what to do after one poll of the receive FIFO's status.
pub fn poll_rx(st: FifoStatus) -> (r: PollStep)
    ensures
        r == rx_poll_step(st),
{
    if st.overflow {
        PollStep::Fault(Error::RxOverflow)
    } else if st.underflow {
        PollStep::Fault(Error::RxUnderflow)
    } else if st.available == 0 {
        PollStep::Block
    } else {
        PollStep::Ready
    }
}

/// The register-level configuration the engine programs at construction:
/// role, clock shape, frame size and the three period fields.
#[derive(Debug, Clone, Copy, PartialEq, Eq, Structural)]
pub struct SpiConfig {
    /// Controller role enabled.
    pub master: bool,
    /// Peripheral role enabled; must be mutually exclusive with `master`.
    pub slave_enabled: bool,
    /// SCLK idles high.
    pub polarity_idle_high: bool,
    /// Data is captured on the first SCLK transition.
    pub phase_capture_first: bool,
    /// Continuous-transfer mode enabled.
    pub continuous: bool,
    /// Frame-size field code; 0 selects 8-bit frames.
    pub frame_size_code: u8,
    /// Half-period length of SCLK data phase 0, as length minus one.
    pub period_phase0: u8,
    /// Half-period length of SCLK data phase 1, as length minus one.
    pub period_phase1: u8,
    /// Inter-frame idle period, as length minus one.
    pub period_interframe: u8,
}

/// Exclusive owner of one SPI peripheral's registers and of the cycle
/// counter its delays poll.
///
/// The blocking methods spin with no bound, re-sampling hardware state each
/// iteration, by design: there is no timeout, and a stuck peripheral hangs
/// the caller. `sent()` grows by exactly the bytes accepted for transmit,
/// `received()` by exactly the bytes handed back, so the engine's transfer
/// contracts can count and order byte-steps precisely.
pub trait SpiPort {
    /// Every byte accepted into the transmit FIFO so far, oldest first.
    spec fn sent(&self) -> Seq<u8>;

    /// Every byte handed back from the receive FIFO so far, oldest first.
    spec fn received(&self) -> Seq<u8>;

    /// The current value of the port's free-running cycle counter.
    spec fn clock(&self) -> u64;

    /// The configuration last programmed into the peripheral.
    spec fn config(&self) -> SpiConfig;

    /// Whether frames are sent least-significant bit first.
    spec fn lsb_first(&self) -> bool;

    /// Busy-wait cycles this port has certified so far: every completed
    /// [`Self::wait_cycles`] call adds the count it was proved to exceed.
    spec fn idled(&self) -> int;

    /// Program role, polarity, phase, frame size and timing registers.
    fn apply_config(&mut self, cfg: SpiConfig)
        ensures
            final(self).config() == cfg,
            final(self).sent() == old(self).sent(),
            final(self).received() == old(self).received(),
            final(self).lsb_first() == old(self).lsb_first(),
            final(self).idled() == old(self).idled(),
    ;

    /// Select the bit order of data frames.
    fn set_lsb_first(&mut self, lsb: bool)
        ensures
            final(self).lsb_first() == lsb,
            final(self).sent() == old(self).sent(),
            final(self).received() == old(self).received(),
            final(self).config() == old(self).config(),
            final(self).idled() == old(self).idled(),
    ;

    /// Trigger the one-shot clear of both FIFOs. Bytes already exchanged
    /// stay exchanged: the histories do not shrink.
    fn clear_fifos(&mut self)
        ensures
            final(self).sent() == old(self).sent(),
            final(self).received() == old(self).received(),
            final(self).config() == old(self).config(),
            final(self).lsb_first() == old(self).lsb_first(),
            final(self).idled() == old(self).idled(),
    ;

    /// Block until `byte` is accepted into the transmit FIFO or a transmit
    /// fault is read back; polling follows [`tx_poll_step`].
    fn write_byte(&mut self, byte: u8) -> (r: Result<(), Error>)
        ensures
            final(self).received() == old(self).received(),
            final(self).config() == old(self).config(),
            final(self).lsb_first() == old(self).lsb_first(),
            final(self).idled() == old(self).idled(),
            r matches Ok(()) ==> final(self).sent() == old(self).sent().push(byte),
            r matches Err(e) ==> final(self).sent() == old(self).sent() && is_tx_fault(e),
    ;

    /// Block until a byte is handed back from the receive FIFO or a receive
    /// fault is read back; polling follows [`rx_poll_step`].
    fn read_byte(&mut self) -> (r: Result<u8, Error>)
        ensures
            final(self).sent() == old(self).sent(),
            final(self).config() == old(self).config(),
            final(self).lsb_first() == old(self).lsb_first(),
            final(self).idled() == old(self).idled(),
            r matches Ok(b) ==> final(self).received() == old(self).received().push(b),
            r matches Err(e) ==> final(self).received() == old(self).received() && is_rx_fault(e),
    ;

    /// Block until the bus-busy status flag reads clear. Moves no data.
    fn wait_idle(&mut self)
        ensures
            final(self).sent() == old(self).sent(),
            final(self).received() == old(self).received(),
            final(self).config() == old(self).config(),
            final(self).lsb_first() == old(self).lsb_first(),
            final(self).idled() == old(self).idled(),
    ;

    /// Read the free-running cycle counter.
    fn cycle_count(&mut self) -> (r: u64)
        ensures
            r == final(self).clock(),
            final(self).sent() == old(self).sent(),
            final(self).received() == old(self).received(),
            final(self).config() == old(self).config(),
            final(self).lsb_first() == old(self).lsb_first(),
            final(self).idled() == old(self).idled(),
    ;

    /// Block until the counter reports more than `cycle_count` cycles
    /// elapsed since the earlier reading `start`. A full-range wait can
    /// never be satisfied, so it is excluded.
    fn wait_cycles(&mut self, start: u64, cycle_count: u64)
        requires
            cycle_count < u64::MAX,
        ensures
            elapsed_cycles(final(self).clock(), start) > cycle_count,
            final(self).sent() == old(self).sent(),
            final(self).received() == old(self).received(),
            final(self).config() == old(self).config(),
            final(self).lsb_first() == old(self).lsb_first(),
            final(self).idled() == old(self).idled() + cycle_count + 1,
    ;
}

} // verus!
