//! An in-memory port: a scripted stand-in for the SPI peripheral.
//!
//! Every [`SpiPort`] obligation is proved, not assumed, for this port, so
//! the engine's contracts can be exercised end to end without hardware: the
//! script supplies the bytes the peripheral shifts in, injects FIFO faults
//! at chosen byte-steps, and advances a simulated cycle counter.

use vstd::prelude::*;

use crate::hal::{
    is_rx_fault, is_tx_fault, poll_rx, poll_tx, Error, FifoStatus, PollStep, SpiConfig, SpiPort,
};

verus! {

/// Simulation needs no physical pins: the empty pin set is valid for the
/// simulated port.
impl crate::spi::Pins<SimPort> for () {

}

/// Which FIFO flag a scripted fault raises.
#[derive(Debug, Clone, Copy, PartialEq, Eq, Structural)]
pub enum FaultFlag {
    Overflow,
    Underflow,
}

/// How many free transmit slots or pending receive bytes a ready status
/// sample reports.
pub const SIM_FIFO_DEPTH: u8 = 4;

/// A scripted, in-memory SPI port.
///
/// The fields are open so a test can lay out a scenario directly and
/// inspect what the engine did to the simulated hardware.
pub struct SimPort {
    /// Every byte accepted for transmit, in order.
    pub sent_log: Vec<u8>,
    /// Every byte handed back to the driver, in order.
    pub received_log: Vec<u8>,
    /// Bytes the simulated peripheral shifts in, consumed in order; once
    /// the script is exhausted, further reads produce zero.
    pub rx_script: Vec<u8>,
    /// Not-ready transmit polls still to report before the next push.
    pub tx_stall_polls: u8,
    /// Not-ready receive polls still to report before the next pop.
    pub rx_stall_polls: u8,
    /// Raise this transmit flag once the count of bytes accepted for
    /// transmit reaches the index.
    pub tx_fault: Option<(usize, FaultFlag)>,
    /// Raise this receive flag once the count of bytes handed back reaches
    /// the index.
    pub rx_fault: Option<(usize, FaultFlag)>,
    /// The simulated free-running cycle counter.
    pub cycles: u64,
    /// How far the counter advances per read.
    pub cycle_step: u64,
    /// The configuration last programmed.
    pub config_reg: SpiConfig,
    /// The bit order last programmed.
    pub lsb_first_reg: bool,
    /// Ghost tally of the busy-wait cycles certified so far.
    pub idle_acc: Ghost<int>,
}

impl SimPort {
    /// A quiet port: empty logs and script, no stalls, no faults, counter
    /// at zero advancing by one per read.
    pub fn new() -> (r: SimPort)
        ensures
            r.sent() == Seq::<u8>::empty(),
            r.received() == Seq::<u8>::empty(),
            r.rx_script@ == Seq::<u8>::empty(),
            r.clock() == 0u64,
            r.cycle_step == 1u64,
            r.tx_fault is None,
            r.rx_fault is None,
            r.tx_stall_polls == 0u8,
            r.rx_stall_polls == 0u8,
            !r.lsb_first(),
            r.idled() == 0,
    {
        SimPort {
            sent_log: Vec::new(),
            received_log: Vec::new(),
            rx_script: Vec::new(),
            tx_stall_polls: 0,
            rx_stall_polls: 0,
            tx_fault: None,
            rx_fault: None,
            cycles: 0,
            cycle_step: 1,
            config_reg: SpiConfig {
                master: false,
                slave_enabled: false,
                polarity_idle_high: false,
                phase_capture_first: false,
                continuous: false,
                frame_size_code: 0,
                period_phase0: 0,
                period_phase1: 0,
                period_interframe: 0,
            },
            lsb_first_reg: false,
            idle_acc: Ghost(0),
        }
    }

    /// The transmit status one poll reads right now.
    fn sample_tx_status(&self) -> (st: FifoStatus)
        ensures
            st.overflow == (self.tx_fault matches Some((idx, flag))
                && idx == self.sent_log@.len() && flag == FaultFlag::Overflow),
            st.underflow == (self.tx_fault matches Some((idx, flag))
                && idx == self.sent_log@.len() && flag == FaultFlag::Underflow),
            !st.overflow && !st.underflow ==> st.available > 0,
    {
        match self.tx_fault {
            Some((idx, flag)) => {
                if idx == self.sent_log.len() {
                    FifoStatus {
                        overflow: flag == FaultFlag::Overflow,
                        underflow: flag == FaultFlag::Underflow,
                        available: 0,
                    }
                } else {
                    FifoStatus { overflow: false, underflow: false, available: SIM_FIFO_DEPTH }
                }
            },
            None => FifoStatus { overflow: false, underflow: false, available: SIM_FIFO_DEPTH },
        }
    }

    /// The receive status one poll reads right now.
    fn sample_rx_status(&self) -> (st: FifoStatus)
        ensures
            st.overflow == (self.rx_fault matches Some((idx, flag))
                && idx == self.received_log@.len() && flag == FaultFlag::Overflow),
            st.underflow == (self.rx_fault matches Some((idx, flag))
                && idx == self.received_log@.len() && flag == FaultFlag::Underflow),
            !st.overflow && !st.underflow ==> st.available > 0,
    {
        match self.rx_fault {
            Some((idx, flag)) => {
                if idx == self.received_log.len() {
                    FifoStatus {
                        overflow: flag == FaultFlag::Overflow,
                        underflow: flag == FaultFlag::Underflow,
                        available: 0,
                    }
                } else {
                    FifoStatus { overflow: false, underflow: false, available: SIM_FIFO_DEPTH }
                }
            },
            None => FifoStatus { overflow: false, underflow: false, available: SIM_FIFO_DEPTH },
        }
    }
}

impl SpiPort for SimPort {
    open spec fn sent(&self) -> Seq<u8> {
        self.sent_log@
    }

    open spec fn received(&self) -> Seq<u8> {
        self.received_log@
    }

    open spec fn clock(&self) -> u64 {
        self.cycles
    }

    open spec fn config(&self) -> SpiConfig {
        self.config_reg
    }

    open spec fn lsb_first(&self) -> bool {
        self.lsb_first_reg
    }

    open spec fn idled(&self) -> int {
        self.idle_acc@
    }

    fn apply_config(&mut self, cfg: SpiConfig) {
        self.config_reg = cfg;
    }

    fn set_lsb_first(&mut self, lsb: bool) {
        self.lsb_first_reg = lsb;
    }

    fn clear_fifos(&mut self) {
        self.tx_stall_polls = 0;
        self.rx_stall_polls = 0;
    }

    fn write_byte(&mut self, byte: u8) -> (r: Result<(), Error>) {
        let ghost pre = *self;
        while self.tx_stall_polls > 0
            invariant
                self.sent_log == pre.sent_log,
                self.received_log == pre.received_log,
                self.config_reg == pre.config_reg,
                self.lsb_first_reg == pre.lsb_first_reg,
                self.tx_fault == pre.tx_fault,
                self.idle_acc == pre.idle_acc,
            decreases self.tx_stall_polls,
        {
            self.tx_stall_polls = self.tx_stall_polls - 1;
        }
        let st = self.sample_tx_status();
        match poll_tx(st) {
            PollStep::Fault(e) => {
                proof {
                    assert(is_tx_fault(e));
                }
                Err(e)
            },
            PollStep::Ready => {
                self.sent_log.push(byte);
                Ok(())
            },
            PollStep::Block => {
                proof {
                    assert(false);
                }
                Err(Error::TxOverflow)
            },
        }
    }

    fn read_byte(&mut self) -> (r: Result<u8, Error>) {
        let ghost pre = *self;
        while self.rx_stall_polls > 0
            invariant
                self.sent_log == pre.sent_log,
                self.received_log == pre.received_log,
                self.config_reg == pre.config_reg,
                self.lsb_first_reg == pre.lsb_first_reg,
                self.rx_fault == pre.rx_fault,
                self.rx_script == pre.rx_script,
                self.idle_acc == pre.idle_acc,
            decreases self.rx_stall_polls,
        {
            self.rx_stall_polls = self.rx_stall_polls - 1;
        }
        let st = self.sample_rx_status();
        match poll_rx(st) {
            PollStep::Fault(e) => {
                proof {
                    assert(is_rx_fault(e));
                }
                Err(e)
            },
            PollStep::Ready => {
                let pos = self.received_log.len();
                let b: u8 = if pos < self.rx_script.len() {
                    self.rx_script[pos]
                } else {
                    0
                };
                self.received_log.push(b);
                Ok(b)
            },
            PollStep::Block => {
                proof {
                    assert(false);
                }
                Err(Error::RxOverflow)
            },
        }
    }

    fn wait_idle(&mut self) {
    }

    fn cycle_count(&mut self) -> (r: u64) {
        self.cycles = self.cycles.wrapping_add(self.cycle_step);
        self.cycles
    }

    fn wait_cycles(&mut self, start: u64, cycle_count: u64) {
        let d: u64 = cycle_count + 1;
        self.cycles = start.wrapping_add(d);
        self.idle_acc = Ghost(self.idle_acc@ + cycle_count as int + 1);
        proof {
            crate::delay::lemma_elapsed_recovers_advance(start, d);
        }
    }
}

} // verus!
