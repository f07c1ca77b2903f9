//! Divider arithmetic, construction, and the transfer policies, driven
//! through the scripted simulated port.

use bl702_spi::hal::{poll_rx, poll_tx, Error, ErrorKind, FifoStatus, PollStep, SpiConfig};
use bl702_spi::sim::{FaultFlag, SimPort};
use bl702_spi::spi::{
    clock_divider, BusMode, Clocks, Phase, Polarity, Spi, SpiBitFormat,
};

fn mode_0() -> BusMode {
    BusMode { polarity: Polarity::IdleLow, phase: Phase::CaptureOnFirstTransition }
}

fn make_engine(sim: SimPort) -> Spi<SimPort, ()> {
    // 40 MHz SPI clock, 100 kHz bus: half-period length 200.
    match Spi::new(sim, (), mode_0(), 100_000, Clocks::new(1_000_000, 40_000_000)) {
        Ok(s) => s,
        Err(_) => panic!("construction must succeed for a reachable frequency"),
    }
}

#[test]
fn divider_exact_values() {
    assert_eq!(clock_divider(40_000_000, 100_000), Some(199));
    assert_eq!(clock_divider(160, 40), Some(1));
    assert_eq!(clock_divider(8, 1), Some(3));
    // Boundaries of the representable range [1, 256].
    assert_eq!(clock_divider(2, 1), Some(0));
    assert_eq!(clock_divider(512, 1), Some(255));
}

#[test]
fn divider_rejects_out_of_range() {
    // Half-period length would be 500000: too slow to represent.
    assert_eq!(clock_divider(100_000_000, 100), None);
    // Half-period length would be 257: one past the top.
    assert_eq!(clock_divider(514, 1), None);
    // Desired frequency above half the peripheral clock: length 0.
    assert_eq!(clock_divider(1000, 8_000_000), None);
    // A zero frequency can never be generated.
    assert_eq!(clock_divider(40_000_000, 0), None);
}

#[test]
fn construction_programs_lockstep_periods() {
    let spi = make_engine(SimPort::new());
    let (sim, _pins) = spi.release();
    let cfg: SpiConfig = sim.config_reg;
    assert!(cfg.master);
    assert!(!cfg.slave_enabled);
    assert!(!cfg.continuous);
    assert_eq!(cfg.frame_size_code, 0);
    assert_eq!(cfg.period_phase0, 199);
    assert_eq!(cfg.period_phase1, 199);
    assert_eq!(cfg.period_interframe, 199);
    assert!(!cfg.polarity_idle_high);
    assert!(cfg.phase_capture_first);
}

#[test]
fn construction_maps_mode_bits() {
    let mode = BusMode { polarity: Polarity::IdleHigh, phase: Phase::CaptureOnSecondTransition };
    let spi = match Spi::new(SimPort::new(), (), mode, 100_000, Clocks::new(1, 40_000_000)) {
        Ok(s) => s,
        Err(_) => panic!("construction must succeed for a reachable frequency"),
    };
    let (sim, _pins) = spi.release();
    assert!(sim.config_reg.polarity_idle_high);
    assert!(!sim.config_reg.phase_capture_first);
}

#[test]
fn construction_fails_on_unreachable_frequency() {
    // Half-period length 500000 does not fit the period registers.
    let r = Spi::new(SimPort::new(), (), mode_0(), 100, Clocks::new(1_000_000, 100_000_000));
    let (sim, _pins) = match r {
        Ok(_) => panic!("an unreachable frequency must fail construction"),
        Err(parts) => parts,
    };
    // The port was handed back untouched: nothing was programmed.
    assert!(!sim.config_reg.master);
    assert_eq!(sim.sent_log.len(), 0);
}

#[test]
fn construction_fails_on_zero_frequency() {
    let r = Spi::new(SimPort::new(), (), mode_0(), 0, Clocks::new(1_000_000, 40_000_000));
    assert!(r.is_err());
}

#[test]
fn bit_format_sets_and_clears_inversion() {
    let mut spi = make_engine(SimPort::new());
    spi.bit_format(SpiBitFormat::LsbFirst);
    let (sim, _pins) = spi.release();
    assert!(sim.lsb_first_reg);

    let mut spi = make_engine(SimPort::new());
    spi.bit_format(SpiBitFormat::LsbFirst);
    spi.bit_format(SpiBitFormat::MsbFirst);
    let (sim, _pins) = spi.release();
    assert!(!sim.lsb_first_reg);
}

#[test]
fn clear_fifo_drops_pending_stalls() {
    let mut sim = SimPort::new();
    sim.tx_stall_polls = 3;
    sim.rx_stall_polls = 2;
    let mut spi = make_engine(sim);
    spi.clear_fifo();
    let (sim, _pins) = spi.release();
    assert_eq!(sim.tx_stall_polls, 0);
    assert_eq!(sim.rx_stall_polls, 0);
}

#[test]
fn flush_returns_ok_and_moves_no_data() {
    let mut spi = make_engine(SimPort::new());
    assert!(spi.flush().is_ok());
    let (sim, _pins) = spi.release();
    assert_eq!(sim.sent_log.len(), 0);
    assert_eq!(sim.received_log.len(), 0);
}

#[test]
fn write_sends_all_bytes_and_drains_fifo() {
    let mut spi = make_engine(SimPort::new());
    assert!(spi.write(&vec![1, 2, 3]).is_ok());
    let (sim, _pins) = spi.release();
    assert_eq!(sim.sent_log, vec![1, 2, 3]);
    // One byte drained per byte written, to keep the FIFO balanced.
    assert_eq!(sim.received_log.len(), 3);
}

#[test]
fn write_spins_through_stalls() {
    let mut sim = SimPort::new();
    sim.tx_stall_polls = 2;
    sim.rx_stall_polls = 1;
    let mut spi = make_engine(sim);
    assert!(spi.write(&vec![0x42]).is_ok());
    let (sim, _pins) = spi.release();
    assert_eq!(sim.sent_log, vec![0x42]);
}

#[test]
fn read_clocks_out_filler_and_captures() {
    let mut sim = SimPort::new();
    sim.rx_script = vec![9, 8, 7];
    let mut spi = make_engine(sim);
    let mut buf = vec![0; 3];
    assert!(spi.read(&mut buf).is_ok());
    assert_eq!(buf, vec![9, 8, 7]);
    let (sim, _pins) = spi.release();
    assert_eq!(sim.sent_log, vec![0, 0, 0]);
}

#[test]
fn transfer_shorter_read_buffer() {
    // 3 bytes in, 5 out: exactly 5 byte-steps, the first 3 captured in
    // order, the last 2 write-only.
    let mut sim = SimPort::new();
    sim.rx_script = vec![10, 20, 30];
    let mut spi = make_engine(sim);
    let mut rbuf = vec![0; 3];
    assert!(spi.transfer(&mut rbuf, &vec![1, 2, 3, 4, 5]).is_ok());
    assert_eq!(rbuf, vec![10, 20, 30]);
    let (sim, _pins) = spi.release();
    assert_eq!(sim.sent_log, vec![1, 2, 3, 4, 5]);
    assert_eq!(sim.received_log.len(), 3);
}

#[test]
fn transfer_shorter_write_buffer() {
    // 5 bytes in, 3 out: exactly 5 byte-steps, the first 3 paired, the last
    // 2 clock out 0x00 filler and capture.
    let mut sim = SimPort::new();
    sim.rx_script = vec![10, 20, 30, 40, 50];
    let mut spi = make_engine(sim);
    let mut rbuf = vec![0; 5];
    assert!(spi.transfer(&mut rbuf, &vec![1, 2, 3]).is_ok());
    assert_eq!(rbuf, vec![10, 20, 30, 40, 50]);
    let (sim, _pins) = spi.release();
    assert_eq!(sim.sent_log, vec![1, 2, 3, 0, 0]);
    assert_eq!(sim.received_log.len(), 5);
}

#[test]
fn transfer_equal_lengths() {
    let mut sim = SimPort::new();
    sim.rx_script = vec![5, 6];
    let mut spi = make_engine(sim);
    let mut rbuf = vec![0; 2];
    assert!(spi.transfer(&mut rbuf, &vec![7, 8]).is_ok());
    assert_eq!(rbuf, vec![5, 6]);
    let (sim, _pins) = spi.release();
    assert_eq!(sim.sent_log, vec![7, 8]);
}

#[test]
fn transfer_in_place_swaps_bytes() {
    let mut sim = SimPort::new();
    sim.rx_script = vec![4, 5, 6];
    let mut spi = make_engine(sim);
    let mut buf = vec![1, 2, 3];
    assert!(spi.transfer_in_place(&mut buf).is_ok());
    assert_eq!(buf, vec![4, 5, 6]);
    let (sim, _pins) = spi.release();
    assert_eq!(sim.sent_log, vec![1, 2, 3]);
}

#[test]
fn rx_overflow_aborts_without_rollback() {
    // The receive-overflow flag is raised on the third byte-step: the call
    // reports it at once, and the two bytes already captured stay put.
    let mut sim = SimPort::new();
    sim.rx_script = vec![9, 8, 7, 6, 5];
    sim.rx_fault = Some((2, FaultFlag::Overflow));
    let mut spi = make_engine(sim);
    let mut buf = vec![0xAA; 5];
    assert_eq!(spi.read(&mut buf), Err(Error::RxOverflow));
    assert_eq!(buf, vec![9, 8, 0xAA, 0xAA, 0xAA]);
    let (sim, _pins) = spi.release();
    // The failing step had already clocked its filler byte out.
    assert_eq!(sim.sent_log, vec![0, 0, 0]);
    assert_eq!(sim.received_log.len(), 2);
}

#[test]
fn rx_underflow_is_distinguished() {
    let mut sim = SimPort::new();
    sim.rx_fault = Some((0, FaultFlag::Underflow));
    let mut spi = make_engine(sim);
    let mut buf = vec![0; 2];
    assert_eq!(spi.read(&mut buf), Err(Error::RxUnderflow));
}

#[test]
fn tx_overflow_aborts_write() {
    let mut sim = SimPort::new();
    sim.tx_fault = Some((1, FaultFlag::Overflow));
    let mut spi = make_engine(sim);
    assert_eq!(spi.write(&vec![1, 2, 3]), Err(Error::TxOverflow));
    let (sim, _pins) = spi.release();
    // Exactly one byte went out before the fault; its pop completed too.
    assert_eq!(sim.sent_log, vec![1]);
    assert_eq!(sim.received_log.len(), 1);
}

#[test]
fn tx_underflow_is_distinguished() {
    let mut sim = SimPort::new();
    sim.tx_fault = Some((0, FaultFlag::Underflow));
    let mut spi = make_engine(sim);
    assert_eq!(spi.write(&vec![1]), Err(Error::TxUnderflow));
}

#[test]
fn tx_fault_in_transfer_write_only_suffix() {
    let mut sim = SimPort::new();
    sim.rx_script = vec![10, 20];
    sim.tx_fault = Some((3, FaultFlag::Overflow));
    let mut spi = make_engine(sim);
    let mut rbuf = vec![0; 2];
    // The paired prefix of 2 completes; the fault strikes on the fourth
    // push, inside the write-only suffix.
    assert_eq!(spi.transfer(&mut rbuf, &vec![1, 2, 3, 4, 5]), Err(Error::TxOverflow));
    assert_eq!(rbuf, vec![10, 20]);
    let (sim, _pins) = spi.release();
    assert_eq!(sim.sent_log, vec![1, 2, 3]);
}

#[test]
fn error_kind_classification() {
    assert_eq!(Error::RxOverflow.kind(), ErrorKind::Overrun);
    assert_eq!(Error::RxUnderflow.kind(), ErrorKind::Other);
    assert_eq!(Error::TxOverflow.kind(), ErrorKind::Other);
    assert_eq!(Error::TxUnderflow.kind(), ErrorKind::Other);
}

#[test]
fn poll_priority_order() {
    // A set overflow flag wins over everything.
    let st = FifoStatus { overflow: true, underflow: true, available: 0 };
    assert_eq!(poll_tx(st), PollStep::Fault(Error::TxOverflow));
    assert_eq!(poll_rx(st), PollStep::Fault(Error::RxOverflow));
    // Then a set underflow flag, even with data available.
    let st = FifoStatus { overflow: false, underflow: true, available: 5 };
    assert_eq!(poll_tx(st), PollStep::Fault(Error::TxUnderflow));
    assert_eq!(poll_rx(st), PollStep::Fault(Error::RxUnderflow));
    // No flags and nothing available: retry, never an error.
    let st = FifoStatus { overflow: false, underflow: false, available: 0 };
    assert_eq!(poll_tx(st), PollStep::Block);
    assert_eq!(poll_rx(st), PollStep::Block);
    // No flags and room (or data): go ahead.
    let st = FifoStatus { overflow: false, underflow: false, available: 1 };
    assert_eq!(poll_tx(st), PollStep::Ready);
    assert_eq!(poll_rx(st), PollStep::Ready);
}

#[test]
fn read_spins_through_stalls() {
    let mut sim = SimPort::new();
    sim.rx_script = vec![0x7E];
    sim.rx_stall_polls = 3;
    let mut spi = make_engine(sim);
    let mut buf = vec![0; 1];
    assert!(spi.read(&mut buf).is_ok());
    assert_eq!(buf, vec![0x7E]);
}

#[test]
fn empty_buffers_always_succeed() {
    // An empty operation makes no byte-step, so even armed faults cannot
    // strike: success is owed.
    let mut sim = SimPort::new();
    sim.tx_fault = Some((0, FaultFlag::Overflow));
    sim.rx_fault = Some((0, FaultFlag::Overflow));
    let mut spi = make_engine(sim);
    let mut empty: Vec<u8> = Vec::new();
    assert!(spi.read(&mut empty).is_ok());
    assert!(spi.write(&Vec::new()).is_ok());
    let mut rbuf: Vec<u8> = Vec::new();
    assert!(spi.transfer(&mut rbuf, &Vec::new()).is_ok());
    let mut buf: Vec<u8> = Vec::new();
    assert!(spi.transfer_in_place(&mut buf).is_ok());
    let (sim, _pins) = spi.release();
    assert_eq!(sim.sent_log.len(), 0);
    assert_eq!(sim.received_log.len(), 0);
}
