//! Composite transactions: strict ordering, interleaved delays, and
//! short-circuit on the first failure.

use bl702_spi::delay::elapsed_since;
use bl702_spi::hal::Error;
use bl702_spi::sim::{FaultFlag, SimPort};
use bl702_spi::spi::{BusMode, Clocks, Operation, Phase, Polarity, Spi};

fn make_engine(sim: SimPort) -> Spi<SimPort, ()> {
    let mode = BusMode { polarity: Polarity::IdleLow, phase: Phase::CaptureOnFirstTransition };
    // 1 MHz core clock: one millisecond is exactly 1000 cycles.
    match Spi::new(sim, (), mode, 100_000, Clocks::new(1_000_000, 40_000_000)) {
        Ok(s) => s,
        Err(_) => panic!("construction must succeed for a reachable frequency"),
    }
}

#[test]
fn write_delay_read_in_order() {
    let mut sim = SimPort::new();
    sim.rx_script = vec![0, 0, 0x55, 0x66];
    let mut spi = make_engine(sim);
    let before: u64 = 0;
    let ops = vec![
        Operation::Write(vec![0xA1, 0xB2]),
        Operation::DelayNs(5_000_000),
        Operation::Read(vec![0; 2]),
    ];
    let outs = match spi.transaction(ops) {
        Ok(outs) => outs,
        Err(_) => panic!("no fault was scripted"),
    };
    let (sim, _pins) = spi.release();
    // The write's bytes precede the read's filler in the transmit history:
    // the operations ran in the exact order listed.
    assert_eq!(sim.sent_log, vec![0xA1, 0xB2, 0, 0]);
    assert_eq!(sim.received_log.len(), 4);
    // At least 5 ms of simulated cycles passed during the delay.
    assert!(elapsed_since(sim.cycles, before) > 5000);
    // The read operation comes back with the captured bytes.
    assert_eq!(outs.len(), 3);
    match &outs[2] {
        Operation::Read(buf) => assert_eq!(buf, &vec![0x55, 0x66]),
        _ => panic!("the third outcome must still be the read"),
    }
    match &outs[0] {
        Operation::Write(data) => assert_eq!(data, &vec![0xA1, 0xB2]),
        _ => panic!("the first outcome must still be the write"),
    }
}

#[test]
fn failing_write_stops_everything_after_it() {
    let mut sim = SimPort::new();
    sim.tx_fault = Some((0, FaultFlag::Overflow));
    let mut spi = make_engine(sim);
    let ops = vec![
        Operation::Write(vec![0xA1, 0xB2]),
        Operation::DelayNs(5_000_000),
        Operation::Read(vec![0; 2]),
    ];
    assert_eq!(spi.transaction(ops), Err(Error::TxOverflow));
    let (sim, _pins) = spi.release();
    // Nothing went out, nothing came in, and the delay never ran: the
    // simulated counter was never even read.
    assert_eq!(sim.sent_log.len(), 0);
    assert_eq!(sim.received_log.len(), 0);
    assert_eq!(sim.cycles, 0);
}

#[test]
fn fault_in_middle_operation_keeps_earlier_results() {
    let mut sim = SimPort::new();
    sim.rx_script = vec![1, 2, 3];
    // Fault once three bytes have been handed back: inside the second read.
    sim.rx_fault = Some((3, FaultFlag::Overflow));
    let mut spi = make_engine(sim);
    let ops = vec![Operation::Read(vec![0; 2]), Operation::Read(vec![0; 2])];
    assert_eq!(spi.transaction(ops), Err(Error::RxOverflow));
    let (sim, _pins) = spi.release();
    // The first read completed (2 bytes), the second got one byte in.
    assert_eq!(sim.received_log, vec![1, 2, 3]);
}

#[test]
fn transfer_and_in_place_operations_round_trip() {
    let mut sim = SimPort::new();
    sim.rx_script = vec![7, 8, 9, 10];
    let mut spi = make_engine(sim);
    let ops = vec![
        Operation::Transfer(vec![0; 2], vec![0xC3]),
        Operation::TransferInPlace(vec![0x11, 0x22]),
    ];
    let outs = match spi.transaction(ops) {
        Ok(outs) => outs,
        Err(_) => panic!("no fault was scripted"),
    };
    let (sim, _pins) = spi.release();
    // Transfer: 2 byte-steps (one data byte, one filler); in place: 2 more.
    assert_eq!(sim.sent_log, vec![0xC3, 0, 0x11, 0x22]);
    match &outs[0] {
        Operation::Transfer(rbuf, data) => {
            assert_eq!(rbuf, &vec![7, 8]);
            assert_eq!(data, &vec![0xC3]);
        },
        _ => panic!("the first outcome must still be the transfer"),
    }
    match &outs[1] {
        Operation::TransferInPlace(buf) => assert_eq!(buf, &vec![9, 10]),
        _ => panic!("the second outcome must still be the in-place transfer"),
    }
}

#[test]
fn empty_transaction_succeeds_and_does_nothing() {
    let mut spi = make_engine(SimPort::new());
    let outs = match spi.transaction(Vec::new()) {
        Ok(outs) => outs,
        Err(_) => panic!("an empty transaction cannot fault"),
    };
    assert_eq!(outs.len(), 0);
    let (sim, _pins) = spi.release();
    assert_eq!(sim.sent_log.len(), 0);
}

#[test]
fn delay_zero_and_one_ms_wait_enough() {
    for &ms in &[0u32, 1u32] {
        let mut spi = make_engine(SimPort::new());
        let ops = vec![Operation::DelayNs(ms * 1_000_000)];
        assert!(spi.transaction(ops).is_ok());
        let (sim, _pins) = spi.release();
        // The port promises strictly more elapsed cycles than requested,
        // measured from the start it was handed.
        assert!(elapsed_since(sim.cycles, 0) > (ms as u64) * 1000);
    }
}

#[test]
fn delay_one_second_waits_enough() {
    let mut spi = make_engine(SimPort::new());
    let ops = vec![Operation::DelayNs(1_000_000_000)];
    assert!(spi.transaction(ops).is_ok());
    let (sim, _pins) = spi.release();
    assert!(elapsed_since(sim.cycles, 0) > 1_000_000);
}

#[test]
fn delay_only_transaction_cannot_fault() {
    // A delay consults nothing fallible: even with both faults armed, a
    // transaction of delays and empty operations is owed success.
    let mut sim = SimPort::new();
    sim.tx_fault = Some((0, FaultFlag::Overflow));
    sim.rx_fault = Some((0, FaultFlag::Overflow));
    let mut spi = make_engine(sim);
    let ops = vec![
        Operation::DelayNs(100),
        Operation::Write(Vec::new()),
        Operation::Read(Vec::new()),
        Operation::DelayNs(50),
    ];
    assert!(spi.transaction(ops).is_ok());
}
