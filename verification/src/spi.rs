//! Serial Peripheral Interface: full-duplex bus engine.
//!
//! The engine owns a [`SpiPort`] and a pin-set token for its lifetime and
//! drives byte-level interleaved transmit/receive through the port's FIFO.
//! Every transfer contract counts byte-steps exactly: each byte clocked out
//! simultaneously clocks one in, so every policy below pushes a byte before
//! it pops one — reversing that order would deadlock, since nothing arrives
//! before something is clocked out.

use vstd::arithmetic::div_mod::lemma_div_denominator;
use vstd::math::max;
use vstd::prelude::*;

use crate::delay::McycleDelay;
use crate::hal::{is_fifo_fault, is_rx_fault, is_tx_fault, Error, SpiConfig, SpiPort};

verus! {

/// The bit format to send the data in.
#[derive(Debug, Clone, Copy, PartialEq, Eq, Structural)]
pub enum SpiBitFormat {
    /// Least significant bit first
    LsbFirst,
    /// Most significant bit first
    MsbFirst,
}

/// The idle level of the bus clock line.
#[derive(Debug, Clone, Copy, PartialEq, Eq, Structural)]
pub enum Polarity {
    IdleLow,
    IdleHigh,
}

/// Which clock transition samples the data lines.
#[derive(Debug, Clone, Copy, PartialEq, Eq, Structural)]
pub enum Phase {
    CaptureOnFirstTransition,
    CaptureOnSecondTransition,
}

/// Clock polarity and phase, fixed for the lifetime of an engine.
#[derive(Debug, Clone, Copy, PartialEq, Eq, Structural)]
pub struct BusMode {
    pub polarity: Polarity,
    pub phase: Phase,
}

/// The clock frequencies construction consults: the core/system clock the
/// embedded delay counts in, and the clock feeding the SPI peripheral.
#[derive(Debug, Clone, Copy, PartialEq, Eq, Structural)]
pub struct Clocks {
    pub sysclk: u32,
    pub spi_clk: u32,
}

impl Clocks {
    pub fn new(sysclk: u32, spi_clk: u32) -> (r: Clocks)
        ensures
            r.sysclk == sysclk,
            r.spi_clk == spi_clk,
    {
        Clocks { sysclk, spi_clk }
    }

    /// Frequency of the core/system clock, in Hz.
    pub fn sysclk(&self) -> (r: u32)
        ensures
            r == self.sysclk,
    {
        self.sysclk
    }

    /// Frequency of the clock feeding the SPI peripheral, in Hz.
    pub fn spi_clk(&self) -> (r: u32)
        ensures
            r == self.spi_clk,
    {
        self.spi_clk
    }
}

/// MISO pins: capability tag for pins that may serve as data-in.
pub trait MisoPin<P> {

}

/// MOSI pins: capability tag for pins that may serve as data-out.
pub trait MosiPin<P> {

}

/// SS pins: capability tag for pins that may serve as chip-select.
pub trait SsPin<P> {

}

/// SCLK pins: capability tag for pins that may serve as the bus clock.
pub trait SclkPin<P> {

}

/// A complete pin set for one port: data-in, data-out, optional
/// chip-select, and clock. An invalid pin/role combination is rejected at
/// compile time, never discovered as hardware misbehaviour later.
pub trait Pins<P> {

}

impl<P, MISO: MisoPin<P>, MOSI: MosiPin<P>, SS: SsPin<P>, SCLK: SclkPin<P>> Pins<P> for (
    MISO,
    MOSI,
    SS,
    SCLK,
) {

}

impl<P, MISO: MisoPin<P>, MOSI: MosiPin<P>, SCLK: SclkPin<P>> Pins<P> for (MISO, MOSI, SCLK) {

}

/// Length, in peripheral clock cycles, of one half-period of the generated
/// bus clock: `bus_clk / (2 * freq)`, rounding down, so the generated clock
/// has a 50%-duty low/high phase.
pub open spec fn half_period_len(bus_clk: u32, freq: u32) -> int
    recommends
        freq > 0,
{
    bus_clk as int / (2 * freq as int)
}

/// Whether the desired bus frequency is reachable: the half-period length
/// must fit the hardware's period registers, whose range is [1, 256].
pub open spec fn divider_ok(bus_clk: u32, freq: u32) -> bool {
    freq > 0 && 1 <= half_period_len(bus_clk, freq) <= 256
}

/// The period-register value for a desired bus frequency `freq` given the
/// peripheral clock `bus_clk`: the half-period length minus one. An
/// unreachable frequency is rejected, never clamped.
pub fn clock_divider(bus_clk: u32, freq: u32) -> (r: Option<u8>)
    ensures
        r matches Some(d) ==> divider_ok(bus_clk, freq) && d == half_period_len(
            bus_clk,
            freq,
        ) - 1,
        r is None ==> !divider_ok(bus_clk, freq),
{
    if freq == 0 {
        return None;
    }
    let len = bus_clk / freq / 2;
    proof {
        lemma_div_denominator(bus_clk as int, freq as int, 2);
    }
    if len == 0 || len > 256 {
        None
    } else {
        Some((len - 1) as u8)
    }
}

/// The full configuration construction programs for a mode and a validated
/// half-period length: controller role, the mode's polarity and phase,
/// continuous mode off, 8-bit frames, and the same `len - 1` value in both
/// half-period fields and the inter-frame idle field — the three uses stay
/// in lock-step by construction.
pub open spec fn spi_config_for(mode: BusMode, len: int) -> SpiConfig {
    SpiConfig {
        master: true,
        slave_enabled: false,
        polarity_idle_high: mode.polarity == Polarity::IdleHigh,
        phase_capture_first: mode.phase == Phase::CaptureOnFirstTransition,
        continuous: false,
        frame_size_code: 0,
        period_phase0: (len - 1) as u8,
        period_phase1: (len - 1) as u8,
        period_interframe: (len - 1) as u8,
    }
}

/// `n` filler bytes of `0x00`, pushed whenever a byte must be clocked out
/// only so that one can be clocked in.
pub open spec fn zeros(n: int) -> Seq<u8> {
    Seq::new(n as nat, |i: int| 0u8)
}

/// `data` extended with `0x00` filler to `n` bytes (or cut to `n` if it is
/// longer): the exact sequence a transfer of `n` byte-steps clocks out when
/// it has `data` to send.
pub open spec fn padded(data: Seq<u8>, n: int) -> Seq<u8> {
    Seq::new(n as nat, |i: int| if i < data.len() { data[i] } else { 0u8 })
}

/// How far a failed call that captures into a destination buffer got.
///
/// With `j` the number of bytes pushed and `m` the number popped: the
/// pushes are the first `j` bytes of the intended outgoing sequence
/// `out_seq`, the captured bytes stand in the first `m` destination slots
/// in arrival order, the rest of the destination is untouched (no
/// rollback), and a receive-side fault struck right after the `m + 1`-th
/// push. The fault is one of the four terminal FIFO conditions.
pub open spec fn aborted_capture(
    e: Error,
    out_seq: Seq<u8>,
    old_sent: Seq<u8>,
    new_sent: Seq<u8>,
    old_rx: Seq<u8>,
    new_rx: Seq<u8>,
    old_buf: Seq<u8>,
    new_buf: Seq<u8>,
) -> bool {
    let j = new_sent.len() - old_sent.len();
    let m = new_rx.len() - old_rx.len();
    &&& is_fifo_fault(e)
    &&& 0 <= m <= new_buf.len()
    &&& m <= j <= out_seq.len()
    &&& new_sent == old_sent + out_seq.take(j)
    &&& new_rx == old_rx + new_buf.take(m)
    &&& new_buf.skip(m) == old_buf.skip(m)
    &&& (is_rx_fault(e) ==> j == m + 1)
}

/// How far a failed call that discards what it receives got: as
/// [`aborted_capture`], but the popped bytes land nowhere.
pub open spec fn aborted_discard(
    e: Error,
    out_seq: Seq<u8>,
    old_sent: Seq<u8>,
    new_sent: Seq<u8>,
    old_rx: Seq<u8>,
    new_rx: Seq<u8>,
) -> bool {
    let j = new_sent.len() - old_sent.len();
    let m = new_rx.len() - old_rx.len();
    &&& is_fifo_fault(e)
    &&& 0 <= m
    &&& m <= j <= out_seq.len()
    &&& new_sent == old_sent + out_seq.take(j)
    &&& old_rx.is_prefix_of(new_rx)
    &&& (is_rx_fault(e) ==> j == m + 1)
    &&& (is_tx_fault(e) ==> j == m)
}

/// One operation of a transaction, consumed once and handed back with its
/// buffers filled.
#[derive(Debug, PartialEq, Eq)]
pub enum Operation {
    /// Fill the buffer with incoming bytes, clocking out `0x00` filler.
    Read(Vec<u8>),
    /// Clock out the bytes, discarding what comes back.
    Write(Vec<u8>),
    /// Full-duplex transfer: capture into the first buffer while clocking
    /// out the second.
    Transfer(Vec<u8>, Vec<u8>),
    /// Full-duplex transfer where each byte is replaced by the one received.
    TransferInPlace(Vec<u8>),
    /// Busy-wait at least this many nanoseconds before the next operation.
    DelayNs(u32),
}

/// The bytes one operation clocks out when it succeeds.
pub open spec fn op_sent(op: Operation) -> Seq<u8> {
    match op {
        Operation::Read(buf) => zeros(buf@.len() as int),
        Operation::Write(data) => data@,
        Operation::Transfer(rbuf, data) => padded(
            data@,
            max(rbuf@.len() as int, data@.len() as int),
        ),
        Operation::TransferInPlace(buf) => buf@,
        Operation::DelayNs(_) => Seq::empty(),
    }
}

/// How many bytes one operation pops from the receive FIFO when it
/// succeeds.
pub open spec fn op_rx_len(op: Operation) -> int {
    match op {
        Operation::Read(buf) => buf@.len() as int,
        Operation::Write(data) => data@.len() as int,
        Operation::Transfer(rbuf, _data) => rbuf@.len() as int,
        Operation::TransferInPlace(buf) => buf@.len() as int,
        Operation::DelayNs(_) => 0,
    }
}

/// The bytes a whole transaction clocks out, operation by operation.
pub open spec fn ops_sent(ops: Seq<Operation>) -> Seq<u8>
    decreases ops.len(),
{
    if ops.len() == 0 {
        Seq::empty()
    } else {
        op_sent(ops[0]) + ops_sent(ops.skip(1))
    }
}

/// How many bytes a whole transaction pops, operation by operation.
pub open spec fn ops_rx_len(ops: Seq<Operation>) -> int
    decreases ops.len(),
{
    if ops.len() == 0 {
        0int
    } else {
        op_rx_len(ops[0]) + ops_rx_len(ops.skip(1))
    }
}

/// Busy-wait cycles one operation obliges the port to certify when it
/// succeeds: a delay is converted at the core clock frequency and always
/// waits strictly longer than the converted count; nothing else waits.
pub open spec fn op_idle_cycles(op: Operation, freq: u32) -> int {
    match op {
        Operation::DelayNs(d) => crate::delay::duration_cycles(d, freq, 1_000_000_000u64) + 1,
        _ => 0,
    }
}

/// Busy-wait cycles a whole transaction obliges the port to certify.
pub open spec fn ops_idle_cycles(ops: Seq<Operation>, freq: u32) -> int
    decreases ops.len(),
{
    if ops.len() == 0 {
        0int
    } else {
        op_idle_cycles(ops[0], freq) + ops_idle_cycles(ops.skip(1), freq)
    }
}

/// What a successful operation hands back: the same operation with its
/// capture buffer (if it has one) holding exactly the `rx` bytes the
/// operation popped, in arrival order, and its outgoing data untouched.
pub open spec fn op_outcome(op: Operation, out: Operation, rx: Seq<u8>) -> bool {
    &&& rx.len() == op_rx_len(op)
    &&& match op {
        Operation::Read(buf) => (out matches Operation::Read(b2) && b2@ == rx && b2@.len()
            == buf@.len()),
        Operation::Write(data) => (out matches Operation::Write(d2) && d2@ == data@),
        Operation::Transfer(rbuf, data) => (out matches Operation::Transfer(rb2, d2) && d2@
            == data@ && rb2@ == rx && rb2@.len() == rbuf@.len()),
        Operation::TransferInPlace(buf) => (out matches Operation::TransferInPlace(b2) && b2@
            == rx && b2@.len() == buf@.len()),
        Operation::DelayNs(d) => (out matches Operation::DelayNs(d2) && d2 == d),
    }
}

/// What a fully successful transaction hands back: one outcome per
/// operation, in order, splitting the popped bytes `rx` between the
/// operations in order.
pub open spec fn transaction_outcome(ops: Seq<Operation>, outs: Seq<Operation>, rx: Seq<u8>) -> bool
    decreases ops.len(),
{
    if ops.len() == 0 {
        outs.len() == 0 && rx.len() == 0
    } else {
        &&& outs.len() == ops.len()
        &&& rx.len() >= op_rx_len(ops[0])
        &&& op_outcome(ops[0], outs[0], rx.take(op_rx_len(ops[0])))
        &&& transaction_outcome(ops.skip(1), outs.skip(1), rx.skip(op_rx_len(ops[0])))
    }
}

/// Where a failed transaction stopped: every operation before index `k` ran
/// to completion, operation `k` was entered, moved some bytes, and aborted
/// partway — its pushes are a prefix of what it would have clocked out —
/// and nothing after `k` ran. Only an operation with a byte-step can fault:
/// an operation that moves nothing never stops a transaction.
pub open spec fn halted_within(
    ops: Seq<Operation>,
    k: int,
    old_sent: Seq<u8>,
    new_sent: Seq<u8>,
    old_rx: Seq<u8>,
    new_rx: Seq<u8>,
) -> bool {
    &&& 0 <= k < ops.len()
    &&& op_sent(ops[k]).len() > 0 || op_rx_len(ops[k]) > 0
    &&& new_sent == old_sent + ops_sent(ops.take(k)) + op_sent(ops[k]).take(
        new_sent.len() - old_sent.len() - ops_sent(ops.take(k)).len(),
    )
    &&& new_sent.len() >= old_sent.len() + ops_sent(ops.take(k)).len()
    &&& new_sent.len() <= old_sent.len() + ops_sent(ops.take(k)).len() + op_sent(ops[k]).len()
    &&& old_rx.is_prefix_of(new_rx)
    &&& old_rx.len() + ops_rx_len(ops.take(k)) <= new_rx.len() <= old_rx.len() + ops_rx_len(
        ops.take(k),
    ) + op_rx_len(ops[k])
}

/// Appending one more operation's outcome to a transaction outcome keeps it
/// a transaction outcome.
proof fn lemma_transaction_outcome_push(
    ops: Seq<Operation>,
    outs: Seq<Operation>,
    rx: Seq<u8>,
    op: Operation,
    out: Operation,
    seg: Seq<u8>,
)
    requires
        transaction_outcome(ops, outs, rx),
        op_outcome(op, out, seg),
    ensures
        transaction_outcome(ops.push(op), outs.push(out), rx + seg),
    decreases ops.len(),
{
    if ops.len() == 0 {
        assert(ops.push(op)[0] == op);
        assert(outs.push(out)[0] == out);
        assert(rx + seg =~= seg);
        assert(seg.take(op_rx_len(op)) =~= seg);
        assert(seg.skip(op_rx_len(op)) =~= Seq::<u8>::empty());
        assert(ops.push(op).skip(1) =~= Seq::<Operation>::empty());
        assert(outs.push(out).skip(1) =~= Seq::<Operation>::empty());
        assert(transaction_outcome(
            Seq::<Operation>::empty(),
            Seq::<Operation>::empty(),
            Seq::<u8>::empty(),
        ));
        assert((rx + seg).take(op_rx_len(op)) =~= seg);
        assert((rx + seg).skip(op_rx_len(op)) =~= Seq::<u8>::empty());
    } else {
        let k = op_rx_len(ops[0]);
        lemma_transaction_outcome_push(ops.skip(1), outs.skip(1), rx.skip(k), op, out, seg);
        assert(ops.push(op)[0] == ops[0]);
        assert(outs.push(out)[0] == outs[0]);
        assert(ops.push(op).skip(1) =~= ops.skip(1).push(op));
        assert(outs.push(out).skip(1) =~= outs.skip(1).push(out));
        assert((rx + seg).take(k) =~= rx.take(k));
        assert((rx + seg).skip(k) =~= rx.skip(k) + seg);
    }
}

/// The outgoing bytes, receive count and obliged idle cycles of a
/// transaction extended by one operation.
proof fn lemma_ops_sent_push(ops: Seq<Operation>, op: Operation, freq: u32)
    ensures
        ops_sent(ops.push(op)) == ops_sent(ops) + op_sent(op),
        ops_rx_len(ops.push(op)) == ops_rx_len(ops) + op_rx_len(op),
        ops_idle_cycles(ops.push(op), freq) == ops_idle_cycles(ops, freq) + op_idle_cycles(
            op,
            freq,
        ),
    decreases ops.len(),
{
    assert(ops_sent(ops.push(op)) == op_sent(ops.push(op)[0]) + ops_sent(ops.push(op).skip(1)));
    assert(ops_rx_len(ops.push(op)) == op_rx_len(ops.push(op)[0]) + ops_rx_len(
        ops.push(op).skip(1),
    ));
    assert(ops_idle_cycles(ops.push(op), freq) == op_idle_cycles(ops.push(op)[0], freq)
        + ops_idle_cycles(ops.push(op).skip(1), freq));
    if ops.len() == 0 {
        assert(ops.push(op)[0] == op);
        assert(ops.push(op).skip(1) =~= Seq::<Operation>::empty());
        assert(op_sent(op) + Seq::<u8>::empty() =~= op_sent(op));
        assert(ops_sent(ops) + op_sent(op) =~= op_sent(op));
    } else {
        lemma_ops_sent_push(ops.skip(1), op, freq);
        assert(ops.push(op)[0] == ops[0]);
        assert(ops.push(op).skip(1) =~= ops.skip(1).push(op));
        assert(ops_sent(ops) + op_sent(op) =~= op_sent(ops[0]) + (ops_sent(ops.skip(1)) + op_sent(
            op,
        )));
    }
}

/// A transaction never pops a negative number of bytes.
proof fn lemma_ops_rx_len_nonneg(ops: Seq<Operation>)
    ensures
        ops_rx_len(ops) >= 0,
    decreases ops.len(),
{
    if ops.len() > 0 {
        lemma_ops_rx_len_nonneg(ops.skip(1));
    }
}

/// A transaction never obliges a negative busy-wait.
proof fn lemma_ops_idle_nonneg(ops: Seq<Operation>, freq: u32)
    ensures
        ops_idle_cycles(ops, freq) >= 0,
    decreases ops.len(),
{
    if ops.len() > 0 {
        lemma_op_idle_nonneg(ops[0], freq);
        lemma_ops_idle_nonneg(ops.skip(1), freq);
    }
}

/// One operation never obliges a negative busy-wait.
proof fn lemma_op_idle_nonneg(op: Operation, freq: u32)
    ensures
        op_idle_cycles(op, freq) >= 0,
{
    match op {
        Operation::DelayNs(d) => {
            assert(d as int * freq as int >= 0) by (nonlinear_arith)
                requires
                    d as int >= 0,
                    freq as int >= 0,
            ;
            vstd::arithmetic::div_mod::lemma_div_pos_is_pos(
                d as int * freq as int,
                1_000_000_000int,
            );
        },
        _ => {},
    }
}

/// A Serial Peripheral Interface engine: exclusive owner of one port and of
/// the pin-set token that permits driving it.
pub struct Spi<H, PINS> {
    hal: H,
    pins: PINS,
    delay: McycleDelay,
}

impl<H: SpiPort, PINS: Pins<H>> Spi<H, PINS> {
    /// Every byte this engine has pushed to the transmit FIFO.
    pub closed spec fn sent(&self) -> Seq<u8> {
        self.hal.sent()
    }

    /// Every byte this engine has popped from the receive FIFO.
    pub closed spec fn received(&self) -> Seq<u8> {
        self.hal.received()
    }

    /// The configuration programmed into the port.
    pub closed spec fn config(&self) -> SpiConfig {
        self.hal.config()
    }

    /// Whether frames go out least-significant bit first.
    pub closed spec fn lsb_first(&self) -> bool {
        self.hal.lsb_first()
    }

    /// The core clock frequency the embedded delay converts durations with.
    pub closed spec fn core_freq(&self) -> u32 {
        self.delay.freq()
    }

    /// Busy-wait cycles the port has certified for this engine so far.
    pub closed spec fn idled(&self) -> int {
        self.hal.idled()
    }

    /// The port, as a ghost value.
    pub closed spec fn spec_hal(&self) -> H {
        self.hal
    }

    /// The pin set, as a ghost value.
    pub closed spec fn spec_pins(&self) -> PINS {
        self.pins
    }

    /// Constructs an SPI engine in 8-bit dataframe mode. The frequency
    /// cannot be more than half of the SPI peripheral clock frequency; an
    /// unreachable frequency fails construction and hands the port and pins
    /// back untouched.
    pub fn new(hal: H, pins: PINS, mode: BusMode, freq: u32, clocks: Clocks) -> (r: Result<
        Spi<H, PINS>,
        (H, PINS),
    >)
        ensures
            r matches Err((h, p)) ==> h == hal && p == pins && !divider_ok(clocks.spi_clk, freq),
            r matches Ok(s) ==> divider_ok(clocks.spi_clk, freq) && s.config() == spi_config_for(
                mode,
                half_period_len(clocks.spi_clk, freq),
            ) && s.sent() == hal.sent() && s.received() == hal.received() && s.lsb_first()
                == hal.lsb_first() && s.idled() == hal.idled() && s.core_freq() == clocks.sysclk
                && s.spec_pins() == pins,
    {
        let d = match clock_divider(clocks.spi_clk, freq) {
            Some(d) => d,
            None => {
                return Err((hal, pins));
            },
        };
        let polarity_idle_high = match mode.polarity {
            Polarity::IdleLow => false,
            Polarity::IdleHigh => true,
        };
        let phase_capture_first = match mode.phase {
            Phase::CaptureOnFirstTransition => true,
            Phase::CaptureOnSecondTransition => false,
        };
        let cfg = SpiConfig {
            master: true,
            slave_enabled: false,
            polarity_idle_high,
            phase_capture_first,
            continuous: false,
            frame_size_code: 0,
            period_phase0: d,
            period_phase1: d,
            period_interframe: d,
        };
        let mut hal = hal;
        hal.apply_config(cfg);
        Ok(Spi { hal, pins, delay: McycleDelay::new(clocks.sysclk) })
    }

    /// Relinquishes ownership of the port and the pins, allowing the caller
    /// to reuse or reconfigure the underlying resources.
    pub fn release(self) -> (r: (H, PINS))
        ensures
            r.0 == self.spec_hal(),
            r.1 == self.spec_pins(),
    {
        (self.hal, self.pins)
    }

    /// Select which frame format is used for data transfers.
    pub fn bit_format(&mut self, format: SpiBitFormat)
        ensures
            final(self).lsb_first() == (format == SpiBitFormat::LsbFirst),
            final(self).sent() == old(self).sent(),
            final(self).received() == old(self).received(),
            final(self).config() == old(self).config(),
            final(self).idled() == old(self).idled(),
    {
        match format {
            SpiBitFormat::LsbFirst => self.hal.set_lsb_first(true),
            SpiBitFormat::MsbFirst => self.hal.set_lsb_first(false),
        }
    }

    /// Clear both FIFOs. Bytes already exchanged stay exchanged.
    pub fn clear_fifo(&mut self)
        ensures
            final(self).sent() == old(self).sent(),
            final(self).received() == old(self).received(),
            final(self).config() == old(self).config(),
            final(self).lsb_first() == old(self).lsb_first(),
            final(self).idled() == old(self).idled(),
    {
        self.hal.clear_fifos();
    }

    /// Busy-wait until the bus-busy status flag clears; moves no data.
    pub fn flush(&mut self) -> (r: Result<(), Error>)
        ensures
            r is Ok,
            final(self).sent() == old(self).sent(),
            final(self).received() == old(self).received(),
            final(self).config() == old(self).config(),
            final(self).lsb_first() == old(self).lsb_first(),
            final(self).idled() == old(self).idled(),
    {
        self.hal.wait_idle();
        Ok(())
    }

    /// Fill `words` with incoming bytes: for each destination byte, clock
    /// out a `0x00` filler, then capture what came back. On a fault the
    /// call aborts at once; bytes already captured stay in `words`.
    pub fn read(&mut self, words: &mut Vec<u8>) -> (r: Result<(), Error>)
        ensures
            final(words)@.len() == old(words)@.len(),
            final(self).config() == old(self).config(),
            final(self).lsb_first() == old(self).lsb_first(),
            final(self).idled() == old(self).idled(),
            final(self).core_freq() == old(self).core_freq(),
            old(words)@.len() == 0 ==> r is Ok,
            r matches Ok(()) ==> final(self).sent() == old(self).sent() + zeros(
                old(words)@.len() as int,
            ) && final(self).received() == old(self).received() + final(words)@,
            r matches Err(e) ==> aborted_capture(
                e,
                zeros(old(words)@.len() as int),
                old(self).sent(),
                final(self).sent(),
                old(self).received(),
                final(self).received(),
                old(words)@,
                final(words)@,
            ) && (is_tx_fault(e) ==> final(self).sent().len() == final(self).received().len()
                - old(self).received().len() + old(self).sent().len()),
    {
        let ghost s0 = self.hal.sent();
        let ghost r0 = self.hal.received();
        let ghost w0 = words@;
        let n = words.len();
        let mut idx: usize = 0;
        while idx < n
            invariant
                idx <= n,
                words@.len() == n,
                self.hal.sent() == s0 + zeros(idx as int),
                self.hal.received() == r0 + words@.take(idx as int),
                words@.skip(idx as int) == w0.skip(idx as int),
                self.hal.config() == old(self).config(),
                self.hal.lsb_first() == old(self).lsb_first(),
                self.hal.idled() == old(self).idled(),
                self.delay == old(self).delay,
            decreases n - idx,
        {
            match self.hal.write_byte(0x00) {
                Ok(()) => {},
                Err(e) => {
                    proof {
                        assert(zeros(n as int).take(idx as int) =~= zeros(idx as int));
                    }
                    return Err(e);
                },
            }
            let ghost wprev = words@;
            match self.hal.read_byte() {
                Ok(b) => {
                    words[idx] = b;
                    proof {
                        assert(zeros(idx as int).push(0u8) =~= zeros((idx + 1) as int));
                        assert(words@.take((idx + 1) as int) =~= wprev.take(idx as int).push(b));
                        assert forall|i: int| idx + 1 <= i < n implies words@[i] == w0[i] by {
                            assert(wprev.skip(idx as int)[i - idx] == w0.skip(idx as int)[i
                                - idx]);
                        }
                        assert(words@.skip((idx + 1) as int) =~= w0.skip((idx + 1) as int));
                    }
                },
                Err(e) => {
                    proof {
                        assert(zeros(idx as int).push(0u8) =~= zeros(n as int).take(
                            (idx + 1) as int,
                        ));
                    }
                    return Err(e);
                },
            }
            idx = idx + 1;
        }
        proof {
            assert(zeros(idx as int) =~= zeros(n as int));
            assert(words@.take(idx as int) =~= words@);
        }
        Ok(())
    }

    /// Clock out every byte of `words` in order. Each byte clocked out
    /// clocks one in, which is popped and discarded to keep the FIFO
    /// balanced, so the received history still grows by one per byte.
    pub fn write(&mut self, words: &Vec<u8>) -> (r: Result<(), Error>)
        ensures
            final(self).config() == old(self).config(),
            final(self).lsb_first() == old(self).lsb_first(),
            final(self).idled() == old(self).idled(),
            final(self).core_freq() == old(self).core_freq(),
            words@.len() == 0 ==> r is Ok,
            r matches Ok(()) ==> final(self).sent() == old(self).sent() + words@ && final(self).received().len() == old(self).received().len() + words@.len() && old(self).received().is_prefix_of(final(self).received()),
            r matches Err(e) ==> aborted_discard(
                e,
                words@,
                old(self).sent(),
                final(self).sent(),
                old(self).received(),
                final(self).received(),
            ),
    {
        let ghost s0 = self.hal.sent();
        let ghost r0 = self.hal.received();
        let n = words.len();
        let mut idx: usize = 0;
        while idx < n
            invariant
                idx <= n,
                self.hal.sent() == s0 + words@.take(idx as int),
                self.hal.received().len() == r0.len() + idx,
                self.hal.received().take(r0.len() as int) == r0,
                self.hal.config() == old(self).config(),
                self.hal.lsb_first() == old(self).lsb_first(),
                self.hal.idled() == old(self).idled(),
                self.delay == old(self).delay,
            decreases n - idx,
        {
            let ghost rx_prev = self.hal.received();
            match self.hal.write_byte(words[idx]) {
                Ok(()) => {
                    proof {
                        assert(words@.take(idx as int).push(words@[idx as int]) =~= words@.take(
                            (idx + 1) as int,
                        ));
                    }
                },
                Err(e) => {
                    proof {
                        assert(r0.is_prefix_of(self.hal.received()));
                    }
                    return Err(e);
                },
            }
            match self.hal.read_byte() {
                Ok(_discarded) => {
                    proof {
                        assert(self.hal.received().take(r0.len() as int) =~= rx_prev.take(
                            r0.len() as int,
                        ));
                    }
                },
                Err(e) => {
                    proof {
                        assert(r0.is_prefix_of(self.hal.received()));
                    }
                    return Err(e);
                },
            }
            idx = idx + 1;
        }
        proof {
            assert(words@.take(n as int) =~= words@);
            assert(r0.is_prefix_of(self.hal.received()));
        }
        Ok(())
    }

    /// Full-duplex transfer with possibly different buffer lengths: exactly
    /// `max(read.len(), write.len())` byte-steps occur. The overlapping
    /// prefix pairs each outgoing byte with a capture into `read`; a longer
    /// `write` finishes with write-only steps whose incoming bytes are left
    /// in the FIFO; a longer `read` finishes with `0x00` filler writes whose
    /// incoming bytes are captured.
    pub fn transfer(&mut self, read: &mut Vec<u8>, write: &Vec<u8>) -> (r: Result<(), Error>)
        ensures
            final(read)@.len() == old(read)@.len(),
            final(self).config() == old(self).config(),
            final(self).lsb_first() == old(self).lsb_first(),
            final(self).idled() == old(self).idled(),
            final(self).core_freq() == old(self).core_freq(),
            old(read)@.len() == 0 && write@.len() == 0 ==> r is Ok,
            r matches Ok(()) ==> final(self).sent() == old(self).sent() + padded(
                write@,
                max(old(read)@.len() as int, write@.len() as int),
            ) && final(self).received() == old(self).received() + final(read)@,
            r matches Err(e) ==> aborted_capture(
                e,
                padded(write@, max(old(read)@.len() as int, write@.len() as int)),
                old(self).sent(),
                final(self).sent(),
                old(self).received(),
                final(self).received(),
                old(read)@,
                final(read)@,
            ),
    {
        let ghost s0 = self.hal.sent();
        let ghost r0 = self.hal.received();
        let ghost rb0 = read@;
        let ghost wv = write@;
        let rlen = read.len();
        let wlen = write.len();
        let ghost nmax = max(rlen as int, wlen as int);
        let common = if rlen < wlen {
            rlen
        } else {
            wlen
        };
        let mut idx: usize = 0;
        while idx < common
            invariant
                idx <= common,
                common <= rlen && common <= wlen,
                read@.len() == rlen,
                self.hal.sent() == s0 + padded(wv, nmax).take(idx as int),
                self.hal.received() == r0 + read@.take(idx as int),
                read@.skip(idx as int) == rb0.skip(idx as int),
                self.hal.config() == old(self).config(),
                self.hal.lsb_first() == old(self).lsb_first(),
                self.hal.idled() == old(self).idled(),
                self.delay == old(self).delay,
            decreases common - idx,
        {
            match self.hal.write_byte(write[idx]) {
                Ok(()) => {
                    proof {
                        assert(padded(wv, nmax).take(idx as int).push(wv[idx as int]) =~= padded(
                            wv,
                            nmax,
                        ).take((idx + 1) as int));
                    }
                },
                Err(e) => {
                    return Err(e);
                },
            }
            let ghost rprev = read@;
            match self.hal.read_byte() {
                Ok(b) => {
                    read[idx] = b;
                    proof {
                        assert(read@.take((idx + 1) as int) =~= rprev.take(idx as int).push(b));
                        assert forall|i: int| idx + 1 <= i < rlen implies read@[i] == rb0[i] by {
                            assert(rprev.skip(idx as int)[i - idx] == rb0.skip(idx as int)[i
                                - idx]);
                        }
                        assert(read@.skip((idx + 1) as int) =~= rb0.skip((idx + 1) as int));
                    }
                },
                Err(e) => {
                    return Err(e);
                },
            }
            idx = idx + 1;
        }
        if rlen < wlen {
            while idx < wlen
                invariant
                    rlen <= idx <= wlen,
                    read@.len() == rlen,
                    self.hal.sent() == s0 + padded(wv, nmax).take(idx as int),
                    self.hal.received() == r0 + read@.take(rlen as int),
                    self.hal.config() == old(self).config(),
                    self.hal.lsb_first() == old(self).lsb_first(),
                    self.hal.idled() == old(self).idled(),
                    self.delay == old(self).delay,
                decreases wlen - idx,
            {
                match self.hal.write_byte(write[idx]) {
                    Ok(()) => {
                        proof {
                            assert(padded(wv, nmax).take(idx as int).push(wv[idx as int])
                                =~= padded(wv, nmax).take((idx + 1) as int));
                        }
                    },
                    Err(e) => {
                        proof {
                            assert(read@.take(rlen as int) =~= read@);
                            assert(read@.skip(rlen as int) =~= rb0.skip(rlen as int));
                        }
                        return Err(e);
                    },
                }
                idx = idx + 1;
            }
            proof {
                assert(padded(wv, nmax).take(idx as int) =~= padded(wv, nmax));
                assert(read@.take(rlen as int) =~= read@);
            }
        } else {
            while idx < rlen
                invariant
                    wlen <= idx <= rlen,
                    read@.len() == rlen,
                    self.hal.sent() == s0 + padded(wv, nmax).take(idx as int),
                    self.hal.received() == r0 + read@.take(idx as int),
                    read@.skip(idx as int) == rb0.skip(idx as int),
                    self.hal.config() == old(self).config(),
                    self.hal.lsb_first() == old(self).lsb_first(),
                    self.hal.idled() == old(self).idled(),
                    self.delay == old(self).delay,
                decreases rlen - idx,
            {
                match self.hal.write_byte(0x00) {
                    Ok(()) => {
                        proof {
                            assert(padded(wv, nmax).take(idx as int).push(0u8) =~= padded(
                                wv,
                                nmax,
                            ).take((idx + 1) as int));
                        }
                    },
                    Err(e) => {
                        return Err(e);
                    },
                }
                let ghost rprev = read@;
                match self.hal.read_byte() {
                    Ok(b) => {
                        read[idx] = b;
                        proof {
                            assert(read@.take((idx + 1) as int) =~= rprev.take(idx as int).push(
                                b,
                            ));
                            assert forall|i: int| idx + 1 <= i < rlen implies read@[i] == rb0[i]
                                by {
                                assert(rprev.skip(idx as int)[i - idx] == rb0.skip(idx as int)[i
                                    - idx]);
                            }
                            assert(read@.skip((idx + 1) as int) =~= rb0.skip((idx + 1) as int));
                        }
                    },
                    Err(e) => {
                        return Err(e);
                    },
                }
                idx = idx + 1;
            }
            proof {
                assert(padded(wv, nmax).take(idx as int) =~= padded(wv, nmax));
                assert(read@.take(idx as int) =~= read@);
            }
        }
        Ok(())
    }

    /// Full-duplex transfer where each byte of `words` is simultaneously
    /// the outgoing byte and the slot overwritten by the incoming one.
    pub fn transfer_in_place(&mut self, words: &mut Vec<u8>) -> (r: Result<(), Error>)
        ensures
            final(words)@.len() == old(words)@.len(),
            final(self).config() == old(self).config(),
            final(self).lsb_first() == old(self).lsb_first(),
            final(self).idled() == old(self).idled(),
            final(self).core_freq() == old(self).core_freq(),
            old(words)@.len() == 0 ==> r is Ok,
            r matches Ok(()) ==> final(self).sent() == old(self).sent() + old(words)@ && final(self).received() == old(self).received() + final(words)@,
            r matches Err(e) ==> aborted_capture(
                e,
                old(words)@,
                old(self).sent(),
                final(self).sent(),
                old(self).received(),
                final(self).received(),
                old(words)@,
                final(words)@,
            ) && (is_tx_fault(e) ==> final(self).sent().len() == final(self).received().len()
                - old(self).received().len() + old(self).sent().len()),
    {
        let ghost s0 = self.hal.sent();
        let ghost r0 = self.hal.received();
        let ghost w0 = words@;
        let n = words.len();
        let mut idx: usize = 0;
        while idx < n
            invariant
                idx <= n,
                words@.len() == n,
                self.hal.sent() == s0 + w0.take(idx as int),
                self.hal.received() == r0 + words@.take(idx as int),
                words@.skip(idx as int) == w0.skip(idx as int),
                self.hal.config() == old(self).config(),
                self.hal.lsb_first() == old(self).lsb_first(),
                self.hal.idled() == old(self).idled(),
                self.delay == old(self).delay,
            decreases n - idx,
        {
            proof {
                assert(words@[idx as int] == words@.skip(idx as int)[0]);
                assert(w0[idx as int] == w0.skip(idx as int)[0]);
            }
            let outgoing = words[idx];
            match self.hal.write_byte(outgoing) {
                Ok(()) => {
                    proof {
                        assert(w0.take(idx as int).push(w0[idx as int]) =~= w0.take(
                            (idx + 1) as int,
                        ));
                    }
                },
                Err(e) => {
                    return Err(e);
                },
            }
            let ghost wprev = words@;
            match self.hal.read_byte() {
                Ok(b) => {
                    words[idx] = b;
                    proof {
                        assert(words@.take((idx + 1) as int) =~= wprev.take(idx as int).push(b));
                        assert forall|i: int| idx + 1 <= i < n implies words@[i] == w0[i] by {
                            assert(wprev.skip(idx as int)[i - idx] == w0.skip(idx as int)[i
                                - idx]);
                        }
                        assert(words@.skip((idx + 1) as int) =~= w0.skip((idx + 1) as int));
                    }
                },
                Err(e) => {
                    return Err(e);
                },
            }
            idx = idx + 1;
        }
        proof {
            assert(w0.take(idx as int) =~= w0);
            assert(words@.take(idx as int) =~= words@);
        }
        Ok(())
    }

    /// Run one operation: dispatch to the matching primitive, or perform
    /// the requested wait on the port's cycle counter.
    fn run_operation(&mut self, op: Operation) -> (r: Result<Operation, Error>)
        ensures
            final(self).config() == old(self).config(),
            final(self).lsb_first() == old(self).lsb_first(),
            final(self).core_freq() == old(self).core_freq(),
            r matches Ok(_) ==> final(self).idled() == old(self).idled() + op_idle_cycles(
                op,
                old(self).core_freq(),
            ),
            r matches Err(_) ==> final(self).idled() == old(self).idled(),
            op_sent(op).len() == 0 && op_rx_len(op) == 0 ==> r is Ok,
            r matches Ok(out) ==> final(self).sent() == old(self).sent() + op_sent(op) && final(self).received().len() == old(self).received().len() + op_rx_len(op) && final(self).received().take(old(self).received().len() as int) == old(self).received()
                && op_outcome(
                op,
                out,
                final(self).received().skip(old(self).received().len() as int),
            ),
            r matches Err(e) ==> is_fifo_fault(e) && final(self).sent() == old(self).sent()
                + op_sent(op).take(
                final(self).sent().len() - old(self).sent().len(),
            ) && final(self).sent().len() <= old(self).sent().len() + op_sent(op).len() && old(self).received().is_prefix_of(final(self).received()) && final(self).received().len()
                <= old(self).received().len() + op_rx_len(op),
    {
        let ghost s0 = self.hal.sent();
        let ghost r0 = self.hal.received();
        match op {
            Operation::Read(mut buf) => {
                match self.read(&mut buf) {
                    Ok(()) => {
                        proof {
                            assert((r0 + buf@).take(r0.len() as int) =~= r0);
                            assert((r0 + buf@).skip(r0.len() as int) =~= buf@);
                        }
                        Ok(Operation::Read(buf))
                    },
                    Err(e) => {
                        proof {
                            assert(s0.is_prefix_of(self.hal.sent()));
                            assert(r0.is_prefix_of(self.hal.received()));
                        }
                        Err(e)
                    },
                }
            },
            Operation::Write(data) => {
                match self.write(&data) {
                    Ok(()) => {
                        proof {
                            assert(self.hal.received().skip(r0.len() as int).len() == data@.len());
                        }
                        Ok(Operation::Write(data))
                    },
                    Err(e) => {
                        proof {
                            assert(s0.is_prefix_of(self.hal.sent()));
                            assert(r0.is_prefix_of(self.hal.received()));
                        }
                        Err(e)
                    },
                }
            },
            Operation::Transfer(mut rbuf, data) => {
                match self.transfer(&mut rbuf, &data) {
                    Ok(()) => {
                        proof {
                            assert((r0 + rbuf@).take(r0.len() as int) =~= r0);
                            assert((r0 + rbuf@).skip(r0.len() as int) =~= rbuf@);
                        }
                        Ok(Operation::Transfer(rbuf, data))
                    },
                    Err(e) => {
                        proof {
                            assert(s0.is_prefix_of(self.hal.sent()));
                            assert(r0.is_prefix_of(self.hal.received()));
                        }
                        Err(e)
                    },
                }
            },
            Operation::TransferInPlace(mut buf) => {
                match self.transfer_in_place(&mut buf) {
                    Ok(()) => {
                        proof {
                            assert((r0 + buf@).take(r0.len() as int) =~= r0);
                            assert((r0 + buf@).skip(r0.len() as int) =~= buf@);
                        }
                        Ok(Operation::TransferInPlace(buf))
                    },
                    Err(e) => {
                        proof {
                            assert(s0.is_prefix_of(self.hal.sent()));
                            assert(r0.is_prefix_of(self.hal.received()));
                        }
                        Err(e)
                    },
                }
            },
            Operation::DelayNs(d) => {
                let cycles = self.delay.cycles_for_ns(d);
                let start = self.hal.cycle_count();
                self.hal.wait_cycles(start, cycles);
                proof {
                    assert(self.hal.idled() == old(self).idled() + op_idle_cycles(
                        op,
                        old(self).core_freq(),
                    ));
                    assert(self.hal.sent() =~= s0 + Seq::<u8>::empty());
                    assert(self.hal.received().take(r0.len() as int) =~= r0);
                    assert(self.hal.received().skip(r0.len() as int) =~= Seq::<u8>::empty());
                }
                Ok(Operation::DelayNs(d))
            },
        }
    }

    /// Execute the operations strictly in order, stopping at the first one
    /// that reports a FIFO fault: that error is returned, nothing after the
    /// failing operation runs, and buffers already filled keep what they
    /// captured. On success the operations are handed back with every
    /// capture buffer holding the bytes that arrived for it, in order.
    pub fn transaction(&mut self, ops: Vec<Operation>) -> (r: Result<Vec<Operation>, Error>)
        ensures
            final(self).config() == old(self).config(),
            final(self).lsb_first() == old(self).lsb_first(),
            r matches Ok(outs) ==> final(self).idled() == old(self).idled() + ops_idle_cycles(
                ops@,
                old(self).core_freq(),
            ),
            r matches Err(_) ==> final(self).idled() >= old(self).idled(),
            r matches Ok(outs) ==> final(self).sent() == old(self).sent() + ops_sent(ops@)
                && final(self).received().len() == old(self).received().len() + ops_rx_len(ops@)
                && final(self).received().take(old(self).received().len() as int) == old(self).received() && transaction_outcome(
                ops@,
                outs@,
                final(self).received().skip(old(self).received().len() as int),
            ),
            r matches Err(e) ==> is_fifo_fault(e) && exists|k: int|
                halted_within(
                    ops@,
                    k,
                    old(self).sent(),
                    final(self).sent(),
                    old(self).received(),
                    final(self).received(),
                ),
    {
        let ghost o0 = ops@;
        let ghost s0 = self.hal.sent();
        let ghost r0 = self.hal.received();
        let ghost i0 = self.hal.idled();
        let ghost f0 = self.delay.freq();
        let mut remaining = ops;
        let mut outs: Vec<Operation> = Vec::new();
        proof {
            assert(o0.take(0) =~= Seq::<Operation>::empty());
            assert(s0 + ops_sent(o0.take(0)) =~= s0);
            assert(self.hal.received().skip(r0.len() as int) =~= Seq::<u8>::empty());
            assert(self.hal.received().take(r0.len() as int) =~= r0);
        }
        while remaining.len() > 0
            invariant
                outs@.len() + remaining@.len() == o0.len(),
                remaining@ == o0.skip(outs@.len() as int),
                self.hal.sent() == s0 + ops_sent(o0.take(outs@.len() as int)),
                self.hal.received().len() == r0.len() + ops_rx_len(o0.take(outs@.len() as int)),
                self.hal.received().take(r0.len() as int) == r0,
                transaction_outcome(
                    o0.take(outs@.len() as int),
                    outs@,
                    self.hal.received().skip(r0.len() as int),
                ),
                self.hal.config() == old(self).config(),
                self.hal.lsb_first() == old(self).lsb_first(),
                self.delay.freq() == f0,
                self.hal.idled() == i0 + ops_idle_cycles(o0.take(outs@.len() as int), f0),
            decreases remaining@.len(),
        {
            let ghost i = outs@.len() as int;
            let ghost outs_pre = outs@;
            let ghost sent_pre = self.hal.sent();
            let ghost rx_pre = self.hal.received();
            let op = remaining.remove(0);
            proof {
                assert(op == o0.skip(i)[0]);
                assert(op == o0[i]);
                assert(remaining@ =~= o0.skip(i + 1));
                lemma_ops_rx_len_nonneg(o0.take(i));
                assert(r0.len() <= rx_pre.len());
            }
            match self.run_operation(op) {
                Ok(out) => {
                    outs.push(out);
                    proof {
                        lemma_ops_sent_push(o0.take(i), o0[i], f0);
                        assert(o0.take(i).push(o0[i]) =~= o0.take(i + 1));
                        assert(self.hal.sent() =~= s0 + ops_sent(o0.take(i + 1)));
                        assert forall|x: int| 0 <= x < rx_pre.len() implies self.hal.received()[x]
                            == rx_pre[x] by {
                            assert(self.hal.received().take(rx_pre.len() as int)[x] == rx_pre[x]);
                        }
                        assert forall|x: int| 0 <= x < r0.len() implies self.hal.received()[x]
                            == r0[x] by {
                            assert(rx_pre.take(r0.len() as int)[x] == r0[x]);
                        }
                        assert(self.hal.received().take(r0.len() as int) =~= r0);
                        assert(self.hal.received().skip(r0.len() as int) =~= rx_pre.skip(
                            r0.len() as int,
                        ) + self.hal.received().skip(rx_pre.len() as int));
                        lemma_transaction_outcome_push(
                            o0.take(i),
                            outs_pre,
                            rx_pre.skip(r0.len() as int),
                            o0[i],
                            out,
                            self.hal.received().skip(rx_pre.len() as int),
                        );
                        assert(outs@ =~= outs_pre.push(out));
                    }
                },
                Err(e) => {
                    proof {
                        assert(op_sent(o0[i]).len() > 0 || op_rx_len(o0[i]) > 0);
                        lemma_ops_idle_nonneg(o0.take(i), f0);
                        assert(sent_pre.len() == s0.len() + ops_sent(o0.take(i)).len());
                        assert(self.hal.sent() == (s0 + ops_sent(o0.take(i))) + op_sent(
                            o0[i],
                        ).take(self.hal.sent().len() - sent_pre.len()));
                        assert forall|x: int| 0 <= x < r0.len() implies self.hal.received()[x]
                            == r0[x] by {
                            assert(self.hal.received().take(rx_pre.len() as int)[x] == rx_pre[x]);
                            assert(rx_pre.take(r0.len() as int)[x] == r0[x]);
                        }
                        assert(self.hal.received().take(r0.len() as int) =~= r0);
                        assert(r0.is_prefix_of(self.hal.received()));
                        assert(halted_within(
                            o0,
                            i,
                            s0,
                            self.hal.sent(),
                            r0,
                            self.hal.received(),
                        ));
                        assert(o0 == ops@);
                        assert(s0 == old(self).sent());
                        assert(r0 == old(self).received());
                        assert(exists|k: int|
                            halted_within(ops@, k, s0, self.hal.sent(), r0, self.hal.received()));
                    }
                    return Err(e);
                },
            }
        }
        proof {
            assert(o0.take(outs@.len() as int) =~= o0);
        }
        Ok(outs)
    }
}

} // verus!


