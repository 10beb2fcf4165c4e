//! High-level interface: chip initialization and the transmit and receive
//! sequences.
//!
//! The entry point is [`DW1000`], a typestate handle: it is created
//! [`Uninitialized`] and [`DW1000::init`] consumes it — on success or
//! failure — and only the [`Ready`] handle exposes transmit and receive.
//! [`DW1000::send`] and [`DW1000::receive`] start an operation and return at
//! once; [`DW1000::wait_transmission`] and [`DW1000::wait_reception`] are
//! repeatable non-blocking polls that report not-ready, completion, or a
//! terminal error.

use vstd::prelude::*;
use vstd::arithmetic::power2::{lemma2_to64, lemma2_to64_rest};
use crate::codec::{bit_of, decode, get_field, lemma_get_field_single, set_field, span_wf};
use crate::frame::{Address, Frame, FrameCodec, FrameDecodeError, FrameHeader, FrameType, FrameVersion};
use crate::ll;
use crate::ll::{
    apply_writes, is_modify_of, is_read_of, log_extends, write_entry, Exchange, FieldWrite,
    Transport, TransportError,
};
use crate::regs::{descriptor, spec_descriptor, Reg, Register};
use crate::time::{Duration, Instant};

verus! {

/// Indicates that the `DW1000` instance is not initialized yet.
pub struct Uninitialized;

/// Indicates that the `DW1000` instance is ready to be used.
pub struct Ready;

/// An error that can occur when driving the chip.
#[derive(Clone, Copy, Debug, PartialEq, Eq, Structural)]
pub enum Error {
    /// The bus failed mid-transaction; the failure is passed through.
    Spi(TransportError),
    /// The received frame's checksum was wrong.
    Fcs,
    /// The received frame's PHY header was in error.
    Phy,
    /// The caller's buffer is too small for the received frame.
    BufferTooSmall {
        /// How large a buffer would have been required.
        required_len: usize,
    },
    /// The receiver lost Reed-Solomon synchronisation.
    ReedSolomon,
    /// The receiver timed out waiting for a frame.
    FrameWaitTimeout,
    /// The receiver was overrun.
    Overrun,
    /// The receiver timed out detecting a preamble.
    PreambleDetectionTimeout,
    /// The receiver timed out waiting for the start-of-frame delimiter.
    SfdTimeout,
    /// The received bytes could not be decoded as a frame.
    Frame(FrameDecodeError),
    /// A scheduled frame could not be sent in time. The frame was still
    /// transmitted; a ranging measurement made from it will be wrong.
    DelayedSendTooLate,
    /// The transmitter was still powering up when a scheduled send started.
    /// The frame was still transmitted, but its first preamble bytes were
    /// likely corrupted.
    DelayedSendPowerUpWarning,
}

/// The outcome of a non-blocking poll that has not succeeded: either the
/// operation is simply not finished yet, or it failed for good.
#[derive(Clone, Copy, Debug, PartialEq, Eq, Structural)]
pub enum WaitError {
    /// Not ready yet; poll again.
    WouldBlock,
    /// A terminal error; polling again is useless.
    Other(Error),
}

impl From<TransportError> for Error {
    /// A bus failure surfaces unchanged.
    fn from(e: TransportError) -> (r: Error) {
        Error::Spi(e)
    }
}

impl vstd::std_specs::convert::FromSpecImpl<TransportError> for Error {
    open spec fn obeys_from_spec() -> bool {
        true
    }

    open spec fn from_spec(e: TransportError) -> Error {
        Error::Spi(e)
    }
}

/// An incoming message: the decoded frame and the instant, on the chip's
/// clock, at which it arrived.
#[derive(Debug, PartialEq, Eq)]
pub struct Message {
    /// The time the message was received, from the chip's receive timestamp.
    pub rx_time: Instant,
    /// The decoded frame.
    pub frame: Frame,
}

/// What one reading of the system status register means for a receive poll.
#[derive(Clone, Copy, Debug, PartialEq, Eq, Structural)]
pub enum RxDecision {
    /// Neither a frame nor an error is reported yet; poll again.
    NotReady,
    /// A frame is ready and its receive timestamp is valid.
    Ready,
    /// A terminal receive error.
    Failed(Error),
}

/// The receive-poll decision as a function of the status payload's bits:
/// when the frame-ready bit (13) is clear, the first set bit of — checksum
/// error (15), PHY header error (12), Reed-Solomon sync loss (16), frame
/// wait timeout (17), overrun (20), preamble timeout (21), SFD timeout (26)
/// — is the terminal error, and with none set the frame is not ready yet.
/// When frame-ready is set the poll still reports not-ready until the
/// timestamp-valid bit (10) is also set. Two flags that fire spuriously
/// without spoiling reception, leading-edge-detection error (18) and
/// preamble rejection (33), are never surfaced.
pub open spec fn spec_rx_decision(status: Seq<u8>) -> RxDecision {
    if !bit_of(status, 13) {
        if bit_of(status, 15) {
            RxDecision::Failed(Error::Fcs)
        } else if bit_of(status, 12) {
            RxDecision::Failed(Error::Phy)
        } else if bit_of(status, 16) {
            RxDecision::Failed(Error::ReedSolomon)
        } else if bit_of(status, 17) {
            RxDecision::Failed(Error::FrameWaitTimeout)
        } else if bit_of(status, 20) {
            RxDecision::Failed(Error::Overrun)
        } else if bit_of(status, 21) {
            RxDecision::Failed(Error::PreambleDetectionTimeout)
        } else if bit_of(status, 26) {
            RxDecision::Failed(Error::SfdTimeout)
        } else {
            RxDecision::NotReady
        }
    } else if !bit_of(status, 10) {
        RxDecision::NotReady
    } else {
        RxDecision::Ready
    }
}

/// Decides what a system-status payload means for a receive poll; see
/// [`spec_rx_decision`] for the priority order it implements.
pub fn rx_decision(status: &Vec<u8>) -> (r: RxDecision)
    requires
        status@.len() == 5,
    ensures
        r == spec_rx_decision(status@),
{
    proof {
        lemma_get_field_single(status@, 10);
        lemma_get_field_single(status@, 12);
        lemma_get_field_single(status@, 13);
        lemma_get_field_single(status@, 15);
        lemma_get_field_single(status@, 16);
        lemma_get_field_single(status@, 17);
        lemma_get_field_single(status@, 20);
        lemma_get_field_single(status@, 21);
        lemma_get_field_single(status@, 26);
    }
    if decode(status, 13, 13) == 0 {
        if decode(status, 15, 15) == 1 {
            RxDecision::Failed(Error::Fcs)
        } else if decode(status, 12, 12) == 1 {
            RxDecision::Failed(Error::Phy)
        } else if decode(status, 16, 16) == 1 {
            RxDecision::Failed(Error::ReedSolomon)
        } else if decode(status, 17, 17) == 1 {
            RxDecision::Failed(Error::FrameWaitTimeout)
        } else if decode(status, 20, 20) == 1 {
            RxDecision::Failed(Error::Overrun)
        } else if decode(status, 21, 21) == 1 {
            RxDecision::Failed(Error::PreambleDetectionTimeout)
        } else if decode(status, 26, 26) == 1 {
            RxDecision::Failed(Error::SfdTimeout)
        } else {
            RxDecision::NotReady
        }
    } else if decode(status, 10, 10) == 0 {
        RxDecision::NotReady
    } else {
        RxDecision::Ready
    }
}

/// The transmit-warning decision as a function of the two event counters:
/// a nonzero half-period count means a scheduled send started too late and
/// wins over a nonzero power-up count; both outrank everything else the
/// poll looks at. Either way the frame was physically transmitted — these
/// grade its timing, they never mean the frame is unsent.
pub open spec fn spec_tx_warning(hpw: nat, tpw: nat) -> Option<Error> {
    if hpw != 0 {
        Some(Error::DelayedSendTooLate)
    } else if tpw != 0 {
        Some(Error::DelayedSendPowerUpWarning)
    } else {
        None
    }
}

/// Decides the warning stage of a transmit poll; see [`spec_tx_warning`].
pub fn tx_warning_decision(hpw: u64, tpw: u64) -> (r: Option<Error>)
    ensures
        r == spec_tx_warning(hpw as nat, tpw as nat),
{
    if hpw != 0 {
        Some(Error::DelayedSendTooLate)
    } else if tpw != 0 {
        Some(Error::DelayedSendPowerUpWarning)
    } else {
        None
    }
}

/// The whole transmit-poll outcome as a function of what the chip
/// reported: the warning counters first, in their priority order, then the
/// frame-sent bit (7) of the status payload — clear means not ready, set
/// means the frame is out.
pub open spec fn spec_tx_decision(hpw: nat, tpw: nat, status: Seq<u8>) -> Result<(), WaitError> {
    if hpw != 0 {
        Err(WaitError::Other(Error::DelayedSendTooLate))
    } else if tpw != 0 {
        Err(WaitError::Other(Error::DelayedSendPowerUpWarning))
    } else if !bit_of(status, 7) {
        Err(WaitError::WouldBlock)
    } else {
        Ok(())
    }
}

/// Decides what the counters and a status payload mean for a transmit
/// poll; see [`spec_tx_decision`].
pub fn tx_decision(hpw: u64, tpw: u64, status: &Vec<u8>) -> (r: Result<(), WaitError>)
    requires
        status@.len() == 5,
    ensures
        r == spec_tx_decision(hpw as nat, tpw as nat, status@),
{
    proof {
        lemma_get_field_single(status@, 7);
    }
    match tx_warning_decision(hpw, tpw) {
        Some(error) => Err(WaitError::Other(error)),
        None => {
            if decode(status, 7, 7) == 0 {
                Err(WaitError::WouldBlock)
            } else {
                Ok(())
            }
        },
    }
}

/// Carries the fixed prefix of an initialization run — every entry before
/// the calibration reads — from the intermediate logs it was recorded in to
/// their positions in the final log.
proof fn init_fixed_prefix_transfer(
    pre: Seq<Exchange>,
    post: Seq<Exchange>,
    a1: Seq<Exchange>,
    a2: Seq<Exchange>,
    a3: Seq<Exchange>,
    a4: Seq<Exchange>,
    a5: Seq<Exchange>,
    a6: Seq<Exchange>,
    a7: Seq<Exchange>,
    a8: Seq<Exchange>,
    a9: Seq<Exchange>,
    a10: Seq<Exchange>,
    a11: Seq<Exchange>,
    a12: Seq<Exchange>,
    a13: Seq<Exchange>,
    p1: int,
)
    requires
        log_extends(post, a1),
        log_extends(post, a2),
        log_extends(post, a3),
        log_extends(post, a4),
        log_extends(post, a5),
        log_extends(post, a6),
        log_extends(post, a7),
        log_extends(post, a8),
        log_extends(post, a9),
        log_extends(post, a10),
        log_extends(post, a11),
        log_extends(post, a12),
        log_extends(post, a13),
        a1.len() == pre.len() + 1,
        a2.len() == pre.len() + 2,
        a3.len() == pre.len() + 3,
        a4.len() == pre.len() + 5,
        a5.len() == pre.len() + 6,
        a6.len() == pre.len() + 7,
        a7.len() == pre.len() + 9,
        a8.len() == pre.len() + 10,
        a9.len() == pre.len() + 11,
        a10.len() == pre.len() + 13,
        a11.len() == pre.len() + 15,
        p1 == a12.len() as int,
        a11.len() < a12.len(),
        a13.len() == a12.len() + 2,
    ensures
        forall|k: int| 0 <= k < a13.len() ==> #[trigger] post[k] == a13[k],
        forall|k: int|
            a11.len() <= k < a12.len() ==> #[trigger] post[k] == a12[k],
{
    assert forall|k: int| 0 <= k < a13.len() implies #[trigger] post[k] == a13[k] by {
        ll::lemma_log_extends_index(post, a13, k);
    }
    assert forall|k: int| a11.len() <= k < a12.len() implies #[trigger] post[k] == a12[k] by {
        ll::lemma_log_extends_index(post, a12, k);
    }
}

/// Reads the register until the field `first ..= last` comes back zero.
///
/// The chip clears such handshake bits itself once it has acted; the loop's
/// termination rests on the transport's fuel, the formal face of the
/// documented guarantee that the hardware always responds.
fn poll_until_clear<T: Transport>(
    dev: &mut ll::DW1000<T>,
    reg: Register,
    first: usize,
    last: usize,
) -> (r: Result<(), TransportError>)
    requires
        reg.wf(),
        reg.spec_readable(),
        span_wf(first as int, last as int, reg.len as int),
    ensures
        r is Ok ==> poll_trace(old(dev).log(), final(dev).log(), reg, first as int, last as int),
{
    proof {
        assert(old(dev).log().take(old(dev).log().len() as int) =~= old(dev).log());
    }
    loop
        invariant
            reg.wf(),
            reg.spec_readable(),
            span_wf(first as int, last as int, reg.len as int),
            log_extends(dev.log(), old(dev).log()),
            forall|k: int|
                old(dev).log().len() <= k < dev.log().len() ==> is_read_of(
                    #[trigger] dev.log()[k],
                    reg,
                ),
        decreases dev.fuel(),
    {
        let ghost prev = dev.log();
        let payload = match dev.read(reg) {
            Ok(p) => p,
            Err(e) => {
                return Err(e);
            },
        };
        proof {
            assert(dev.log().take(old(dev).log().len() as int) =~= prev.take(
                old(dev).log().len() as int,
            ));
        }
        if decode(&payload, first, last) == 0 {
            return Ok(());
        }
    }
}

/// A busy-poll's mark on the exchange log: it appended only reads of `reg`,
/// at least one, and the last one came back with the watched field zero.
pub open spec fn poll_trace(
    pre: Seq<Exchange>,
    post: Seq<Exchange>,
    reg: Register,
    first: int,
    last: int,
) -> bool {
    &&& log_extends(post, pre)
    &&& pre.len() < post.len()
    &&& forall|k: int| pre.len() <= k < post.len() ==> is_read_of(#[trigger] post[k], reg)
    &&& get_field(post.last().received, first, last) == 0
}

/// A write-one-to-clear update for a single status bit.
pub open spec fn one_bit(b: usize) -> FieldWrite {
    FieldWrite { first_bit: b, last_bit: b, value: 1 }
}

/// The four transmit progress flags, cleared together after a frame went
/// out: frame begins (4), preamble sent (5), PHY header sent (6), frame
/// sent (7).
pub open spec fn tx_progress_clear_updates() -> Seq<FieldWrite> {
    seq![one_bit(4), one_bit(5), one_bit(6), one_bit(7)]
}

/// The interrupt-mask bits for a receive poll, in the order they are
/// written: exactly the bits [`spec_rx_decision`] reads — frame ready (13),
/// the seven terminal error flags, and timestamp valid (10).
pub open spec fn rx_mask_updates() -> Seq<FieldWrite> {
    seq![
        one_bit(13),
        one_bit(15),
        one_bit(12),
        one_bit(16),
        one_bit(17),
        one_bit(20),
        one_bit(21),
        one_bit(26),
        one_bit(10),
    ]
}

/// Every receive-related status bit [`DW1000::wait_reception`] inspected or
/// that a reception can have set, cleared together once a frame has been
/// delivered.
pub open spec fn rx_status_clear_updates() -> Seq<FieldWrite> {
    seq![
        one_bit(8),
        one_bit(9),
        one_bit(10),
        one_bit(11),
        one_bit(12),
        one_bit(13),
        one_bit(14),
        one_bit(15),
        one_bit(16),
        one_bit(17),
        one_bit(18),
        one_bit(20),
        one_bit(21),
        one_bit(26),
        one_bit(32),
        one_bit(33),
    ]
}

/// The receive interrupt mask mirrors the receive poll: [`rx_mask_updates`]
/// selects exactly the status bits that [`spec_rx_decision`] reads, so two
/// status payloads that agree on those bits — 10, 12, 13, 15, 16, 17, 20,
/// 21 and 26 — always yield the same poll decision. A change to either side
/// requires the matching change to the other, or this law stops holding.
pub proof fn lemma_rx_mask_mirrors_decision(s1: Seq<u8>, s2: Seq<u8>)
    requires
        bit_of(s1, 10) == bit_of(s2, 10),
        bit_of(s1, 12) == bit_of(s2, 12),
        bit_of(s1, 13) == bit_of(s2, 13),
        bit_of(s1, 15) == bit_of(s2, 15),
        bit_of(s1, 16) == bit_of(s2, 16),
        bit_of(s1, 17) == bit_of(s2, 17),
        bit_of(s1, 20) == bit_of(s2, 20),
        bit_of(s1, 21) == bit_of(s2, 21),
        bit_of(s1, 26) == bit_of(s2, 26),
    ensures
        spec_rx_decision(s1) == spec_rx_decision(s2),
{
}

/// The transmit interrupt mask mirrors the transmit poll: beyond the two
/// warning counters, [`spec_tx_decision`] reads only the frame-sent bit (7)
/// that [`DW1000::enable_interrupts_transmission`] selects.
pub proof fn lemma_tx_mask_mirrors_decision(hpw: nat, tpw: nat, s1: Seq<u8>, s2: Seq<u8>)
    requires
        bit_of(s1, 7) == bit_of(s2, 7),
    ensures
        spec_tx_decision(hpw, tpw, s1) == spec_tx_decision(hpw, tpw, s2),
{
}

/// The frame-filter switches armed before reception: filtering on (0) and
/// the beacon (2), data (3), acknowledgement (4) and MAC command (5)
/// classes admitted.
pub open spec fn rx_filter_updates() -> Seq<FieldWrite> {
    seq![one_bit(0), one_bit(2), one_bit(3), one_bit(4), one_bit(5)]
}

/// The mark a successful `receive` leaves on the exchange log, `q` being
/// the position right after the force-idle poll: the receiver soft-reset
/// strobed low then released, the chip forced idle, the frame filter
/// armed, the PLL-lock-detect tuning bit set and then the two dependent
/// status bits cleared — in that order — and finally the receiver enabled.
pub open spec fn receive_trace(pre: Seq<Exchange>, post: Seq<Exchange>, q: int) -> bool {
    let n = pre.len() as int;
    &&& log_extends(post, pre)
    &&& is_modify_of(
        post,
        n,
        spec_descriptor(Reg::PmscCtrl0),
        seq![(FieldWrite { first_bit: 28, last_bit: 31, value: 0b1110 })],
    )
    &&& is_modify_of(
        post,
        n + 2,
        spec_descriptor(Reg::PmscCtrl0),
        seq![(FieldWrite { first_bit: 28, last_bit: 31, value: 0b1111 })],
    )
    &&& post[n + 4] == write_entry(
        spec_descriptor(Reg::SysCtrl),
        set_field(ll::zero_seq(4), 6, 6, 1),
    )
    &&& n + 5 < q <= post.len()
    &&& forall|k: int|
        n + 5 <= k < q ==> is_read_of(#[trigger] post[k], spec_descriptor(Reg::SysCtrl))
    &&& get_field(post[q - 1].received, 6, 6) == 0
    &&& is_modify_of(post, q, spec_descriptor(Reg::SysCfg), rx_filter_updates())
    &&& is_modify_of(post, q + 2, spec_descriptor(Reg::EcCtrl), seq![one_bit(2)])
    &&& post[q + 4] == write_entry(
        spec_descriptor(Reg::SysStatus),
        apply_writes(ll::zero_seq(5), seq![one_bit(1), one_bit(25)]),
    )
    &&& is_modify_of(post, q + 5, spec_descriptor(Reg::SysCtrl), seq![one_bit(8)])
    &&& post.len() == q + 7
}

/// `bytes` padded with zeros to `len` (or truncated to it).
pub open spec fn padded(bytes: Seq<u8>, len: nat) -> Seq<u8> {
    Seq::new(
        len,
        |i: int|
            if i < bytes.len() {
                bytes[i]
            } else {
                0u8
            },
    )
}

/// The frame-control updates a send programs: the transmitted length, no
/// length extension, no buffer offset.
pub open spec fn tx_fctrl_updates(tflen: u64) -> Seq<FieldWrite> {
    seq![
        FieldWrite { first_bit: 0, last_bit: 6, value: tflen },
        FieldWrite { first_bit: 7, last_bit: 9, value: 0 },
        FieldWrite { first_bit: 22, last_bit: 31, value: 0 },
    ]
}

/// The frame a send hands to the frame codec: a plain data frame, 2006
/// edition, no security, no acknowledgement request, no pending flag, no
/// PAN id compression, addressed from `source` to `destination`, with the
/// drawn sequence number and the caller's payload.
pub open spec fn outgoing_frame(
    destination: Address,
    source: Address,
    seq_no: u8,
    payload: Seq<u8>,
) -> crate::frame::FrameView {
    crate::frame::FrameView {
        frame_type: FrameType::Data,
        version: FrameVersion::Ieee802154_2006,
        security: false,
        frame_pending: false,
        ack_request: false,
        pan_id_compress: false,
        destination,
        source,
        seq: seq_no,
        payload,
    }
}

/// The mark a successful `send` leaves on the exchange log. `q1` and `q2`
/// close the two event-counter strobe polls, `q3` the force-idle poll: the
/// counters are cleared then re-enabled, the chip is forced idle, its own
/// address is read, the scheduled instant is programmed when one was given,
/// the encoded frame fills the front of the transmit buffer, the frame
/// length is programmed as the encoded bytes plus the two hardware checksum
/// bytes, and the start command goes out with the delayed flag exactly when
/// an instant was given.
pub open spec fn send_trace<C: FrameCodec>(
    frame_codec: &C,
    pre: Seq<Exchange>,
    post: Seq<Exchange>,
    q1: int,
    q2: int,
    q3: int,
    data: Seq<u8>,
    destination: Address,
    seq_no: u8,
    delayed: Option<Instant>,
) -> bool {
    let n = pre.len() as int;
    let evc = spec_descriptor(Reg::EvcCtrl);
    &&& log_extends(post, pre)
    &&& post[n] == write_entry(evc, set_field(ll::zero_seq(4), 1, 1, 1))
    &&& n + 1 < q1
    &&& forall|k: int| n + 1 <= k < q1 ==> is_read_of(#[trigger] post[k], evc)
    &&& get_field(post[q1 - 1].received, 1, 1) == 0
    &&& post[q1] == write_entry(evc, set_field(ll::zero_seq(4), 0, 0, 1))
    &&& q1 + 1 < q2
    &&& forall|k: int| q1 + 1 <= k < q2 ==> is_read_of(#[trigger] post[k], evc)
    &&& get_field(post[q2 - 1].received, 0, 0) == 0
    &&& post[q2] == write_entry(
        spec_descriptor(Reg::SysCtrl),
        set_field(ll::zero_seq(4), 6, 6, 1),
    )
    &&& q2 + 1 < q3
    &&& forall|k: int|
        q2 + 1 <= k < q3 ==> is_read_of(#[trigger] post[k], spec_descriptor(Reg::SysCtrl))
    &&& get_field(post[q3 - 1].received, 6, 6) == 0
    &&& q3 < post.len()
    &&& is_read_of(post[q3], spec_descriptor(Reg::Panadr))
    &&& ({
        let source = Address::Short(
            get_field(post[q3].received, 16, 31) as u16,
            get_field(post[q3].received, 0, 15) as u16,
        );
        let enc = frame_codec.spec_encode(outgoing_frame(destination, source, seq_no, data));
        let d = q3 + 1 + (if delayed is Some {
            1int
        } else {
            0int
        });
        &&& (delayed matches Some(t) ==> post[q3 + 1] == write_entry(
            spec_descriptor(Reg::DxTime),
            set_field(ll::zero_seq(5), 0, 39, t.spec_value()),
        ))
        &&& post[d] == write_entry(spec_descriptor(Reg::TxBuffer), padded(enc, 127))
        &&& is_modify_of(
            post,
            d + 1,
            spec_descriptor(Reg::TxFctrl),
            tx_fctrl_updates((enc.len() + 2) as u64),
        )
        &&& is_modify_of(
            post,
            d + 3,
            spec_descriptor(Reg::SysCtrl),
            if delayed is Some {
                seq![one_bit(2), one_bit(1)]
            } else {
                seq![one_bit(1)]
            },
        )
        &&& post.len() == d + 5
    })
}

/// Entries `i ..= p` of the log are one calibration-word fetch from
/// one-time-programmable memory: the address write, the strobe of the
/// read-enable and read bits, reads of the control register until the chip
/// cleared the read bit, and the data-register read at `p`.
pub open spec fn otp_read_at(log: Seq<Exchange>, i: int, p: int, addr: u16) -> bool {
    &&& 0 <= i
    &&& log[i] == write_entry(
        spec_descriptor(Reg::OtpAddr),
        set_field(ll::zero_seq(2), 0, 10, addr as u64),
    )
    &&& is_modify_of(log, i + 1, spec_descriptor(Reg::OtpCtrl), seq![one_bit(0), one_bit(1)])
    &&& i + 3 < p
    &&& p < log.len()
    &&& forall|k: int|
        i + 3 <= k < p ==> is_read_of(#[trigger] log[k], spec_descriptor(Reg::OtpCtrl))
    &&& get_field(log[p - 1].received, 1, 1) == 0
    &&& is_read_of(log[p], spec_descriptor(Reg::OtpRdat))
}

/// A calibration-word fetch stays in place when the log grows.
pub proof fn lemma_otp_read_at_extends(
    log: Seq<Exchange>,
    post: Seq<Exchange>,
    i: int,
    p: int,
    addr: u16,
)
    requires
        otp_read_at(log, i, p, addr),
        log_extends(post, log),
    ensures
        otp_read_at(post, i, p, addr),
{
    ll::lemma_log_extends_index(post, log, i);
    ll::lemma_log_extends_index(post, log, i + 1);
    ll::lemma_log_extends_index(post, log, i + 2);
    ll::lemma_log_extends_index(post, log, p - 1);
    ll::lemma_log_extends_index(post, log, p);
    assert forall|k: int| i + 3 <= k < p implies is_read_of(
        #[trigger] post[k],
        spec_descriptor(Reg::OtpCtrl),
    ) by {
        ll::lemma_log_extends_index(post, log, k);
    }
}

/// The mark a successful `init` leaves on the exchange log: the documented
/// tuning writes in their fixed order, the microcode-load strobe with its
/// poll (closed at `p1`), the first calibration-word fetch (data read at
/// `p2`), and — only when that word is nonzero — the second fetch (data
/// read at `p3`) and the voltage-tuning write of the two words' low 40
/// bits; with a zero first word nothing further is read or written.
/// Entries `n ..= p1 + 1` of the log are the fixed configuration prefix of
/// an initialization run: the documented tuning writes in order, the
/// microcode-load strobe with its poll of the control register (closed at
/// `p1`), and the clock-selection restore.
pub open spec fn init_prefix_at(log: Seq<Exchange>, n: int, p1: int) -> bool {
    &&& 0 <= n
    &&& log[n] == write_entry(
        spec_descriptor(Reg::AgcTune1),
        set_field(ll::zero_seq(2), 0, 15, 0x8870),
    )
    &&& log[n + 1] == write_entry(
        spec_descriptor(Reg::AgcTune2),
        set_field(ll::zero_seq(4), 0, 31, 0x2502A907),
    )
    &&& log[n + 2] == write_entry(
        spec_descriptor(Reg::DrxTune2),
        set_field(ll::zero_seq(4), 0, 31, 0x311A002D),
    )
    &&& is_modify_of(
        log,
        n + 3,
        spec_descriptor(Reg::LdeCfg1),
        seq![(FieldWrite { first_bit: 0, last_bit: 4, value: 0xD })],
    )
    &&& log[n + 5] == write_entry(
        spec_descriptor(Reg::LdeCfg2),
        set_field(ll::zero_seq(2), 0, 15, 0x1607),
    )
    &&& log[n + 6] == write_entry(
        spec_descriptor(Reg::TxPower),
        set_field(ll::zero_seq(4), 0, 31, 0x0E082848),
    )
    &&& is_modify_of(
        log,
        n + 7,
        spec_descriptor(Reg::RfTxctrl),
        seq![
            (FieldWrite { first_bit: 5, last_bit: 8, value: 0b1111 }),
            (FieldWrite { first_bit: 9, last_bit: 11, value: 0b111 }),
        ],
    )
    &&& log[n + 9] == write_entry(
        spec_descriptor(Reg::TcPgdelay),
        set_field(ll::zero_seq(1), 0, 7, 0xC0),
    )
    &&& log[n + 10] == write_entry(
        spec_descriptor(Reg::FsPlltune),
        set_field(ll::zero_seq(1), 0, 7, 0xBE),
    )
    &&& is_modify_of(
        log,
        n + 11,
        spec_descriptor(Reg::PmscCtrl0),
        seq![(FieldWrite { first_bit: 0, last_bit: 1, value: 0b01 })],
    )
    &&& is_modify_of(log, n + 13, spec_descriptor(Reg::OtpCtrl), seq![one_bit(15)])
    &&& n + 15 < p1
    &&& p1 + 1 < log.len()
    &&& forall|k: int|
        n + 15 <= k < p1 ==> is_read_of(#[trigger] log[k], spec_descriptor(Reg::OtpCtrl))
    &&& get_field(log[p1 - 1].received, 15, 15) == 0
    &&& is_modify_of(
        log,
        p1,
        spec_descriptor(Reg::PmscCtrl0),
        seq![(FieldWrite { first_bit: 0, last_bit: 1, value: 0b00 })],
    )
}

/// The fixed configuration prefix stays in place when the log grows.
pub proof fn lemma_init_prefix_at_extends(
    log: Seq<Exchange>,
    post: Seq<Exchange>,
    n: int,
    p1: int,
)
    requires
        init_prefix_at(log, n, p1),
        log_extends(post, log),
    ensures
        init_prefix_at(post, n, p1),
{
    assert forall|k: int| n <= k < p1 + 2 implies #[trigger] post[k] == log[k] by {
        ll::lemma_log_extends_index(post, log, k);
    }
}

/// The mark a successful `init` leaves on the exchange log: the fixed
/// configuration prefix ([`init_prefix_at`], closed at `p1`), the first
/// calibration-word fetch (data read at `p2`), and — only when that word is
/// nonzero — the second fetch (data read at `p3`) and the voltage-tuning
/// write of the two words' low 40 bits; with a zero first word nothing
/// further is read or written.
pub open spec fn init_trace(pre: Seq<Exchange>, post: Seq<Exchange>, p1: int, p2: int, p3: int) -> bool {
    let n = pre.len() as int;
    &&& log_extends(post, pre)
    &&& init_prefix_at(post, n, p1)
    &&& otp_read_at(post, p1 + 2, p2, 0x004)
    &&& ({
        let low = get_field(post[p2].received, 0, 31);
        if low == 0 {
            post.len() == p2 + 1
        } else {
            &&& otp_read_at(post, p2 + 1, p3, 0x005)
            &&& ({
                let high = get_field(post[p3].received, 0, 31);
                let tuning = ((low as u64) | ((high as u64) << 32u64)) & 0xFF_FFFF_FFFF;
                &&& post[p3 + 1] == write_entry(
                    spec_descriptor(Reg::Ldotune),
                    set_field(ll::zero_seq(5), 0, 39, tuning),
                )
                &&& post.len() == p3 + 2
            })
        }
    })
}

/// A successful initialization run: some positions close its three polls
/// such that the whole exchange log reads as [`init_trace`] describes.
pub open spec fn init_ok(pre: Seq<Exchange>, post: Seq<Exchange>) -> bool {
    exists|p1: int, p2: int, p3: int| init_trace(pre, post, p1, p2, p3)
}

/// The mark a `force_idle` call leaves on the exchange log: the
/// transceiver-off write, then reads of the system control register up to
/// one reporting the bit cleared.
pub open spec fn force_idle_trace(pre: Seq<Exchange>, post: Seq<Exchange>) -> bool {
    &&& pre.len() < post.len()
    &&& post[pre.len() as int] == write_entry(
        spec_descriptor(Reg::SysCtrl),
        set_field(ll::zero_seq(4), 6, 6, 1),
    )
    &&& poll_trace(
        pre.push(post[pre.len() as int]),
        post,
        spec_descriptor(Reg::SysCtrl),
        6,
        6,
    )
}

/// The mark a completed frame delivery leaves: the four reads of a receive
/// poll that found a frame, the received bytes copied to the front of the
/// caller's buffer, and the status-clearing write.
pub open spec fn rx_delivery_trace(
    pre: Seq<Exchange>,
    post: Seq<Exchange>,
    buffer_pre: Seq<u8>,
    buffer_post: Seq<u8>,
) -> bool {
    let n = pre.len() as int;
    let len = get_field(post[n + 2].received, 0, 6) as int;
    &&& post.len() == n + 5
    &&& log_extends(post, pre)
    &&& is_read_of(post[n], spec_descriptor(Reg::SysStatus))
    &&& spec_rx_decision(post[n].received) == RxDecision::Ready
    &&& is_read_of(post[n + 1], spec_descriptor(Reg::RxTime))
    &&& is_read_of(post[n + 2], spec_descriptor(Reg::RxFinfo))
    &&& is_read_of(post[n + 3], spec_descriptor(Reg::RxBuffer))
    &&& len <= buffer_pre.len()
    &&& buffer_post.len() == buffer_pre.len()
    &&& forall|j: int| 0 <= j < len ==> buffer_post[j] == post[n + 3].received[j]
    &&& forall|j: int| len <= j < buffer_post.len() ==> buffer_post[j] == buffer_pre[j]
    &&& post[n + 4] == write_entry(
        spec_descriptor(Reg::SysStatus),
        apply_writes(ll::zero_seq(5), rx_status_clear_updates()),
    )
}

/// Entry point to the driver.
///
/// The handle owns the register-level interface and the outgoing sequence
/// counter; its `State` records whether [`DW1000::init`] has run.
pub struct DW1000<T, State> {
    ll: ll::DW1000<T>,
    seq: u8,
    state: State,
}

impl<T: Transport, State> DW1000<T, State> {
    /// The outgoing sequence counter's current value.
    pub closed spec fn seq_value(&self) -> u8 {
        self.seq
    }

    /// The transport's remaining ghost budget; see
    /// [`crate::ll::Transport::fuel`].
    pub closed spec fn fuel(&self) -> nat {
        self.ll.fuel()
    }

    /// The transport's ghost exchange history; see
    /// [`crate::ll::Transport::log`].
    pub closed spec fn log(&self) -> Seq<Exchange> {
        self.ll.log()
    }

    /// Provides direct access to the register-level interface. Writes made
    /// through it can invalidate the assumptions the methods here make about
    /// the chip's configuration.
    pub fn ll(&mut self) -> &mut ll::DW1000<T> {
        &mut self.ll
    }
}

/// Applies the fixed configuration prefix of an initialization run; on
/// success the bus saw exactly what [`init_prefix_at`] describes and
/// nothing else.
#[verifier::rlimit(100)]
#[verifier::spinoff_prover]
fn apply_base_configuration<T: Transport>(dev: &mut ll::DW1000<T>) -> (r: Result<
    (),
    TransportError,
>)
    ensures
        r is Ok ==> exists|p1: int|
            {
                &&& #[trigger] init_prefix_at(final(dev).log(), old(dev).log().len() as int, p1)
                &&& log_extends(final(dev).log(), old(dev).log())
                &&& final(dev).log().len() == p1 + 2
            },
{
    proof {
        lemma2_to64();
        lemma2_to64_rest();
    }
        let ghost pre = dev.log();

        // Analog gain tuning: the documented replacement values.
        let mut u: Vec<FieldWrite> = Vec::new();
        let w = FieldWrite { first_bit: 0, last_bit: 15, value: 0x8870 };
        u.push(w);
        proof {
            assert(u@ =~= seq![w]);
            ll::lemma_apply_one(ll::zero_seq(2), w);
        }
        dev.write(descriptor(Reg::AgcTune1), &u)?;
        let ghost a1 = dev.log();

        let mut u: Vec<FieldWrite> = Vec::new();
        let w = FieldWrite { first_bit: 0, last_bit: 31, value: 0x2502A907 };
        u.push(w);
        proof {
            assert(u@ =~= seq![w]);
            ll::lemma_apply_one(ll::zero_seq(4), w);
        }
        dev.write(descriptor(Reg::AgcTune2), &u)?;
        let ghost a2 = dev.log();

        // Digital receiver tuning.
        let mut u: Vec<FieldWrite> = Vec::new();
        let w = FieldWrite { first_bit: 0, last_bit: 31, value: 0x311A002D };
        u.push(w);
        proof {
            assert(u@ =~= seq![w]);
            ll::lemma_apply_one(ll::zero_seq(4), w);
        }
        dev.write(descriptor(Reg::DrxTune2), &u)?;
        let ghost a3 = dev.log();

        // Noise threshold multiplier; favours line-of-sight conditions.
        let mut u: Vec<FieldWrite> = Vec::new();
        let w = FieldWrite { first_bit: 0, last_bit: 4, value: 0xD };
        u.push(w);
        proof {
            assert(u@ =~= seq![w]);
        }
        dev.modify(descriptor(Reg::LdeCfg1), &u)?;
        let ghost a4 = dev.log();

        let mut u: Vec<FieldWrite> = Vec::new();
        let w = FieldWrite { first_bit: 0, last_bit: 15, value: 0x1607 };
        u.push(w);
        proof {
            assert(u@ =~= seq![w]);
            ll::lemma_apply_one(ll::zero_seq(2), w);
        }
        dev.write(descriptor(Reg::LdeCfg2), &u)?;
        let ghost a5 = dev.log();

        // Transmit power.
        let mut u: Vec<FieldWrite> = Vec::new();
        let w = FieldWrite { first_bit: 0, last_bit: 31, value: 0x0E082848 };
        u.push(w);
        proof {
            assert(u@ =~= seq![w]);
            ll::lemma_apply_one(ll::zero_seq(4), w);
        }
        dev.write(descriptor(Reg::TxPower), &u)?;
        let ghost a6 = dev.log();

        // Analog TX control: mixer tuning and mixer Q factor.
        let mut u: Vec<FieldWrite> = Vec::new();
        let w1 = FieldWrite { first_bit: 5, last_bit: 8, value: 0b1111 };
        let w2 = FieldWrite { first_bit: 9, last_bit: 11, value: 0b111 };
        u.push(w1);
        u.push(w2);
        proof {
            assert(u@ =~= seq![w1, w2]);
        }
        dev.modify(descriptor(Reg::RfTxctrl), &u)?;
        let ghost a7 = dev.log();

        // Pulse generator delay.
        let mut u: Vec<FieldWrite> = Vec::new();
        let w = FieldWrite { first_bit: 0, last_bit: 7, value: 0xC0 };
        u.push(w);
        proof {
            assert(u@ =~= seq![w]);
            ll::lemma_apply_one(ll::zero_seq(1), w);
        }
        dev.write(descriptor(Reg::TcPgdelay), &u)?;
        let ghost a8 = dev.log();

        // PLL tuning.
        let mut u: Vec<FieldWrite> = Vec::new();
        let w = FieldWrite { first_bit: 0, last_bit: 7, value: 0xBE };
        u.push(w);
        proof {
            assert(u@ =~= seq![w]);
            ll::lemma_apply_one(ll::zero_seq(1), w);
        }
        dev.write(descriptor(Reg::FsPlltune), &u)?;
        let ghost a9 = dev.log();

        // Load the leading-edge-detection microcode: force the slow clock,
        // strobe the load bit, wait for the chip to clear it, restore the
        // clock selection.
        let mut u: Vec<FieldWrite> = Vec::new();
        let w = FieldWrite { first_bit: 0, last_bit: 1, value: 0b01 };
        u.push(w);
        proof {
            assert(u@ =~= seq![w]);
        }
        dev.modify(descriptor(Reg::PmscCtrl0), &u)?;
        let ghost a10 = dev.log();

        let mut u: Vec<FieldWrite> = Vec::new();
        let w = FieldWrite { first_bit: 15, last_bit: 15, value: 1 };
        u.push(w);
        proof {
            assert(u@ =~= seq![one_bit(15)]);
        }
        dev.modify(descriptor(Reg::OtpCtrl), &u)?;
        let ghost a11 = dev.log();
        match poll_until_clear(dev, descriptor(Reg::OtpCtrl), 15, 15) {
            Ok(()) => (),
            Err(e) => {
                return Err(e);
            },
        }
        let ghost a12 = dev.log();
        let ghost p1 = a12.len() as int;

        let mut u: Vec<FieldWrite> = Vec::new();
        let w = FieldWrite { first_bit: 0, last_bit: 1, value: 0b00 };
        u.push(w);
        proof {
            assert(u@ =~= seq![w]);
        }
        dev.modify(descriptor(Reg::PmscCtrl0), &u)?;
        let ghost a13 = dev.log();

        proof {
            let n = pre.len() as int;
            let post = dev.log();
            ll::lemma_log_extends_push(pre, a1.last());
            ll::lemma_log_extends_push(a1, a2.last());
            ll::lemma_log_extends_push(a2, a3.last());
            ll::lemma_log_extends_push(a4, a5.last());
            ll::lemma_log_extends_push(a5, a6.last());
            ll::lemma_log_extends_push(a7, a8.last());
            ll::lemma_log_extends_push(a8, a9.last());
            ll::lemma_log_extends_trans(a13, a12, a11);
            ll::lemma_log_extends_trans(a13, a11, a10);
            ll::lemma_log_extends_trans(a13, a10, a9);
            ll::lemma_log_extends_trans(a13, a9, a8);
            ll::lemma_log_extends_trans(a13, a8, a7);
            ll::lemma_log_extends_trans(a13, a7, a6);
            ll::lemma_log_extends_trans(a13, a6, a5);
            ll::lemma_log_extends_trans(a13, a5, a4);
            ll::lemma_log_extends_trans(a13, a4, a3);
            ll::lemma_log_extends_trans(a13, a3, a2);
            ll::lemma_log_extends_trans(a13, a2, a1);
            ll::lemma_log_extends_trans(a13, a1, pre);
            assert(log_extends(a13, a13)) by {
                assert(a13.take(a13.len() as int) =~= a13);
            }
            init_fixed_prefix_transfer(
                pre, a13, a1, a2, a3, a4, a5, a6, a7, a8, a9, a10, a11, a12, a13, p1,
            );
            assert(init_prefix_at(post, n, p1));
        }
        Ok(())
}

impl<T: Transport> DW1000<T, Uninitialized> {
    /// Creates a driver handle over the given transport. The handle must be
    /// initialized before it can transmit or receive.
    pub fn new(transport: T) -> (d: DW1000<T, Uninitialized>)
        ensures
            d.seq_value() == 0,
    {
        DW1000 { ll: ll::DW1000::new(transport), seq: 0, state: Uninitialized }
    }

    /// Initializes the chip: a fixed, ordered list of register writes that
    /// corrects the default configuration, taken from the chip's
    /// documentation. The handle is consumed either way; on success the
    /// returned `Ready` handle carries the sequence counter over, and the
    /// bus saw exactly the sequence [`init_trace`] describes — including
    /// that with a zero first calibration word the second word is never
    /// read and the tuning register never written.
    ///
    /// Any bus error aborts the sequence at that step and surfaces it;
    /// configuration already applied stays applied.
    #[verifier::rlimit(100)]
    #[verifier::spinoff_prover]
    pub fn init(self) -> (r: Result<DW1000<T, Ready>, Error>)
        ensures
            r is Ok ==> r->Ok_0.seq_value() == self.seq_value(),
            r is Ok ==> init_ok(self.log(), r->Ok_0.log()),
    {
        proof {
            lemma2_to64();
            lemma2_to64_rest();
        }
        let mut this = self;
        let ghost pre = this.log();
        match apply_base_configuration(&mut this.ll) {
            Ok(()) => (),
            Err(e) => {
                return Err(Error::Spi(e));
            },
        }
        let ghost a13 = this.log();
        let ghost p1 = a13.len() as int - 2;
        proof {
            let pw = choose|p: int|
                {
                    &&& #[trigger] init_prefix_at(a13, pre.len() as int, p)
                    &&& log_extends(a13, pre)
                    &&& a13.len() == p + 2
                };
            assert(pw == p1);
        }

        // Voltage tuning from one-time-programmable memory: read the first
        // calibration word; if it is zero the factory default stands and
        // nothing more is read or written.
        let otp_low = this.read_otp_word(0x004)?;
        let ghost a14 = this.log();
        let ghost p2 = a14.len() as int - 1;
        proof {
            let pw = choose|p: int|
                {
                    &&& #[trigger] otp_read_at(a14, a13.len() as int, p, 0x004)
                    &&& log_extends(a14, a13)
                    &&& a14.len() == p + 1
                    &&& otp_low == get_field(a14[p].received, 0, 31)
                };
            assert(pw == p2);
        }
        if otp_low != 0 {
            let otp_high = this.read_otp_word(0x005)?;
            let ghost a15 = this.log();
            let ghost p3 = a15.len() as int - 1;
            proof {
                let pw = choose|p: int|
                    {
                        &&& #[trigger] otp_read_at(a15, a14.len() as int, p, 0x005)
                        &&& log_extends(a15, a14)
                        &&& a15.len() == p + 1
                        &&& otp_high == get_field(a15[p].received, 0, 31)
                    };
                assert(pw == p3);
            }
            let combined: u64 = otp_low as u64 | ((otp_high as u64) << 32u64);
            // The tuning field is 40 bits wide; only the low 40 bits of the
            // combined words fit it.
            let tuning: u64 = combined & 0xFF_FFFF_FFFF;
            proof {
                assert((combined & 0xFF_FFFF_FFFF) < 0x100_0000_0000) by (bit_vector);
            }
            let mut u: Vec<FieldWrite> = Vec::new();
            let w = FieldWrite { first_bit: 0, last_bit: 39, value: tuning };
            u.push(w);
            proof {
                assert(u@ =~= seq![w]);
                ll::lemma_apply_one(ll::zero_seq(5), w);
            }
            this.ll.write(descriptor(Reg::Ldotune), &u)?;
            proof {
                let n = pre.len() as int;
                let post = this.log();
                ll::lemma_log_extends_push(a15, post.last());
                ll::lemma_log_extends_trans(post, a15, a14);
                ll::lemma_log_extends_trans(post, a14, a13);
                ll::lemma_log_extends_trans(post, a13, pre);
                lemma_init_prefix_at_extends(a13, post, n, p1);
                lemma_otp_read_at_extends(a14, post, p1 + 2, p2, 0x004);
                lemma_otp_read_at_extends(a15, post, p2 + 1, p3, 0x005);
                ll::lemma_log_extends_index(post, a14, p2);
                ll::lemma_log_extends_index(post, a15, p3);
                assert(init_trace(pre, post, p1, p2, p3));
            }
        } else {
            proof {
                let n = pre.len() as int;
                let post = this.log();
                assert(log_extends(post, a14)) by {
                    assert(post.take(a14.len() as int) =~= a14);
                }
                ll::lemma_log_extends_trans(post, a14, a13);
                ll::lemma_log_extends_trans(post, a13, pre);
                lemma_init_prefix_at_extends(a13, post, n, p1);
                lemma_otp_read_at_extends(a14, post, p1 + 2, p2, 0x004);
                ll::lemma_log_extends_index(post, a14, p2);
                assert(init_trace(pre, post, p1, p2, 0));
            }
        }

        let dev = DW1000 { ll: this.ll, seq: this.seq, state: Ready };
        proof {
            assert(init_ok(self.log(), dev.log()));
        }
        Ok(dev)
    }
    /// Reads one word of one-time-programmable memory: sets its address,
    /// strobes the read-enable and read bits, waits for the chip to clear
    /// the read bit, and fetches the read-data register.
    fn read_otp_word(&mut self, addr: u16) -> (r: Result<u32, Error>)
        requires
            addr <= 0x7FF,
        ensures
            final(self).seq_value() == old(self).seq_value(),
            r is Ok ==> exists|p: int|
                {
                    &&& #[trigger] otp_read_at(
                        final(self).log(),
                        old(self).log().len() as int,
                        p,
                        addr,
                    )
                    &&& log_extends(final(self).log(), old(self).log())
                    &&& final(self).log().len() == p + 1
                    &&& r->Ok_0 == get_field(final(self).log()[p].received, 0, 31)
                },
    {
        proof {
            lemma2_to64();
        }
        let ghost pre = self.log();
        let mut u: Vec<FieldWrite> = Vec::new();
        let w = FieldWrite { first_bit: 0, last_bit: 10, value: addr as u64 };
        u.push(w);
        proof {
            assert(u@ =~= seq![w]);
            ll::lemma_apply_one(ll::zero_seq(2), w);
        }
        self.ll.write(descriptor(Reg::OtpAddr), &u)?;
        let ghost l1 = self.log();

        let mut u: Vec<FieldWrite> = Vec::new();
        u.push(FieldWrite { first_bit: 0, last_bit: 0, value: 1 });
        u.push(FieldWrite { first_bit: 1, last_bit: 1, value: 1 });
        proof {
            assert(u@ =~= seq![one_bit(0), one_bit(1)]);
        }
        self.ll.modify(descriptor(Reg::OtpCtrl), &u)?;
        let ghost l2 = self.log();
        match poll_until_clear(&mut self.ll, descriptor(Reg::OtpCtrl), 1, 1) {
            Ok(()) => (),
            Err(e) => {
                return Err(Error::Spi(e));
            },
        }
        let ghost l3 = self.log();
        let ghost p = l3.len() as int;

        let rdat = self.ll.read(descriptor(Reg::OtpRdat))?;
        let word = decode(&rdat, 0, 31);
        proof {
            let post = self.log();
            ll::lemma_log_extends_push(pre, l1.last());
            ll::lemma_log_extends_push(l3, post.last());
            ll::lemma_log_extends_trans(l2, l1, pre);
            ll::lemma_log_extends_trans(l3, l2, l1);
            ll::lemma_log_extends_trans(post, l3, l2);
            ll::lemma_log_extends_trans(post, l2, l1);
            ll::lemma_log_extends_trans(post, l1, pre);
            ll::lemma_log_extends_index(post, l1, pre.len() as int);
            ll::lemma_log_extends_index(post, l2, pre.len() as int + 1);
            ll::lemma_log_extends_index(post, l2, pre.len() as int + 2);
            assert forall|k: int| pre.len() + 3 <= k < p implies is_read_of(
                #[trigger] post[k],
                spec_descriptor(Reg::OtpCtrl),
            ) by {
                ll::lemma_log_extends_index(post, l3, k);
            }
            ll::lemma_log_extends_index(post, l3, p - 1);
            assert(otp_read_at(post, pre.len() as int, p, addr));
        }
        Ok(word as u32)
    }
}

impl<T: Transport> DW1000<T, Ready> {
    /// Sets the RX and TX antenna delays used for ranging timestamps.
    pub fn set_antenna_delay(&mut self, rx_delay: u16, tx_delay: u16) -> (r: Result<(), Error>)
        ensures
            final(self).seq_value() == old(self).seq_value(),
            r is Ok ==> final(self).log() == old(self).log().push(
                write_entry(
                    spec_descriptor(Reg::LdeRxantd),
                    set_field(ll::zero_seq(2), 0, 15, rx_delay as u64),
                ),
            ).push(
                write_entry(
                    spec_descriptor(Reg::TxAntd),
                    set_field(ll::zero_seq(2), 0, 15, tx_delay as u64),
                ),
            ),
    {
        proof {
            lemma2_to64();
        }
        let mut u: Vec<FieldWrite> = Vec::new();
        let w = FieldWrite { first_bit: 0, last_bit: 15, value: rx_delay as u64 };
        u.push(w);
        proof {
            assert(u@ =~= seq![w]);
            ll::lemma_apply_one(ll::zero_seq(2), w);
        }
        self.ll.write(descriptor(Reg::LdeRxantd), &u)?;

        let mut u: Vec<FieldWrite> = Vec::new();
        let w = FieldWrite { first_bit: 0, last_bit: 15, value: tx_delay as u64 };
        u.push(w);
        proof {
            assert(u@ =~= seq![w]);
            ll::lemma_apply_one(ll::zero_seq(2), w);
        }
        self.ll.write(descriptor(Reg::TxAntd), &u)?;

        Ok(())
    }

    /// Returns the TX antenna delay.
    pub fn get_tx_antenna_delay(&mut self) -> (r: Result<Duration, Error>)
        ensures
            final(self).seq_value() == old(self).seq_value(),
            r is Ok ==> ({
                let post = final(self).log();
                let n = old(self).log().len() as int;
                &&& post.len() == n + 1
                &&& log_extends(post, old(self).log())
                &&& is_read_of(post[n], spec_descriptor(Reg::TxAntd))
                &&& r->Ok_0.spec_value() == get_field(post[n].received, 0, 15)
                &&& r->Ok_0.spec_value() < 0x1_0000
            }),
    {
        let payload = self.ll.read(descriptor(Reg::TxAntd))?;
        let value = decode(&payload, 0, 15);
        proof {
            lemma2_to64();
            ll::lemma_log_extends_push(old(self).log(), self.log().last());
        }
        // A 16-bit delay always fits in 40 bits.
        Ok(Duration::new(value).unwrap())
    }

    /// Sets the network id and short address used for sending and receiving.
    pub fn set_address(&mut self, pan_id: u16, short_addr: u16) -> (r: Result<(), Error>)
        ensures
            final(self).seq_value() == old(self).seq_value(),
            r is Ok ==> final(self).log() == old(self).log().push(
                write_entry(
                    spec_descriptor(Reg::Panadr),
                    set_field(
                        set_field(ll::zero_seq(4), 0, 15, short_addr as u64),
                        16,
                        31,
                        pan_id as u64,
                    ),
                ),
            ),
    {
        proof {
            lemma2_to64();
        }
        let mut u: Vec<FieldWrite> = Vec::new();
        let w1 = FieldWrite { first_bit: 0, last_bit: 15, value: short_addr as u64 };
        let w2 = FieldWrite { first_bit: 16, last_bit: 31, value: pan_id as u64 };
        u.push(w1);
        u.push(w2);
        proof {
            assert(u@ =~= seq![w1, w2]);
            ll::lemma_apply_two(ll::zero_seq(4), w1, w2);
        }
        self.ll.write(descriptor(Reg::Panadr), &u)?;

        Ok(())
    }

    /// Returns the network id and short address used for sending and
    /// receiving.
    pub fn get_address(&mut self) -> (r: Result<Address, Error>)
        ensures
            final(self).seq_value() == old(self).seq_value(),
            r is Ok ==> r->Ok_0 is Short,
            r is Ok ==> ({
                let post = final(self).log();
                let n = old(self).log().len() as int;
                &&& post.len() == n + 1
                &&& log_extends(post, old(self).log())
                &&& is_read_of(post[n], spec_descriptor(Reg::Panadr))
                &&& r->Ok_0 == Address::Short(
                    get_field(post[n].received, 16, 31) as u16,
                    get_field(post[n].received, 0, 15) as u16,
                )
            }),
    {
        let payload = self.ll.read(descriptor(Reg::Panadr))?;
        let short_addr = decode(&payload, 0, 15);
        let pan_id = decode(&payload, 16, 31);
        proof {
            lemma2_to64();
            ll::lemma_log_extends_push(old(self).log(), self.log().last());
        }
        Ok(Address::Short(pan_id as u16, short_addr as u16))
    }

    /// Returns the current system time.
    pub fn sys_time(&mut self) -> (r: Result<Instant, Error>)
        ensures
            final(self).seq_value() == old(self).seq_value(),
            r is Ok ==> ({
                let post = final(self).log();
                let n = old(self).log().len() as int;
                &&& post.len() == n + 1
                &&& log_extends(post, old(self).log())
                &&& is_read_of(post[n], spec_descriptor(Reg::SysTime))
                &&& r->Ok_0.spec_value() == get_field(post[n].received, 0, 39)
            }),
    {
        let payload = self.ll.read(descriptor(Reg::SysTime))?;
        let value = decode(&payload, 0, 39);
        proof {
            lemma2_to64_rest();
            ll::lemma_log_extends_push(old(self).log(), self.log().last());
        }
        // The field is 40 bits wide, so its value is always a valid instant.
        Ok(Instant::new(value).unwrap())
    }

    /// Starts sending a link-layer frame and returns at once.
    ///
    /// `data` is wrapped into a data frame addressed from this device's own
    /// address to `destination`, with the next number of the 8-bit wrapping
    /// sequence counter, which steps on every send whatever the outcome once
    /// the transmitter has been claimed. A `delayed_time` schedules the send
    /// for that instant on the chip's clock. Poll
    /// [`DW1000::wait_transmission`] for the outcome. On success the bus saw
    /// exactly the sequence [`send_trace`] describes, with the frame handed
    /// to the codec spelled out by [`outgoing_frame`].
    #[verifier::rlimit(100)]
    #[verifier::spinoff_prover]
    pub fn send<C: FrameCodec>(
        &mut self,
        frame_codec: &C,
        data: &[u8],
        destination: Address,
        delayed_time: Option<Instant>,
    ) -> (r: Result<(), Error>)
        ensures
            final(self).seq_value() == old(self).seq_value() || final(self).seq_value() == (
            old(self).seq_value() + 1) % 256,
            r is Ok ==> final(self).seq_value() == (old(self).seq_value() + 1) % 256,
            r is Ok ==> exists|q1: int, q2: int, q3: int|
                send_trace(
                    frame_codec,
                    old(self).log(),
                    final(self).log(),
                    q1,
                    q2,
                    q3,
                    data@,
                    destination,
                    old(self).seq_value(),
                    delayed_time,
                ),
    {
        proof {
            lemma2_to64();
            lemma2_to64_rest();
        }
        let ghost pre = self.log();
        // Clear the event counters, then enable them again; the chip clears
        // each strobe bit itself when it has acted.
        let mut u: Vec<FieldWrite> = Vec::new();
        let w = FieldWrite { first_bit: 1, last_bit: 1, value: 1 };
        u.push(w);
        proof {
            assert(u@ =~= seq![w]);
            ll::lemma_apply_one(ll::zero_seq(4), w);
        }
        self.ll.write(descriptor(Reg::EvcCtrl), &u)?;
        let ghost l1 = self.log();
        match poll_until_clear(&mut self.ll, descriptor(Reg::EvcCtrl), 1, 1) {
            Ok(()) => (),
            Err(e) => {
                return Err(Error::Spi(e));
            },
        }
        let ghost l2 = self.log();
        let ghost q1 = l2.len() as int;

        let mut u: Vec<FieldWrite> = Vec::new();
        let w = FieldWrite { first_bit: 0, last_bit: 0, value: 1 };
        u.push(w);
        proof {
            assert(u@ =~= seq![w]);
            ll::lemma_apply_one(ll::zero_seq(4), w);
        }
        self.ll.write(descriptor(Reg::EvcCtrl), &u)?;
        let ghost l3 = self.log();
        match poll_until_clear(&mut self.ll, descriptor(Reg::EvcCtrl), 0, 0) {
            Ok(()) => (),
            Err(e) => {
                return Err(Error::Spi(e));
            },
        }
        let ghost l4 = self.log();
        let ghost q2 = l4.len() as int;

        // The chip has been seen stuck in receive mode, which would silently
        // swallow the start command: force it idle first.
        self.force_idle()?;
        let ghost l5 = self.log();
        let ghost q3 = l5.len() as int;

        // Draw the next sequence number; the counter steps whatever happens
        // from here on.
        let seq = self.seq;
        self.seq = if self.seq == 255 {
            0
        } else {
            self.seq + 1
        };

        let source = self.get_address()?;
        let ghost l6 = self.log();
        let mut payload_copy: Vec<u8> = Vec::new();
        let mut i: usize = 0;
        while i < data.len()
            invariant
                i <= data@.len(),
                payload_copy@ == data@.take(i as int),
            decreases data@.len() - i,
        {
            payload_copy.push(data[i]);
            proof {
                assert(data@.take(i + 1) =~= data@.take(i as int).push(data@[i as int]));
            }
            i = i + 1;
        }
        proof {
            assert(data@.take(data@.len() as int) =~= data@);
        }
        let frame = Frame {
            header: FrameHeader {
                frame_type: FrameType::Data,
                version: FrameVersion::Ieee802154_2006,
                security: false,
                frame_pending: false,
                ack_request: false,
                pan_id_compress: false,
                destination,
                source,
                seq,
            },
            payload: payload_copy,
        };

        // Program the scheduled-send instant, when one was given.
        if let Some(time) = delayed_time {
            proof {
                use_type_invariant(&time);
            }
            let mut u: Vec<FieldWrite> = Vec::new();
            let w = FieldWrite { first_bit: 0, last_bit: 39, value: time.value() };
            u.push(w);
            proof {
                assert(u@ =~= seq![w]);
                ll::lemma_apply_one(ll::zero_seq(5), w);
            }
            self.ll.write(descriptor(Reg::DxTime), &u)?;
        }
        let ghost l7 = self.log();

        // Serialize the frame into the transmit buffer. The copy is capped
        // at the buffer's capacity on its own, so that index safety does not
        // rest on the codec honouring its length bound.
        let encoded = frame_codec.encode_frame(&frame);
        let count = if encoded.len() > 125 {
            125
        } else {
            encoded.len()
        };
        let mut tx_payload = ll::zero_payload(127);
        let mut i: usize = 0;
        while i < count
            invariant
                count <= encoded@.len(),
                count <= 125,
                i <= count,
                tx_payload@.len() == 127,
                forall|j: int| 0 <= j < i ==> tx_payload@[j] == encoded@[j],
                forall|j: int| i <= j < 127 ==> tx_payload@[j] == 0u8,
            decreases count - i,
        {
            let b = encoded[i];
            tx_payload[i] = b;
            i = i + 1;
        }
        proof {
            assert(count == encoded@.len());
            assert(tx_payload@ =~= padded(encoded@, 127));
        }
        self.ll.write_raw(descriptor(Reg::TxBuffer), &tx_payload)?;
        let ghost l8 = self.log();

        // Program the transmitted length: the encoded bytes plus the
        // two-byte checksum the hardware appends; no length extension, no
        // buffer offset.
        let tflen: u64 = count as u64 + 2;
        let mut u: Vec<FieldWrite> = Vec::new();
        u.push(FieldWrite { first_bit: 0, last_bit: 6, value: tflen });
        u.push(FieldWrite { first_bit: 7, last_bit: 9, value: 0 });
        u.push(FieldWrite { first_bit: 22, last_bit: 31, value: 0 });
        proof {
            assert(u@ =~= tx_fctrl_updates(tflen));
        }
        self.ll.modify(descriptor(Reg::TxFctrl), &u)?;
        let ghost l9 = self.log();

        // Issue the start command, flagged as delayed when scheduled.
        let mut u: Vec<FieldWrite> = Vec::new();
        if delayed_time.is_some() {
            u.push(FieldWrite { first_bit: 2, last_bit: 2, value: 1 });
        }
        u.push(FieldWrite { first_bit: 1, last_bit: 1, value: 1 });
        proof {
            if delayed_time is Some {
                assert(u@ =~= seq![one_bit(2), one_bit(1)]);
            } else {
                assert(u@ =~= seq![one_bit(1)]);
            }
        }
        self.ll.modify(descriptor(Reg::SysCtrl), &u)?;
        let ghost post = self.log();

        proof {
            let n = pre.len() as int;
            // Chain the extensions from each step back to the start.
            ll::lemma_log_extends_push(pre, l1.last());
            ll::lemma_log_extends_push(l2, l3.last());
            ll::lemma_log_extends_push(l4, l5[l4.len() as int]);
            ll::lemma_log_extends_trans(l5, l4.push(l5[l4.len() as int]), l4);
            ll::lemma_log_extends_push(l5, l6.last());
            if delayed_time is Some {
                ll::lemma_log_extends_push(l6, l7.last());
            } else {
                assert(l7.take(l6.len() as int) =~= l6);
            }
            ll::lemma_log_extends_push(l7, l8.last());
            ll::lemma_log_extends_trans(l2, l1, pre);
            ll::lemma_log_extends_trans(l3, l2, l1);
            ll::lemma_log_extends_trans(l3, l2, pre);
            ll::lemma_log_extends_trans(l4, l3, l2);
            ll::lemma_log_extends_trans(l4, l3, pre);
            ll::lemma_log_extends_trans(l5, l4, l3);
            ll::lemma_log_extends_trans(l5, l4, pre);
            ll::lemma_log_extends_trans(l6, l5, l4);
            ll::lemma_log_extends_trans(l7, l6, l5);
            ll::lemma_log_extends_trans(l8, l7, l6);
            ll::lemma_log_extends_trans(l9, l8, l7);
            ll::lemma_log_extends_trans(post, l9, l8);
            ll::lemma_log_extends_trans(post, l8, l7);
            ll::lemma_log_extends_trans(post, l7, l6);
            ll::lemma_log_extends_trans(post, l6, l5);
            ll::lemma_log_extends_trans(post, l5, l4);
            ll::lemma_log_extends_trans(post, l4, l3);
            ll::lemma_log_extends_trans(post, l3, l2);
            ll::lemma_log_extends_trans(post, l2, l1);
            ll::lemma_log_extends_trans(post, l1, pre);
            // Transfer each fixed entry to its absolute position in `post`.
            ll::lemma_log_extends_index(post, l1, n);
            assert forall|k: int| n + 1 <= k < q1 implies is_read_of(
                #[trigger] post[k],
                spec_descriptor(Reg::EvcCtrl),
            ) by {
                ll::lemma_log_extends_index(post, l2, k);
            }
            ll::lemma_log_extends_index(post, l2, q1 - 1);
            ll::lemma_log_extends_index(post, l3, q1);
            assert forall|k: int| q1 + 1 <= k < q2 implies is_read_of(
                #[trigger] post[k],
                spec_descriptor(Reg::EvcCtrl),
            ) by {
                ll::lemma_log_extends_index(post, l4, k);
            }
            ll::lemma_log_extends_index(post, l4, q2 - 1);
            ll::lemma_log_extends_index(post, l5, q2);
            assert forall|k: int| q2 + 1 <= k < q3 implies is_read_of(
                #[trigger] post[k],
                spec_descriptor(Reg::SysCtrl),
            ) by {
                ll::lemma_log_extends_index(post, l5, k);
            }
            ll::lemma_log_extends_index(post, l5, q3 - 1);
            ll::lemma_log_extends_index(post, l6, q3);
            if delayed_time is Some {
                ll::lemma_log_extends_index(post, l7, q3 + 1);
            }
            let d = q3 + 1 + (if delayed_time is Some {
                1int
            } else {
                0int
            });
            ll::lemma_log_extends_index(post, l8, d);
            ll::lemma_log_extends_index(post, l9, d + 1);
            ll::lemma_log_extends_index(post, l9, d + 2);
            assert(frame@ == outgoing_frame(destination, source, seq, data@));
            assert(send_trace(
                frame_codec,
                old(self).log(),
                self.log(),
                q1,
                q2,
                q3,
                data@,
                destination,
                old(self).seq_value(),
                delayed_time,
            ));
        }
        Ok(())
    }

    /// Arms the receiver and returns at once; poll
    /// [`DW1000::wait_reception`] for a frame. On success the bus saw
    /// exactly the configuration sequence [`receive_trace`] describes.
    ///
    /// Only frames that pass the chip's frame filtering are received.
    pub fn receive(&mut self) -> (r: Result<(), Error>)
        ensures
            final(self).seq_value() == old(self).seq_value(),
            r is Ok ==> exists|q: int| receive_trace(old(self).log(), final(self).log(), q),
    {
        proof {
            lemma2_to64();
        }
        let ghost pre = self.log();
        // The receiver has been seen stuck after one good reception: reset
        // the receiver sub-block, then release the reset.
        let mut u: Vec<FieldWrite> = Vec::new();
        let w = FieldWrite { first_bit: 28, last_bit: 31, value: 0b1110 };
        u.push(w);
        proof {
            assert(u@ =~= seq![w]);
        }
        self.ll.modify(descriptor(Reg::PmscCtrl0), &u)?;
        let ghost m1 = self.log();

        let mut u: Vec<FieldWrite> = Vec::new();
        let w = FieldWrite { first_bit: 28, last_bit: 31, value: 0b1111 };
        u.push(w);
        proof {
            assert(u@ =~= seq![w]);
        }
        self.ll.modify(descriptor(Reg::PmscCtrl0), &u)?;
        let ghost m2 = self.log();

        self.force_idle()?;
        let ghost f = self.log();
        let ghost q = f.len() as int;

        // Frame filtering: admit beacon, data, acknowledgement and MAC
        // command frames.
        let mut u: Vec<FieldWrite> = Vec::new();
        u.push(FieldWrite { first_bit: 0, last_bit: 0, value: 1 });
        u.push(FieldWrite { first_bit: 2, last_bit: 2, value: 1 });
        u.push(FieldWrite { first_bit: 3, last_bit: 3, value: 1 });
        u.push(FieldWrite { first_bit: 4, last_bit: 4, value: 1 });
        u.push(FieldWrite { first_bit: 5, last_bit: 5, value: 1 });
        proof {
            assert(u@ =~= rx_filter_updates());
        }
        self.ll.modify(descriptor(Reg::SysCfg), &u)?;
        let ghost c1 = self.log();

        // Set the PLL-lock-detect tuning bit first: the two status bits
        // cleared next are reliable only once it is set.
        let mut u: Vec<FieldWrite> = Vec::new();
        let w = FieldWrite { first_bit: 2, last_bit: 2, value: 1 };
        u.push(w);
        proof {
            assert(u@ =~= seq![one_bit(2)]);
        }
        self.ll.modify(descriptor(Reg::EcCtrl), &u)?;
        let ghost c2 = self.log();

        // Now clear the clock-PLL-lock and clock-PLL-losing-lock bits that
        // depend on that tuning bit (write one to clear).
        let mut u: Vec<FieldWrite> = Vec::new();
        u.push(FieldWrite { first_bit: 1, last_bit: 1, value: 1 });
        u.push(FieldWrite { first_bit: 25, last_bit: 25, value: 1 });
        proof {
            assert(u@ =~= seq![one_bit(1), one_bit(25)]);
        }
        self.ll.write(descriptor(Reg::SysStatus), &u)?;
        let ghost c3 = self.log();

        // Arm the receiver.
        let mut u: Vec<FieldWrite> = Vec::new();
        let w = FieldWrite { first_bit: 8, last_bit: 8, value: 1 };
        u.push(w);
        proof {
            assert(u@ =~= seq![one_bit(8)]);
        }
        self.ll.modify(descriptor(Reg::SysCtrl), &u)?;
        let ghost post = self.log();

        proof {
            let n = pre.len() as int;
            // Chain the extensions from each step back to the start.
            ll::lemma_log_extends_push(m2, f[m2.len() as int]);
            ll::lemma_log_extends_trans(f, m2.push(f[m2.len() as int]), m2);
            ll::lemma_log_extends_push(c2, c3.last());
            assert(c2.push(c3.last()) == c3);
            ll::lemma_log_extends_trans(post, c3, c2);
            ll::lemma_log_extends_trans(post, c2, c1);
            ll::lemma_log_extends_trans(post, c1, f);
            ll::lemma_log_extends_trans(post, f, m2);
            ll::lemma_log_extends_trans(post, m2, m1);
            ll::lemma_log_extends_trans(post, m1, pre);
            // Transfer each fixed entry to its absolute position in `post`.
            ll::lemma_log_extends_index(post, m1, n);
            ll::lemma_log_extends_index(post, m1, n + 1);
            ll::lemma_log_extends_index(post, m2, n + 2);
            ll::lemma_log_extends_index(post, m2, n + 3);
            ll::lemma_log_extends_index(post, f, n + 4);
            assert forall|k: int| n + 5 <= k < q implies is_read_of(
                #[trigger] post[k],
                spec_descriptor(Reg::SysCtrl),
            ) by {
                ll::lemma_log_extends_index(post, f, k);
            }
            ll::lemma_log_extends_index(post, f, q - 1);
            ll::lemma_log_extends_index(post, c1, q);
            ll::lemma_log_extends_index(post, c1, q + 1);
            ll::lemma_log_extends_index(post, c2, q + 2);
            ll::lemma_log_extends_index(post, c2, q + 3);
            ll::lemma_log_extends_index(post, c3, q + 4);
            assert(receive_trace(pre, post, q));
        }
        Ok(())
    }

    /// Forces the chip into idle mode, aborting any ongoing transmit or
    /// receive: sets the transceiver-off bit and waits for the chip to clear
    /// it.
    pub fn force_idle(&mut self) -> (r: Result<(), Error>)
        ensures
            final(self).seq_value() == old(self).seq_value(),
            r is Ok ==> force_idle_trace(old(self).log(), final(self).log()),
    {
        proof {
            lemma2_to64();
        }
        let mut u: Vec<FieldWrite> = Vec::new();
        let w = FieldWrite { first_bit: 6, last_bit: 6, value: 1 };
        u.push(w);
        proof {
            assert(u@ =~= seq![w]);
            ll::lemma_apply_one(ll::zero_seq(4), w);
        }
        self.ll.write(descriptor(Reg::SysCtrl), &u)?;
        let ghost mid = self.log();
        match poll_until_clear(&mut self.ll, descriptor(Reg::SysCtrl), 6, 6) {
            Ok(()) => {
                proof {
                    ll::lemma_log_extends_index(self.log(), mid, old(self).log().len() as int);
                }
                Ok(())
            },
            Err(e) => Err(Error::Spi(e)),
        }
    }

    /// Clears the whole interrupt mask: no event raises the interrupt line.
    pub fn clear_interrupts(&mut self) -> (r: Result<(), Error>)
        ensures
            final(self).seq_value() == old(self).seq_value(),
            r is Ok ==> final(self).log() == old(self).log().push(
                write_entry(spec_descriptor(Reg::SysMask), ll::zero_seq(4)),
            ),
    {
        let u: Vec<FieldWrite> = Vec::new();
        proof {
            assert(u@ =~= Seq::<FieldWrite>::empty());
            assert(apply_writes(ll::zero_seq(4), Seq::<FieldWrite>::empty()) == ll::zero_seq(4));
        }
        self.ll.write(descriptor(Reg::SysMask), &u)?;
        Ok(())
    }

    /// Polls a started transmission: not-ready while the frame-sent bit is
    /// still clear, a terminal timing warning when a warning counter is
    /// nonzero, and success — clearing the four progress flags — once the
    /// frame is out. The outcome is exactly [`spec_tx_decision`] of the
    /// counter and status payloads the chip handed back.
    ///
    /// On either warning the frame was nonetheless physically transmitted:
    /// the warning grades the send's timing, it does not mean the frame is
    /// unsent, and the send must not be retried on its account.
    pub fn wait_transmission(&mut self) -> (r: Result<(), WaitError>)
        ensures
            final(self).seq_value() == old(self).seq_value(),
            ({
                let pre = old(self).log();
                let post = final(self).log();
                let n = pre.len() as int;
                match r {
                    Err(WaitError::Other(Error::Spi(_))) => true,
                    Err(WaitError::Other(e)) => {
                        // A timing warning: the two counter reads, nothing
                        // else on the bus, and the warning decision of what
                        // they returned.
                        &&& post.len() == n + 2
                        &&& log_extends(post, pre)
                        &&& is_read_of(post[n], spec_descriptor(Reg::EvcHpw))
                        &&& is_read_of(post[n + 1], spec_descriptor(Reg::EvcTpw))
                        &&& Some(e) == spec_tx_warning(
                            get_field(post[n].received, 0, 11),
                            get_field(post[n + 1].received, 0, 11),
                        )
                    },
                    Err(WaitError::WouldBlock) => {
                        // Counters clear, frame-sent bit clear: the three
                        // reads and no write, so the progress flags are
                        // untouched and the poll may be repeated.
                        &&& post.len() == n + 3
                        &&& log_extends(post, pre)
                        &&& is_read_of(post[n], spec_descriptor(Reg::EvcHpw))
                        &&& is_read_of(post[n + 1], spec_descriptor(Reg::EvcTpw))
                        &&& is_read_of(post[n + 2], spec_descriptor(Reg::SysStatus))
                        &&& Err::<(), WaitError>(WaitError::WouldBlock) == spec_tx_decision(
                            get_field(post[n].received, 0, 11),
                            get_field(post[n + 1].received, 0, 11),
                            post[n + 2].received,
                        )
                    },
                    Ok(()) => {
                        // Frame sent: the three reads, then exactly one
                        // status write clearing exactly the four progress
                        // flags (write one to clear).
                        &&& post.len() == n + 4
                        &&& log_extends(post, pre)
                        &&& is_read_of(post[n], spec_descriptor(Reg::EvcHpw))
                        &&& is_read_of(post[n + 1], spec_descriptor(Reg::EvcTpw))
                        &&& is_read_of(post[n + 2], spec_descriptor(Reg::SysStatus))
                        &&& Ok::<(), WaitError>(()) == spec_tx_decision(
                            get_field(post[n].received, 0, 11),
                            get_field(post[n + 1].received, 0, 11),
                            post[n + 2].received,
                        )
                        &&& post[n + 3] == write_entry(
                            spec_descriptor(Reg::SysStatus),
                            apply_writes(ll::zero_seq(5), tx_progress_clear_updates()),
                        )
                    },
                }
            }),
    {
        proof {
            lemma2_to64();
        }
        let ghost pre = self.log();
        // A nonzero half-period warning count: a scheduled send started too
        // late. A nonzero power-up warning count: the transmitter was still
        // powering up when a scheduled send started.
        let hpw_payload = match self.ll.read(descriptor(Reg::EvcHpw)) {
            Ok(p) => p,
            Err(e) => {
                return Err(WaitError::Other(Error::Spi(e)));
            },
        };
        let hpw = decode(&hpw_payload, 0, 11);
        let tpw_payload = match self.ll.read(descriptor(Reg::EvcTpw)) {
            Ok(p) => p,
            Err(e) => {
                return Err(WaitError::Other(Error::Spi(e)));
            },
        };
        let tpw = decode(&tpw_payload, 0, 11);
        proof {
            ll::lemma_log_extends_push(pre, self.log()[pre.len() as int]);
            ll::lemma_log_extends_push(pre.push(self.log()[pre.len() as int]), self.log().last());
            ll::lemma_log_extends_trans(
                self.log(),
                pre.push(self.log()[pre.len() as int]),
                pre,
            );
        }
        match tx_warning_decision(hpw, tpw) {
            Some(error) => {
                return Err(WaitError::Other(error));
            },
            None => (),
        }
        let ghost l2 = self.log();

        // These are the status bits [`DW1000::enable_interrupts_transmission`]
        // selects; a change here requires the matching change there.
        let status = match self.ll.read(descriptor(Reg::SysStatus)) {
            Ok(p) => p,
            Err(e) => {
                return Err(WaitError::Other(Error::Spi(e)));
            },
        };
        let ghost l3 = self.log();
        proof {
            ll::lemma_log_extends_push(l2, l3.last());
            ll::lemma_log_extends_trans(l3, l2, pre);
        }
        match tx_decision(hpw, tpw, &status) {
            Err(e) => {
                return Err(e);
            },
            Ok(()) => (),
        }

        // Frame sent: clear the four progress flags (write one to clear):
        // frame begins, preamble sent, PHY header sent, frame sent.
        let mut u: Vec<FieldWrite> = Vec::new();
        u.push(FieldWrite { first_bit: 4, last_bit: 4, value: 1 });
        u.push(FieldWrite { first_bit: 5, last_bit: 5, value: 1 });
        u.push(FieldWrite { first_bit: 6, last_bit: 6, value: 1 });
        u.push(FieldWrite { first_bit: 7, last_bit: 7, value: 1 });
        proof {
            assert(u@ =~= tx_progress_clear_updates());
        }
        match self.ll.write(descriptor(Reg::SysStatus), &u) {
            Ok(()) => {
                proof {
                    ll::lemma_log_extends_push(l3, self.log().last());
                    ll::lemma_log_extends_trans(self.log(), l3, pre);
                    ll::lemma_log_extends_index(self.log(), l3, pre.len() as int);
                    ll::lemma_log_extends_index(self.log(), l3, pre.len() as int + 1);
                    ll::lemma_log_extends_index(self.log(), l3, pre.len() as int + 2);
                }
                Ok(())
            },
            Err(e) => Err(WaitError::Other(Error::Spi(e))),
        }
    }

    /// Selects for the interrupt line exactly the event
    /// [`DW1000::wait_transmission`] checks: frame sent.
    ///
    /// Overwrites any interrupt selection that was previously made.
    pub fn enable_interrupts_transmission(&mut self) -> (r: Result<(), Error>)
        ensures
            final(self).seq_value() == old(self).seq_value(),
            r is Ok ==> final(self).log() == old(self).log().push(
                write_entry(
                    spec_descriptor(Reg::SysMask),
                    set_field(ll::zero_seq(4), 7, 7, 1),
                ),
            ),
    {
        proof {
            lemma2_to64();
        }
        let mut u: Vec<FieldWrite> = Vec::new();
        let w = FieldWrite { first_bit: 7, last_bit: 7, value: 1 };
        u.push(w);
        proof {
            assert(u@ =~= seq![w]);
            ll::lemma_apply_one(ll::zero_seq(4), w);
        }
        self.ll.write(descriptor(Reg::SysMask), &u)?;
        Ok(())
    }

    /// Polls an armed receiver: not-ready, a terminal error, or the decoded
    /// frame with its receive timestamp, copied out through `buffer`. The
    /// outcome of the status stage is exactly [`spec_rx_decision`] of the
    /// status payload the chip handed back.
    ///
    /// The received bytes are copied into the front of `buffer`; when
    /// `buffer` is shorter than the received frame, nothing is copied, no
    /// status bit is cleared — so retrying with a larger buffer still finds
    /// the frame — and the error carries the length a buffer would have
    /// needed.
    pub fn wait_reception<C: FrameCodec>(
        &mut self,
        frame_codec: &C,
        buffer: &mut Vec<u8>,
    ) -> (r: Result<Message, WaitError>)
        ensures
            final(self).seq_value() == old(self).seq_value(),
            final(buffer)@.len() == old(buffer)@.len(),
            ({
                let pre = old(self).log();
                let post = final(self).log();
                let n = pre.len() as int;
                match r {
                    Err(WaitError::Other(Error::Spi(_))) => true,
                    Err(WaitError::WouldBlock) => {
                        // The status stage said not-ready: one status read,
                        // nothing written, the buffer untouched.
                        &&& post.len() == n + 1
                        &&& log_extends(post, pre)
                        &&& is_read_of(post[n], spec_descriptor(Reg::SysStatus))
                        &&& spec_rx_decision(post[n].received) == RxDecision::NotReady
                        &&& final(buffer)@ == old(buffer)@
                    },
                    Err(WaitError::Other(Error::BufferTooSmall { required_len })) => {
                        // Frame ready but the buffer is short: the four
                        // reads, no write — the status bits stay set for a
                        // retry — nothing copied, and the required length is
                        // the received-length field the chip reported.
                        &&& post.len() == n + 4
                        &&& log_extends(post, pre)
                        &&& is_read_of(post[n], spec_descriptor(Reg::SysStatus))
                        &&& spec_rx_decision(post[n].received) == RxDecision::Ready
                        &&& is_read_of(post[n + 1], spec_descriptor(Reg::RxTime))
                        &&& is_read_of(post[n + 2], spec_descriptor(Reg::RxFinfo))
                        &&& is_read_of(post[n + 3], spec_descriptor(Reg::RxBuffer))
                        &&& required_len == get_field(post[n + 2].received, 0, 6)
                        &&& required_len > old(buffer)@.len()
                        &&& final(buffer)@ == old(buffer)@
                    },
                    Err(WaitError::Other(Error::Frame(e))) => {
                        // The bytes arrived and were copied, the status was
                        // cleared, but they do not parse as a frame.
                        &&& rx_delivery_trace(pre, post, old(buffer)@, final(buffer)@)
                        &&& frame_codec.spec_decode(
                            post[n + 3].received.take(
                                get_field(post[n + 2].received, 0, 6) as int,
                            ),
                        ) == Err::<crate::frame::FrameView, FrameDecodeError>(e)
                    },
                    Err(WaitError::Other(e)) => {
                        // A terminal receive error from the status stage:
                        // one status read, nothing written, the buffer
                        // untouched.
                        &&& post.len() == n + 1
                        &&& log_extends(post, pre)
                        &&& is_read_of(post[n], spec_descriptor(Reg::SysStatus))
                        &&& spec_rx_decision(post[n].received) == RxDecision::Failed(e)
                        &&& final(buffer)@ == old(buffer)@
                    },
                    Ok(message) => {
                        &&& rx_delivery_trace(pre, post, old(buffer)@, final(buffer)@)
                        &&& message.rx_time.spec_value() == get_field(
                            post[n + 1].received,
                            0,
                            39,
                        )
                        &&& frame_codec.spec_decode(
                            post[n + 3].received.take(
                                get_field(post[n + 2].received, 0, 6) as int,
                            ),
                        ) == Ok::<crate::frame::FrameView, FrameDecodeError>(message.frame@)
                    },
                }
            }),
    {
        proof {
            lemma2_to64();
            lemma2_to64_rest();
        }
        let ghost pre = self.log();
        // These are the status bits [`DW1000::enable_interrupts_reception`]
        // selects; a change here requires the matching change there.
        let status = match self.ll.read(descriptor(Reg::SysStatus)) {
            Ok(p) => p,
            Err(e) => {
                return Err(WaitError::Other(Error::Spi(e)));
            },
        };
        proof {
            ll::lemma_log_extends_push(pre, self.log().last());
        }
        match rx_decision(&status) {
            RxDecision::NotReady => {
                return Err(WaitError::WouldBlock);
            },
            RxDecision::Failed(error) => {
                return Err(WaitError::Other(error));
            },
            RxDecision::Ready => (),
        }

        // The frame is ready and leading-edge detection is done, so the
        // receive timestamp is valid now.
        let ghost l1 = self.log();
        let rx_time_payload = match self.ll.read(descriptor(Reg::RxTime)) {
            Ok(p) => p,
            Err(e) => {
                return Err(WaitError::Other(Error::Spi(e)));
            },
        };
        let stamp = decode(&rx_time_payload, 0, 39);
        // The field is 40 bits wide, so its value is always a valid instant.
        let rx_time = Instant::new(stamp).unwrap();

        // The received frame's length, then its bytes.
        let ghost l2 = self.log();
        let finfo = match self.ll.read(descriptor(Reg::RxFinfo)) {
            Ok(p) => p,
            Err(e) => {
                return Err(WaitError::Other(Error::Spi(e)));
            },
        };
        let len = decode(&finfo, 0, 6) as usize;

        let ghost l3 = self.log();
        let rx_data = match self.ll.read(descriptor(Reg::RxBuffer)) {
            Ok(p) => p,
            Err(e) => {
                return Err(WaitError::Other(Error::Spi(e)));
            },
        };
        let ghost l4 = self.log();
        proof {
            ll::lemma_log_extends_push(l1, l2.last());
            ll::lemma_log_extends_push(l2, l3.last());
            ll::lemma_log_extends_push(l3, l4.last());
            ll::lemma_log_extends_trans(l2, l1, pre);
            ll::lemma_log_extends_trans(l3, l2, l1);
            ll::lemma_log_extends_trans(l3, l2, pre);
            ll::lemma_log_extends_trans(l4, l3, l1);
            ll::lemma_log_extends_trans(l4, l3, l2);
            ll::lemma_log_extends_trans(l4, l3, pre);
            ll::lemma_log_extends_index(l4, l1, pre.len() as int);
            ll::lemma_log_extends_index(l4, l2, pre.len() as int + 1);
            ll::lemma_log_extends_index(l4, l3, pre.len() as int + 2);
        }

        if buffer.len() < len {
            return Err(WaitError::Other(Error::BufferTooSmall { required_len: len }));
        }

        // Copy exactly the received bytes out, and keep a copy to decode.
        let mut received: Vec<u8> = Vec::new();
        let mut i: usize = 0;
        while i < len
            invariant
                i <= len,
                len <= rx_data@.len(),
                len <= buffer@.len(),
                buffer@.len() == old(buffer)@.len(),
                received@ == rx_data@.take(i as int),
                forall|j: int| 0 <= j < i ==> buffer@[j] == rx_data@[j],
                forall|j: int| i <= j < buffer@.len() ==> buffer@[j] == old(buffer)@[j],
            decreases len - i,
        {
            let b = rx_data[i];
            buffer[i] = b;
            received.push(b);
            proof {
                assert(rx_data@.take(i + 1) =~= rx_data@.take(i as int).push(
                    rx_data@[i as int],
                ));
            }
            i = i + 1;
        }

        // Clear every status bit this poll inspected or that reception can
        // have set (write one to clear); see [`rx_status_clear_updates`].
        let mut u: Vec<FieldWrite> = Vec::new();
        u.push(FieldWrite { first_bit: 8, last_bit: 8, value: 1 });
        u.push(FieldWrite { first_bit: 9, last_bit: 9, value: 1 });
        u.push(FieldWrite { first_bit: 10, last_bit: 10, value: 1 });
        u.push(FieldWrite { first_bit: 11, last_bit: 11, value: 1 });
        u.push(FieldWrite { first_bit: 12, last_bit: 12, value: 1 });
        u.push(FieldWrite { first_bit: 13, last_bit: 13, value: 1 });
        u.push(FieldWrite { first_bit: 14, last_bit: 14, value: 1 });
        u.push(FieldWrite { first_bit: 15, last_bit: 15, value: 1 });
        u.push(FieldWrite { first_bit: 16, last_bit: 16, value: 1 });
        u.push(FieldWrite { first_bit: 17, last_bit: 17, value: 1 });
        u.push(FieldWrite { first_bit: 18, last_bit: 18, value: 1 });
        u.push(FieldWrite { first_bit: 20, last_bit: 20, value: 1 });
        u.push(FieldWrite { first_bit: 21, last_bit: 21, value: 1 });
        u.push(FieldWrite { first_bit: 26, last_bit: 26, value: 1 });
        u.push(FieldWrite { first_bit: 32, last_bit: 32, value: 1 });
        u.push(FieldWrite { first_bit: 33, last_bit: 33, value: 1 });
        proof {
            assert(u@ =~= rx_status_clear_updates());
        }
        match self.ll.write(descriptor(Reg::SysStatus), &u) {
            Ok(()) => (),
            Err(e) => {
                return Err(WaitError::Other(Error::Spi(e)));
            },
        }
        proof {
            ll::lemma_log_extends_push(l4, self.log().last());
            ll::lemma_log_extends_trans(self.log(), l4, pre);
            ll::lemma_log_extends_index(self.log(), l4, pre.len() as int);
            ll::lemma_log_extends_index(self.log(), l4, pre.len() as int + 1);
            ll::lemma_log_extends_index(self.log(), l4, pre.len() as int + 2);
            ll::lemma_log_extends_index(self.log(), l4, pre.len() as int + 3);
            assert(received@ == rx_data@.take(len as int));
        }

        let frame = match frame_codec.decode_frame(&received) {
            Ok(f) => f,
            Err(e) => {
                return Err(WaitError::Other(Error::Frame(e)));
            },
        };

        Ok(Message { rx_time, frame })
    }

    /// Selects for the interrupt line exactly the events
    /// [`DW1000::wait_reception`] checks: frame ready, the seven terminal
    /// error flags, and timestamp valid.
    ///
    /// Overwrites any interrupt selection that was previously made.
    pub fn enable_interrupts_reception(&mut self) -> (r: Result<(), Error>)
        ensures
            final(self).seq_value() == old(self).seq_value(),
            r is Ok ==> final(self).log() == old(self).log().push(
                write_entry(
                    spec_descriptor(Reg::SysMask),
                    apply_writes(ll::zero_seq(4), rx_mask_updates()),
                ),
            ),
    {
        proof {
            lemma2_to64();
        }
        let mut u: Vec<FieldWrite> = Vec::new();
        u.push(FieldWrite { first_bit: 13, last_bit: 13, value: 1 });
        u.push(FieldWrite { first_bit: 15, last_bit: 15, value: 1 });
        u.push(FieldWrite { first_bit: 12, last_bit: 12, value: 1 });
        u.push(FieldWrite { first_bit: 16, last_bit: 16, value: 1 });
        u.push(FieldWrite { first_bit: 17, last_bit: 17, value: 1 });
        u.push(FieldWrite { first_bit: 20, last_bit: 20, value: 1 });
        u.push(FieldWrite { first_bit: 21, last_bit: 21, value: 1 });
        u.push(FieldWrite { first_bit: 26, last_bit: 26, value: 1 });
        u.push(FieldWrite { first_bit: 10, last_bit: 10, value: 1 });
        proof {
            assert(u@ =~= rx_mask_updates());
        }
        self.ll.write(descriptor(Reg::SysMask), &u)?;
        Ok(())
    }
}

} // verus!
