//! Register-level interface: whole-register transactions over a transport.
//!
//! [`DW1000`] here is the low-level handle. It owns the [`Transport`] port
//! and performs one bus transaction per call: [`DW1000::read`] fetches a
//! register's payload, [`DW1000::write`] sends a zero-initialized payload
//! with chosen fields set, and [`DW1000::modify`] reads, merges field
//! updates into what came back, and writes the result.

use vstd::prelude::*;
use vstd::arithmetic::power2::pow2;
use crate::addressing::{build_header, spec_header_bytes};
use crate::codec::{bit_of, encode, get_field, set_field, span_wf};
use crate::regs::Register;

verus! {

/// An opaque bus failure, passed through unchanged from the transport.
#[derive(Clone, Copy, Debug, PartialEq, Eq, Structural)]
pub struct TransportError;

/// One successful bus exchange, as ghost history: the bytes that went out
/// and the payload that came back (empty for a pure write).
pub struct Exchange {
    /// The bytes sent: the header, followed by the payload for a write.
    pub sent: Seq<u8>,
    /// The payload received; empty for a pure write.
    pub received: Seq<u8>,
}

/// The serial-bus port. The application supplies an implementation that
/// performs each call as one exclusive, chip-select-bracketed bus operation.
///
/// Two ghost members carry the port's specification and exist only for the
/// verifier; implementations outside it keep the defaults and cannot
/// exhibit the clauses below, so every claim proved about the driver's bus
/// traffic and about poll-loop termination rests on this trait's contract,
/// exactly as the driver's behaviour rests on the bus itself.
///
/// - `fuel` is a well-founded budget standing for the chip's documented
///   guarantee that it always responds: every successful exchange consumes
///   some of it, which is what lets the driver's busy-poll loops — unbounded
///   by design — be stated as terminating.
/// - `log` is the history of successful exchanges; each exchange appends
///   what it sent and what it received.
pub trait Transport {
    /// The ghost budget for further bus exchanges; see the trait
    /// documentation.
    open spec fn fuel(&self) -> nat {
        0
    }

    /// The ghost history of successful exchanges; see the trait
    /// documentation.
    open spec fn log(&self) -> Seq<Exchange> {
        Seq::empty()
    }

    /// Sends `header`, then reads back a payload of exactly `len` bytes,
    /// as one chip-select-bracketed exchange.
    fn read_exchange(&mut self, header: &Vec<u8>, len: usize) -> (r: Result<
        Vec<u8>,
        TransportError,
    >)
        ensures
            r is Ok ==> r->Ok_0@.len() == len as int,
            r is Ok ==> final(self).fuel() < old(self).fuel(),
            r is Ok ==> final(self).log() == old(self).log().push(
                (Exchange { sent: header@, received: r->Ok_0@ }),
            ),
    ;

    /// Sends `bytes` (header followed by payload) as one chip-select-
    /// bracketed exchange.
    fn write_exchange(&mut self, bytes: &Vec<u8>) -> (r: Result<(), TransportError>)
        ensures
            r is Ok ==> final(self).fuel() < old(self).fuel(),
            r is Ok ==> final(self).log() == old(self).log().push(
                (Exchange { sent: bytes@, received: Seq::empty() }),
            ),
    ;
}

/// A payload of `len` zero bytes, as a value.
pub open spec fn zero_seq(len: nat) -> Seq<u8> {
    Seq::new(len, |i: int| 0u8)
}

/// The bytes a read of `reg` puts on the bus.
pub open spec fn spec_read_request(reg: Register) -> Seq<u8> {
    spec_header_bytes(reg.id, reg.sub_id, false)
}

/// The bytes a write of `reg` with the given payload puts on the bus.
pub open spec fn spec_write_request(reg: Register, payload: Seq<u8>) -> Seq<u8> {
    spec_header_bytes(reg.id, reg.sub_id, true) + payload
}

/// The log entry of a write of `reg` with the given payload.
pub open spec fn write_entry(reg: Register, payload: Seq<u8>) -> Exchange {
    Exchange { sent: spec_write_request(reg, payload), received: Seq::empty() }
}

/// Whether a log entry is a read of `reg`: its request is the read-flagged
/// header and what came back is one whole payload of `reg`.
pub open spec fn is_read_of(e: Exchange, reg: Register) -> bool {
    e.sent == spec_read_request(reg) && e.received.len() == reg.len
}

/// Whether entries `i` and `i + 1` of the log are one read-merge-write of
/// `reg`: a read, then a write of what came back with `updates` applied.
pub open spec fn is_modify_of(
    log: Seq<Exchange>,
    i: int,
    reg: Register,
    updates: Seq<FieldWrite>,
) -> bool {
    &&& 0 <= i
    &&& i + 1 < log.len()
    &&& is_read_of(log[i], reg)
    &&& log[i + 1] == write_entry(reg, apply_writes(log[i].received, updates))
}

/// `post` is `pre` with zero or more entries appended.
pub open spec fn log_extends(post: Seq<Exchange>, pre: Seq<Exchange>) -> bool {
    pre.len() <= post.len() && post.take(pre.len() as int) == pre
}

/// An extension keeps every entry of the shorter log at its index.
pub proof fn lemma_log_extends_index(post: Seq<Exchange>, pre: Seq<Exchange>, i: int)
    requires
        log_extends(post, pre),
        0 <= i < pre.len(),
    ensures
        post[i] == pre[i],
{
    assert(post.take(pre.len() as int)[i] == post[i]);
}

/// Appending one entry is an extension.
pub proof fn lemma_log_extends_push(s: Seq<Exchange>, e: Exchange)
    ensures
        log_extends(s.push(e), s),
{
    assert(s.push(e).take(s.len() as int) =~= s);
}

/// Extension is transitive.
pub proof fn lemma_log_extends_trans(a: Seq<Exchange>, b: Seq<Exchange>, c: Seq<Exchange>)
    requires
        log_extends(a, b),
        log_extends(b, c),
    ensures
        log_extends(a, c),
{
    assert forall|i: int| 0 <= i < c.len() implies a.take(c.len() as int)[i] == c[i] by {
        lemma_log_extends_index(a, b, i);
        lemma_log_extends_index(b, c, i);
    }
    assert(a.take(c.len() as int) =~= c);
}

/// Applying a single field write is one `set_field`.
pub proof fn lemma_apply_one(buf: Seq<u8>, w: FieldWrite)
    ensures
        apply_writes(buf, seq![w]) == set_field(
            buf,
            w.first_bit as int,
            w.last_bit as int,
            w.value,
        ),
{
    assert(seq![w].drop_last() =~= Seq::<FieldWrite>::empty());
    assert(apply_writes(buf, Seq::<FieldWrite>::empty()) == buf);
    assert(seq![w].last() == w);
}

/// Applying two field writes is two nested `set_field`s, first one first.
pub proof fn lemma_apply_two(buf: Seq<u8>, w1: FieldWrite, w2: FieldWrite)
    ensures
        apply_writes(buf, seq![w1, w2]) == set_field(
            set_field(buf, w1.first_bit as int, w1.last_bit as int, w1.value),
            w2.first_bit as int,
            w2.last_bit as int,
            w2.value,
        ),
{
    assert(seq![w1, w2].drop_last() =~= seq![w1]);
    assert(seq![w1, w2].last() == w2);
    lemma_apply_one(buf, w1);
}

/// One field update inside a register payload: the bit span to write and the
/// value to put there.
#[derive(Clone, Copy, Debug, PartialEq, Eq, Structural)]
pub struct FieldWrite {
    /// The first (lowest) bit of the span, counted from bit 0 of byte 0.
    pub first_bit: usize,
    /// The last bit of the span, inclusive.
    pub last_bit: usize,
    /// The value to write; it must fit in the span.
    pub value: u64,
}

impl FieldWrite {
    /// The update is meaningful for a payload of `len` bytes.
    pub open spec fn wf(self, len: int) -> bool {
        span_wf(self.first_bit as int, self.last_bit as int, len) && self.value < pow2(
            (self.last_bit + 1 - self.first_bit) as nat,
        )
    }
}

/// The payload after each field write in `ws` is applied in order.
pub open spec fn apply_writes(buf: Seq<u8>, ws: Seq<FieldWrite>) -> Seq<u8>
    decreases ws.len(),
{
    if ws.len() == 0 {
        buf
    } else {
        set_field(
            apply_writes(buf, ws.drop_last()),
            ws.last().first_bit as int,
            ws.last().last_bit as int,
            ws.last().value,
        )
    }
}

/// Applying field writes never changes the payload's length.
pub proof fn lemma_apply_writes_len(buf: Seq<u8>, ws: Seq<FieldWrite>)
    ensures
        apply_writes(buf, ws).len() == buf.len(),
    decreases ws.len(),
{
    if ws.len() > 0 {
        lemma_apply_writes_len(buf, ws.drop_last());
    }
}

/// A bit that no field write covers is preserved by the whole batch: this
/// is what lets `modify` leave unnamed fields at their prior values.
pub proof fn lemma_apply_writes_untouched(buf: Seq<u8>, ws: Seq<FieldWrite>, i: int)
    requires
        0 <= i < buf.len() * 8,
        forall|j: int|
            0 <= j < ws.len() ==> !((#[trigger] ws[j]).first_bit <= i <= ws[j].last_bit),
    ensures
        bit_of(apply_writes(buf, ws), i) == bit_of(buf, i),
    decreases ws.len(),
{
    if ws.len() > 0 {
        let head = ws.drop_last();
        assert(forall|j: int| 0 <= j < head.len() ==> head[j] == ws[j]);
        lemma_apply_writes_untouched(buf, head, i);
        lemma_apply_writes_len(buf, head);
        crate::codec::lemma_set_field_bit(
            apply_writes(buf, head),
            ws.last().first_bit as int,
            ws.last().last_bit as int,
            ws.last().value,
            i,
        );
        assert(ws.last() == ws[ws.len() - 1]);
    }
}

/// The field that the batch's final write names reads back as the value it
/// wrote.
pub proof fn lemma_apply_writes_reads_back(buf: Seq<u8>, ws: Seq<FieldWrite>)
    requires
        ws.len() > 0,
        ws.last().wf(buf.len() as int),
    ensures
        get_field(
            apply_writes(buf, ws),
            ws.last().first_bit as int,
            ws.last().last_bit as int,
        ) == ws.last().value,
{
    let head = ws.drop_last();
    lemma_apply_writes_len(buf, head);
    crate::codec::lemma_field_round_trip(
        apply_writes(buf, head),
        ws.last().first_bit as int,
        ws.last().last_bit as int,
        ws.last().value,
    );
}

/// Applies each field write to the payload, in order.
pub fn apply_field_writes(buf: &mut Vec<u8>, ws: &Vec<FieldWrite>)
    requires
        forall|i: int| 0 <= i < ws@.len() ==> #[trigger] ws@[i].wf(old(buf)@.len() as int),
    ensures
        final(buf)@ == apply_writes(old(buf)@, ws@),
{
    let mut i: usize = 0;
    while i < ws.len()
        invariant
            i <= ws@.len(),
            forall|j: int| 0 <= j < ws@.len() ==> #[trigger] ws@[j].wf(old(buf)@.len() as int),
            buf@.len() == old(buf)@.len(),
            buf@ == apply_writes(old(buf)@, ws@.take(i as int)),
        decreases ws@.len() - i,
    {
        let w = ws[i];
        proof {
            assert(ws@[i as int].wf(old(buf)@.len() as int));
        }
        encode(buf, w.first_bit, w.last_bit, w.value);
        proof {
            assert(ws@.take(i + 1).drop_last() =~= ws@.take(i as int));
            assert(ws@.take(i + 1).last() == ws@[i as int]);
        }
        i = i + 1;
    }
    proof {
        assert(ws@.take(ws@.len() as int) =~= ws@);
    }
}

/// A payload of `len` zero bytes.
pub fn zero_payload(len: usize) -> (r: Vec<u8>)
    ensures
        r@.len() == len as int,
        forall|i: int| 0 <= i < len ==> r@[i] == 0u8,
{
    let mut r: Vec<u8> = Vec::new();
    let mut i: usize = 0;
    while i < len
        invariant
            i <= len,
            r@.len() == i as int,
            forall|j: int| 0 <= j < i ==> r@[j] == 0u8,
        decreases len - i,
    {
        r.push(0u8);
        i = i + 1;
    }
    r
}

/// Register-level handle to the chip: owns the transport and performs one
/// bus transaction per call.
pub struct DW1000<T> {
    transport: T,
}

impl<T: Transport> DW1000<T> {
    /// The transport's remaining ghost budget; see [`Transport::fuel`].
    pub closed spec fn fuel(&self) -> nat {
        self.transport.fuel()
    }

    /// The transport's ghost exchange history; see [`Transport::log`].
    pub closed spec fn log(&self) -> Seq<Exchange> {
        self.transport.log()
    }

    /// Creates a register-level handle over the given transport.
    pub fn new(transport: T) -> (d: DW1000<T>)
        ensures
            d.fuel() == transport.fuel(),
            d.log() == transport.log(),
    {
        DW1000 { transport }
    }

    /// Reads a register: sends its read-flagged header and receives its
    /// whole payload, as one transaction.
    pub fn read(&mut self, reg: Register) -> (r: Result<Vec<u8>, TransportError>)
        requires
            reg.wf(),
            reg.spec_readable(),
        ensures
            r is Ok ==> r->Ok_0@.len() == reg.len as int,
            r is Ok ==> final(self).fuel() < old(self).fuel(),
            r is Ok ==> final(self).log() == old(self).log().push(
                (Exchange { sent: spec_read_request(reg), received: r->Ok_0@ }),
            ),
    {
        let header = build_header(reg.id, reg.sub_id, false);
        self.transport.read_exchange(&header, reg.len)
    }

    /// Sends a write-flagged header followed by the given payload, as one
    /// transaction.
    pub fn write_raw(&mut self, reg: Register, payload: &Vec<u8>) -> (r: Result<
        (),
        TransportError,
    >)
        requires
            reg.wf(),
            reg.spec_writable(),
            payload@.len() == reg.len as int,
        ensures
            r is Ok ==> final(self).fuel() < old(self).fuel(),
            r is Ok ==> final(self).log() == old(self).log().push(write_entry(reg, payload@)),
    {
        let mut bytes = build_header(reg.id, reg.sub_id, true);
        let mut i: usize = 0;
        while i < payload.len()
            invariant
                i <= payload@.len(),
                bytes@ == spec_header_bytes(reg.id, reg.sub_id, true) + payload@.take(i as int),
            decreases payload@.len() - i,
        {
            bytes.push(payload[i]);
            proof {
                assert(payload@.take(i + 1) =~= payload@.take(i as int).push(
                    payload@[i as int],
                ));
                assert(bytes@ =~= spec_header_bytes(reg.id, reg.sub_id, true) + payload@.take(
                    i + 1,
                ));
            }
            i = i + 1;
        }
        proof {
            assert(payload@.take(payload@.len() as int) =~= payload@);
        }
        self.transport.write_exchange(&bytes)
    }

    /// Writes a register: a zero-initialized payload with exactly the given
    /// fields set, sent as one transaction.
    pub fn write(&mut self, reg: Register, updates: &Vec<FieldWrite>) -> (r: Result<
        (),
        TransportError,
    >)
        requires
            reg.wf(),
            reg.spec_writable(),
            forall|i: int| 0 <= i < updates@.len() ==> #[trigger] updates@[i].wf(reg.len as int),
        ensures
            r is Ok ==> final(self).fuel() < old(self).fuel(),
            r is Ok ==> final(self).log() == old(self).log().push(
                write_entry(reg, apply_writes(zero_seq(reg.len as nat), updates@)),
            ),
    {
        let mut payload = zero_payload(reg.len);
        let ghost before = payload@;
        proof {
            assert(before =~= zero_seq(reg.len as nat));
        }
        apply_field_writes(&mut payload, updates);
        proof {
            lemma_apply_writes_len(before, updates@);
        }
        self.write_raw(reg, &payload)
    }

    /// Modifies a register: reads it, applies the field updates to the
    /// payload that came back so unnamed fields keep their prior values, and
    /// writes the result. Read and write are two transactions; hardware may
    /// change the register in between, a race the chip's documentation
    /// accepts.
    pub fn modify(&mut self, reg: Register, updates: &Vec<FieldWrite>) -> (r: Result<
        (),
        TransportError,
    >)
        requires
            reg.wf(),
            reg.spec_readable(),
            reg.spec_writable(),
            forall|i: int| 0 <= i < updates@.len() ==> #[trigger] updates@[i].wf(reg.len as int),
        ensures
            r is Ok ==> final(self).fuel() < old(self).fuel(),
            r is Ok ==> ({
                let n = old(self).log().len() as int;
                let post = final(self).log();
                &&& post.len() == n + 2
                &&& log_extends(post, old(self).log())
                &&& is_read_of(post[n], reg)
                &&& post[n + 1] == write_entry(reg, apply_writes(post[n].received, updates@))
            }),
    {
        let mut payload = match self.read(reg) {
            Ok(p) => p,
            Err(e) => {
                return Err(e);
            },
        };
        let ghost mid = self.log();
        let ghost before = payload@;
        apply_field_writes(&mut payload, updates);
        proof {
            lemma_apply_writes_len(before, updates@);
        }
        let r = self.write_raw(reg, &payload);
        proof {
            if r is Ok {
                lemma_log_extends_push(old(self).log(), mid.last());
                lemma_log_extends_push(mid, self.log().last());
                lemma_log_extends_trans(self.log(), mid, old(self).log());
            }
        }
        r
    }
}

} // verus!
