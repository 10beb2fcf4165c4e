//! Driver scenarios against a simulated chip: a register-file transport and
//! a flat frame codec stand in for the bus and the external codec.

use std::cell::RefCell;
use std::collections::HashMap;
use std::rc::Rc;

use dw1000::frame::{Address, Frame, FrameCodec, FrameDecodeError, FrameHeader, FrameType, FrameVersion};
use dw1000::hl::{tx_decision, tx_warning_decision, Error, Message, Ready, Uninitialized, WaitError, DW1000};
use dw1000::ll::{Transport, TransportError};
use dw1000::time::TIME_MAX;

/// What one bus transaction looked like.
#[derive(Clone, Debug, PartialEq)]
struct LogEntry {
    write: bool,
    id: u8,
    sub_id: u16,
    payload: Vec<u8>,
}

/// The simulated chip: a register file with the handshake conventions the
/// driver relies on (self-clearing strobe bits, write-one-to-clear status,
/// OTP memory addressed through the OTP address register).
struct SimState {
    regs: HashMap<(u8, u16), Vec<u8>>,
    otp: HashMap<u16, u32>,
    otp_addr: u16,
    log: Vec<LogEntry>,
    fail_all: bool,
}

#[derive(Clone)]
struct Sim(Rc<RefCell<SimState>>);

impl Sim {
    fn new() -> Sim {
        Sim(Rc::new(RefCell::new(SimState {
            regs: HashMap::new(),
            otp: HashMap::new(),
            otp_addr: 0,
            log: Vec::new(),
            fail_all: false,
        })))
    }

    fn set_reg(&self, id: u8, sub_id: u16, bytes: &[u8]) {
        self.0.borrow_mut().regs.insert((id, sub_id), bytes.to_vec());
    }

    fn set_status_bits(&self, bits: &[usize]) {
        let mut v = vec![0u8; 5];
        for &b in bits {
            v[b / 8] |= 1 << (b % 8);
        }
        self.set_reg(0x0F, 0, &v);
    }

    fn reg(&self, id: u8, sub_id: u16) -> Vec<u8> {
        self.0.borrow().regs.get(&(id, sub_id)).cloned().unwrap_or_default()
    }

    fn set_otp(&self, addr: u16, word: u32) {
        self.0.borrow_mut().otp.insert(addr, word);
    }

    fn set_fail(&self, fail: bool) {
        self.0.borrow_mut().fail_all = fail;
    }

    fn writes_to(&self, id: u8, sub_id: u16) -> Vec<LogEntry> {
        self.0
            .borrow()
            .log
            .iter()
            .filter(|e| e.write && e.id == id && e.sub_id == sub_id)
            .cloned()
            .collect()
    }

    fn reads_of(&self, id: u8, sub_id: u16) -> usize {
        self.0.borrow().log.iter().filter(|e| !e.write && e.id == id && e.sub_id == sub_id).count()
    }

    fn clear_log(&self) {
        self.0.borrow_mut().log.clear();
    }
}

fn parse_header(bytes: &[u8]) -> (u8, u16, bool, usize) {
    let b0 = bytes[0];
    let is_write = b0 & 0x80 != 0;
    let id = b0 & 0x3F;
    if b0 & 0x40 == 0 {
        return (id, 0, is_write, 1);
    }
    let b1 = bytes[1];
    let mut sub_id = (b1 & 0x7F) as u16;
    if b1 & 0x80 == 0 {
        return (id, sub_id, is_write, 2);
    }
    sub_id |= (bytes[2] as u16) << 7;
    (id, sub_id, is_write, 3)
}

impl Transport for Sim {
    fn read_exchange(&mut self, header: &Vec<u8>, len: usize) -> Result<Vec<u8>, TransportError> {
        let mut state = self.0.borrow_mut();
        if state.fail_all {
            return Err(TransportError);
        }
        let (id, sub_id, is_write, _) = parse_header(header);
        assert!(!is_write, "read transaction carried a write-flagged header");
        let mut payload = if (id, sub_id) == (0x2D, 0x000A) {
            // OTP read data: the word at the last written OTP address.
            let word = *state.otp.get(&state.otp_addr).unwrap_or(&0);
            word.to_le_bytes().to_vec()
        } else {
            state.regs.get(&(id, sub_id)).cloned().unwrap_or_default()
        };
        payload.resize(len, 0);
        state.log.push(LogEntry { write: false, id, sub_id, payload: payload.clone() });
        Ok(payload)
    }

    fn write_exchange(&mut self, bytes: &Vec<u8>) -> Result<(), TransportError> {
        let mut state = self.0.borrow_mut();
        if state.fail_all {
            return Err(TransportError);
        }
        let (id, sub_id, is_write, header_len) = parse_header(bytes);
        assert!(is_write, "write transaction carried a read-flagged header");
        let payload = bytes[header_len..].to_vec();
        state.log.push(LogEntry { write: true, id, sub_id, payload: payload.clone() });
        match (id, sub_id) {
            // System status: write one to clear.
            (0x0F, 0) => {
                let mut cur = state.regs.get(&(0x0F, 0)).cloned().unwrap_or_default();
                cur.resize(payload.len().max(5), 0);
                for (i, b) in payload.iter().enumerate() {
                    cur[i] &= !b;
                }
                state.regs.insert((id, sub_id), cur);
            },
            // Event counter control and OTP control: strobe bits that the
            // chip clears itself as soon as it has acted.
            (0x2F, 0) | (0x2D, 6) => {
                state.regs.insert((id, sub_id), vec![0; payload.len()]);
            },
            // OTP address: remembered for the next OTP data read.
            (0x2D, 4) => {
                let mut v = payload.clone();
                v.resize(2, 0);
                state.otp_addr = u16::from_le_bytes([v[0], v[1]]) & 0x7FF;
                state.regs.insert((id, sub_id), payload);
            },
            // System control: the transceiver-off strobe clears itself.
            (0x0D, 0) => {
                let mut p = payload.clone();
                if !p.is_empty() {
                    p[0] &= !0x40;
                }
                state.regs.insert((id, sub_id), p);
            },
            _ => {
                state.regs.insert((id, sub_id), payload);
            },
        }
        Ok(())
    }
}

/// A flat frame layout for the tests: sequence number, frame class tag,
/// destination, source, payload; received bytes carry two trailing checksum
/// bytes, which decoding strips.
struct SimCodec;

fn push_address(out: &mut Vec<u8>, address: &Address) {
    match address {
        Address::Short(pan_id, addr) => {
            out.push(0);
            out.extend_from_slice(&pan_id.to_le_bytes());
            out.extend_from_slice(&addr.to_le_bytes());
        },
        Address::Extended(pan_id, addr) => {
            out.push(1);
            out.extend_from_slice(&pan_id.to_le_bytes());
            out.extend_from_slice(&addr.to_le_bytes());
        },
    }
}

fn take_address(bytes: &[u8], at: &mut usize) -> Option<Address> {
    let tag = *bytes.get(*at)?;
    *at += 1;
    let pan_id = u16::from_le_bytes([*bytes.get(*at)?, *bytes.get(*at + 1)?]);
    *at += 2;
    match tag {
        0 => {
            let addr = u16::from_le_bytes([*bytes.get(*at)?, *bytes.get(*at + 1)?]);
            *at += 2;
            Some(Address::Short(pan_id, addr))
        },
        1 => {
            let mut w = [0u8; 8];
            for i in 0..8 {
                w[i] = *bytes.get(*at + i)?;
            }
            *at += 8;
            Some(Address::Extended(pan_id, u64::from_le_bytes(w)))
        },
        _ => None,
    }
}

fn frame_type_tag(t: FrameType) -> u8 {
    match t {
        FrameType::Beacon => 0,
        FrameType::Data => 1,
        FrameType::Acknowledgement => 2,
        FrameType::MacCommand => 3,
    }
}

impl FrameCodec for SimCodec {
    fn encode_frame(&self, frame: &Frame) -> Vec<u8> {
        let mut out = vec![frame.header.seq, frame_type_tag(frame.header.frame_type)];
        push_address(&mut out, &frame.header.destination);
        push_address(&mut out, &frame.header.source);
        out.extend_from_slice(&frame.payload);
        out.truncate(125);
        out
    }

    fn decode_frame(&self, bytes: &Vec<u8>) -> Result<Frame, FrameDecodeError> {
        if bytes.len() < 4 {
            return Err(FrameDecodeError);
        }
        let body = &bytes[..bytes.len() - 2];
        let seq = body[0];
        let frame_type = match body.get(1) {
            Some(0) => FrameType::Beacon,
            Some(1) => FrameType::Data,
            Some(2) => FrameType::Acknowledgement,
            Some(3) => FrameType::MacCommand,
            _ => return Err(FrameDecodeError),
        };
        let mut at = 2usize;
        let destination = take_address(body, &mut at).ok_or(FrameDecodeError)?;
        let source = take_address(body, &mut at).ok_or(FrameDecodeError)?;
        Ok(Frame {
            header: FrameHeader {
                frame_type,
                version: FrameVersion::Ieee802154_2006,
                security: false,
                frame_pending: false,
                ack_request: false,
                pan_id_compress: false,
                destination,
                source,
                seq,
            },
            payload: body[at..].to_vec(),
        })
    }
}

fn ready_device(sim: &Sim) -> DW1000<Sim, Ready> {
    let device: DW1000<Sim, Uninitialized> = DW1000::new(sim.clone());
    device.init().expect("initialization against the simulator failed")
}

#[test]
fn init_writes_documented_tuning_values() {
    let sim = Sim::new();
    let _device = ready_device(&sim);
    // Analog gain tuning, little-endian on the bus.
    assert_eq!(sim.writes_to(0x23, 0x04), vec![LogEntry {
        write: true,
        id: 0x23,
        sub_id: 0x04,
        payload: vec![0x70, 0x88],
    }]);
    // Digital receiver tuning.
    assert_eq!(sim.writes_to(0x27, 0x08)[0].payload, vec![0x2D, 0x00, 0x1A, 0x31]);
    // Noise threshold multiplier, merged into an otherwise zero register.
    assert_eq!(sim.writes_to(0x2E, 0x0806)[0].payload, vec![0x0D]);
    // Transmit power.
    assert_eq!(sim.writes_to(0x1E, 0)[0].payload, vec![0x48, 0x28, 0x08, 0x0E]);
}

#[test]
fn init_with_zero_calibration_word_skips_second_read_and_write() {
    let sim = Sim::new();
    // The word at the first calibration address is zero: the second read and
    // the tuning-register write must never be issued.
    let _device = ready_device(&sim);
    assert_eq!(sim.writes_to(0x2D, 0x04).len(), 1, "only one OTP address write expected");
    assert_eq!(sim.writes_to(0x2D, 0x04)[0].payload, vec![0x04, 0x00]);
    assert_eq!(sim.reads_of(0x2D, 0x0A), 1, "only one OTP data read expected");
    assert_eq!(sim.writes_to(0x2D, 0x30).len(), 0, "no tuning-register write expected");
}

#[test]
fn init_with_nonzero_calibration_word_combines_both_words() {
    let sim = Sim::new();
    sim.set_otp(0x004, 0x1234_5678);
    sim.set_otp(0x005, 0xAB);
    let _device = ready_device(&sim);
    assert_eq!(sim.writes_to(0x2D, 0x04).len(), 2);
    assert_eq!(sim.writes_to(0x2D, 0x04)[1].payload, vec![0x05, 0x00]);
    assert_eq!(sim.reads_of(0x2D, 0x0A), 2);
    // The low 40 bits of (low | high << 32), little-endian.
    assert_eq!(sim.writes_to(0x2D, 0x30), vec![LogEntry {
        write: true,
        id: 0x2D,
        sub_id: 0x30,
        payload: vec![0x78, 0x56, 0x34, 0x12, 0xAB],
    }]);
}

#[test]
fn init_propagates_bus_errors() {
    let sim = Sim::new();
    sim.set_fail(true);
    let device: DW1000<Sim, Uninitialized> = DW1000::new(sim.clone());
    assert_eq!(device.init().err(), Some(Error::Spi(TransportError)));
}

#[test]
fn send_programs_buffer_length_and_start() {
    let sim = Sim::new();
    sim.set_reg(0x03, 0, &[0x08, 0x07, 0x06, 0x04]); // own address
    let mut device = ready_device(&sim);
    sim.clear_log();

    device.send(&SimCodec, &[0xDE, 0xAD], Address::Short(0x0102, 0x0304), None).unwrap();

    let expected = SimCodec.encode_frame(&Frame {
        header: FrameHeader {
            frame_type: FrameType::Data,
            version: FrameVersion::Ieee802154_2006,
            security: false,
            frame_pending: false,
            ack_request: false,
            pan_id_compress: false,
            destination: Address::Short(0x0102, 0x0304),
            source: Address::Short(0x0406, 0x0708),
            seq: 0,
        },
        payload: vec![0xDE, 0xAD],
    });

    // The transmit buffer carries the encoded frame at its front.
    let tx_writes = sim.writes_to(0x09, 0);
    assert_eq!(tx_writes.len(), 1);
    assert_eq!(&tx_writes[0].payload[..expected.len()], &expected[..]);
    assert!(tx_writes[0].payload[expected.len()..].iter().all(|&b| b == 0));

    // The programmed frame length is the encoded length plus the two
    // checksum bytes the hardware appends.
    let fctrl = sim.reg(0x08, 0);
    assert_eq!((fctrl[0] & 0x7F) as usize, expected.len() + 2);

    // The start command: transmit start set, delayed send not set.
    let ctrl = sim.writes_to(0x0D, 0);
    let start = &ctrl[ctrl.len() - 1];
    assert_eq!(start.payload[0] & 0x02, 0x02);
    assert_eq!(start.payload[0] & 0x04, 0x00);

    // No scheduled instant was given, so the delay register is untouched.
    assert_eq!(sim.writes_to(0x0A, 0).len(), 0);
}

#[test]
fn send_with_scheduled_instant_programs_delay() {
    let sim = Sim::new();
    let mut device = ready_device(&sim);
    sim.clear_log();

    let at = dw1000::time::Instant::new(0x12_3456_7890).unwrap();
    device.send(&SimCodec, &[], Address::Short(1, 2), Some(at)).unwrap();

    assert_eq!(sim.writes_to(0x0A, 0)[0].payload, vec![0x90, 0x78, 0x56, 0x34, 0x12]);
    let ctrl = sim.writes_to(0x0D, 0);
    let start = &ctrl[ctrl.len() - 1];
    assert_eq!(start.payload[0] & 0x02, 0x02, "transmit start expected");
    assert_eq!(start.payload[0] & 0x04, 0x04, "delayed send expected");
}

#[test]
fn send_steps_sequence_number_on_every_send() {
    let sim = Sim::new();
    let mut device = ready_device(&sim);
    device.send(&SimCodec, &[], Address::Short(1, 2), None).unwrap();
    device.send(&SimCodec, &[], Address::Short(1, 2), None).unwrap();
    let tx_writes = sim.writes_to(0x09, 0);
    assert_eq!(tx_writes[0].payload[0], 0, "first frame carries sequence number 0");
    assert_eq!(tx_writes[1].payload[0], 1, "second frame carries sequence number 1");
}

#[test]
fn wait_transmission_polls_until_frame_sent_then_succeeds_once() {
    let sim = Sim::new();
    let mut device = ready_device(&sim);
    device.send(&SimCodec, &[1, 2, 3], Address::Short(1, 2), None).unwrap();

    // The frame-sent flag is still clear: not ready, as often as asked.
    assert_eq!(device.wait_transmission(), Err(WaitError::WouldBlock));
    assert_eq!(device.wait_transmission(), Err(WaitError::WouldBlock));

    // The chip reports the frame sent, with the progress flags set.
    sim.set_status_bits(&[4, 5, 6, 7]);
    assert_eq!(device.wait_transmission(), Ok(()));

    // The four progress flags were cleared by the successful poll, so a
    // further poll is not-ready again: success is reported exactly once.
    assert_eq!(sim.reg(0x0F, 0), vec![0u8; 5]);
    assert_eq!(device.wait_transmission(), Err(WaitError::WouldBlock));
}

#[test]
fn tx_decision_orders_warnings_and_frame_sent() {
    let clear = vec![0u8; 5];
    let mut sent = vec![0u8; 5];
    sent[0] = 0x80; // frame-sent bit (7)

    // Warnings outrank everything, half-period first.
    assert_eq!(tx_warning_decision(3, 5), Some(Error::DelayedSendTooLate));
    assert_eq!(tx_warning_decision(0, 5), Some(Error::DelayedSendPowerUpWarning));
    assert_eq!(tx_warning_decision(0, 0), None);
    assert_eq!(tx_decision(1, 0, &sent), Err(WaitError::Other(Error::DelayedSendTooLate)));
    assert_eq!(
        tx_decision(0, 2, &sent),
        Err(WaitError::Other(Error::DelayedSendPowerUpWarning)),
    );
    // No warning: the frame-sent bit decides.
    assert_eq!(tx_decision(0, 0, &clear), Err(WaitError::WouldBlock));
    assert_eq!(tx_decision(0, 0, &sent), Ok(()));
}

#[test]
fn wait_transmission_reports_late_scheduled_send() {
    let sim = Sim::new();
    let mut device = ready_device(&sim);
    sim.set_reg(0x2F, 0x24, &[0x01, 0x00]);
    assert_eq!(device.wait_transmission(), Err(WaitError::Other(Error::DelayedSendTooLate)));
}

#[test]
fn wait_transmission_reports_power_up_warning() {
    let sim = Sim::new();
    let mut device = ready_device(&sim);
    sim.set_reg(0x2F, 0x26, &[0x02, 0x00]);
    assert_eq!(
        device.wait_transmission(),
        Err(WaitError::Other(Error::DelayedSendPowerUpWarning)),
    );
}

#[test]
fn receive_arms_receiver_with_frame_filtering() {
    let sim = Sim::new();
    let mut device = ready_device(&sim);
    sim.clear_log();
    device.receive().unwrap();

    // Frame filtering admits beacon, data, acknowledgement and command
    // frames.
    assert_eq!(sim.reg(0x04, 0)[0] & 0b0011_1101, 0b0011_1101);
    // The PLL-lock-detect tuning bit is set before the two dependent status
    // bits are cleared.
    assert_eq!(sim.reg(0x24, 0)[0] & 0x04, 0x04);
    // The receiver-enable bit went out with the last system-control write.
    let ctrl = sim.writes_to(0x0D, 0);
    assert_eq!(ctrl[ctrl.len() - 1].payload[1] & 0x01, 0x01);
    // The receiver soft-reset was strobed low, then released.
    let pmsc = sim.writes_to(0x36, 0);
    assert_eq!(pmsc[0].payload[3] & 0xF0, 0xE0);
    assert_eq!(pmsc[1].payload[3] & 0xF0, 0xF0);
}

#[test]
fn wait_reception_reports_fcs_error_before_not_ready() {
    let sim = Sim::new();
    let mut device = ready_device(&sim);
    device.receive().unwrap();
    // Checksum-error bit set, frame-ready bit clear: a terminal error, never
    // a not-ready report.
    sim.set_status_bits(&[15]);
    let mut buffer = vec![0u8; 127];
    assert_eq!(
        device.wait_reception(&SimCodec, &mut buffer),
        Err(WaitError::Other(Error::Fcs)),
    );
}

#[test]
fn wait_reception_error_priority_and_variants() {
    let cases: &[(usize, Error)] = &[
        (15, Error::Fcs),
        (12, Error::Phy),
        (16, Error::ReedSolomon),
        (17, Error::FrameWaitTimeout),
        (20, Error::Overrun),
        (21, Error::PreambleDetectionTimeout),
        (26, Error::SfdTimeout),
    ];
    for &(bit, expected) in cases {
        let sim = Sim::new();
        let mut device = ready_device(&sim);
        sim.set_status_bits(&[bit]);
        let mut buffer = vec![0u8; 127];
        assert_eq!(
            device.wait_reception(&SimCodec, &mut buffer),
            Err(WaitError::Other(expected)),
            "for status bit {bit}",
        );
    }
    // With several error bits set, the checksum error wins.
    let sim = Sim::new();
    let mut device = ready_device(&sim);
    sim.set_status_bits(&[12, 15, 26]);
    let mut buffer = vec![0u8; 127];
    assert_eq!(
        device.wait_reception(&SimCodec, &mut buffer),
        Err(WaitError::Other(Error::Fcs)),
    );
}

#[test]
fn wait_reception_ignores_spurious_flags() {
    let sim = Sim::new();
    let mut device = ready_device(&sim);
    // Leading-edge-detection error and preamble rejection fire spuriously
    // and are never surfaced: with only them set the poll is just not ready.
    sim.set_status_bits(&[18, 33]);
    let mut buffer = vec![0u8; 127];
    assert_eq!(device.wait_reception(&SimCodec, &mut buffer), Err(WaitError::WouldBlock));
}

#[test]
fn wait_reception_waits_for_timestamp_validity() {
    let sim = Sim::new();
    let mut device = ready_device(&sim);
    // Frame ready, but leading-edge detection not done: the timestamp is
    // not valid yet, so the poll reports not-ready.
    sim.set_status_bits(&[13]);
    let mut buffer = vec![0u8; 127];
    assert_eq!(device.wait_reception(&SimCodec, &mut buffer), Err(WaitError::WouldBlock));
}

#[test]
fn wait_reception_with_short_buffer_reports_required_length() {
    let sim = Sim::new();
    let mut device = ready_device(&sim);

    let sent = Frame {
        header: FrameHeader {
            frame_type: FrameType::Data,
            version: FrameVersion::Ieee802154_2006,
            security: false,
            frame_pending: false,
            ack_request: false,
            pan_id_compress: false,
            destination: Address::Short(1, 2),
            source: Address::Short(3, 4),
            seq: 7,
        },
        payload: vec![1, 2, 3, 4, 5, 6, 7, 8],
    };
    let mut over_the_air = SimCodec.encode_frame(&sent);
    over_the_air.extend_from_slice(&[0, 0]);
    let received_len = over_the_air.len();
    assert!(received_len > 10);

    sim.set_status_bits(&[13, 10]);
    sim.set_reg(0x15, 0, &[0x90, 0x78, 0x56, 0x34, 0x12]);
    sim.set_reg(0x10, 0, &[received_len as u8, 0, 0, 0]);
    sim.set_reg(0x11, 0, &over_the_air);

    let mut buffer = vec![0xEEu8; 10];
    assert_eq!(
        device.wait_reception(&SimCodec, &mut buffer),
        Err(WaitError::Other(Error::BufferTooSmall { required_len: received_len })),
    );
    // Nothing was copied, and no status bit was cleared, so nothing is
    // lost: a retry with a large enough buffer still delivers the frame.
    assert_eq!(buffer, vec![0xEEu8; 10]);
    let mut big = vec![0u8; 127];
    let message = device.wait_reception(&SimCodec, &mut big).unwrap();
    assert_eq!(message.frame, sent);
}

#[test]
fn wait_reception_returns_frame_and_timestamp() {
    let sim = Sim::new();
    let mut device = ready_device(&sim);

    let sent = Frame {
        header: FrameHeader {
            frame_type: FrameType::Data,
            version: FrameVersion::Ieee802154_2006,
            security: false,
            frame_pending: false,
            ack_request: false,
            pan_id_compress: false,
            destination: Address::Short(0x0102, 0x0304),
            source: Address::Extended(0x0102, 0x1122_3344_5566_7788),
            seq: 42,
        },
        payload: vec![9, 8, 7],
    };
    let mut over_the_air = SimCodec.encode_frame(&sent);
    over_the_air.extend_from_slice(&[0, 0]); // the hardware's checksum bytes
    let received_len = over_the_air.len();

    sim.set_status_bits(&[13, 10]);
    sim.set_reg(0x15, 0, &[0x90, 0x78, 0x56, 0x34, 0x12]);
    sim.set_reg(0x10, 0, &[received_len as u8, 0, 0, 0]);
    sim.set_reg(0x11, 0, &over_the_air);

    let mut buffer = vec![0u8; 127];
    let message: Message = device.wait_reception(&SimCodec, &mut buffer).unwrap();
    assert_eq!(message.rx_time.value(), 0x12_3456_7890);
    assert!(message.rx_time.value() <= TIME_MAX);
    assert_eq!(message.frame, sent);
    // The received bytes were copied to the front of the caller's buffer.
    assert_eq!(&buffer[..received_len], &over_the_air[..]);
    // The relevant status bits were cleared by the successful poll.
    assert_eq!(sim.reg(0x0F, 0), vec![0u8; 5]);
}

#[test]
fn wait_reception_reports_undecodable_frame() {
    let sim = Sim::new();
    let mut device = ready_device(&sim);
    sim.set_status_bits(&[13, 10]);
    sim.set_reg(0x15, 0, &[1, 0, 0, 0, 0]);
    sim.set_reg(0x10, 0, &[3, 0, 0, 0]); // too short for any frame
    sim.set_reg(0x11, 0, &[0xFF, 0xFF, 0xFF]);
    let mut buffer = vec![0u8; 127];
    assert_eq!(
        device.wait_reception(&SimCodec, &mut buffer),
        Err(WaitError::Other(Error::Frame(FrameDecodeError))),
    );
}

#[test]
fn modify_preserves_unnamed_fields() {
    let sim = Sim::new();
    let mut device = ready_device(&sim);
    // Unrelated configuration already sits in the register; arming the
    // receiver merges the filter bits in and must leave the rest alone.
    sim.set_reg(0x04, 0, &[0x00, 0xC0, 0x01, 0x40]);
    device.receive().unwrap();
    let cfg = sim.reg(0x04, 0);
    assert_eq!(cfg[0], 0x3D, "filter bits set");
    assert_eq!(cfg[1], 0xC0, "unrelated bits preserved");
    assert_eq!(cfg[2], 0x01);
    assert_eq!(cfg[3], 0x40);
}

#[test]
fn force_idle_strobes_transceiver_off() {
    let sim = Sim::new();
    let mut device = ready_device(&sim);
    sim.clear_log();
    device.force_idle().unwrap();
    let ctrl = sim.writes_to(0x0D, 0);
    assert_eq!(ctrl[0].payload, vec![0x40, 0, 0, 0]);
}

#[test]
fn transport_errors_surface_unchanged() {
    let sim = Sim::new();
    let mut device = ready_device(&sim);
    sim.set_fail(true);
    assert_eq!(device.force_idle(), Err(Error::Spi(TransportError)));
    let mut buffer = vec![0u8; 16];
    assert_eq!(
        device.wait_reception(&SimCodec, &mut buffer),
        Err(WaitError::Other(Error::Spi(TransportError))),
    );
    assert_eq!(device.wait_transmission(), Err(WaitError::Other(Error::Spi(TransportError))));
}

#[test]
fn addresses_round_trip_through_the_chip() {
    let sim = Sim::new();
    let mut device = ready_device(&sim);
    device.set_address(0xDEC0, 0x1234).unwrap();
    assert_eq!(sim.reg(0x03, 0), vec![0x34, 0x12, 0xC0, 0xDE]);
    assert_eq!(device.get_address().unwrap(), Address::Short(0xDEC0, 0x1234));
}

#[test]
fn antenna_delays_round_trip_through_the_chip() {
    let sim = Sim::new();
    let mut device = ready_device(&sim);
    device.set_antenna_delay(0x0102, 0x0304).unwrap();
    assert_eq!(sim.reg(0x2E, 0x1804), vec![0x02, 0x01]);
    assert_eq!(sim.reg(0x18, 0), vec![0x04, 0x03]);
    assert_eq!(device.get_tx_antenna_delay().unwrap().value(), 0x0304);
}

#[test]
fn sys_time_reads_forty_bit_counter() {
    let sim = Sim::new();
    let mut device = ready_device(&sim);
    sim.set_reg(0x06, 0, &[0xFF, 0xFF, 0xFF, 0xFF, 0xFF]);
    assert_eq!(device.sys_time().unwrap().value(), TIME_MAX);
}

#[test]
fn interrupt_masks_mirror_the_polled_bits() {
    let sim = Sim::new();
    let mut device = ready_device(&sim);

    device.enable_interrupts_transmission().unwrap();
    // Exactly the frame-sent bit.
    assert_eq!(sim.reg(0x0E, 0), vec![0x80, 0, 0, 0]);

    device.enable_interrupts_reception().unwrap();
    // Exactly frame ready, the seven terminal error flags, and timestamp
    // valid: bits 10, 12, 13, 15, 16, 17, 20, 21, 26.
    let mask = sim.reg(0x0E, 0);
    let mut expected = [0u8; 4];
    for bit in [10usize, 12, 13, 15, 16, 17, 20, 21, 26] {
        expected[bit / 8] |= 1 << (bit % 8);
    }
    assert_eq!(mask, expected.to_vec());

    device.clear_interrupts().unwrap();
    assert_eq!(sim.reg(0x0E, 0), vec![0, 0, 0, 0]);
}

#[test]
fn register_level_access_reads_device_id() {
    let sim = Sim::new();
    sim.set_reg(0x00, 0, &[0x30, 0x01, 0xCA, 0xDE]);
    let mut device = ready_device(&sim);
    let payload = device.ll().read(dw1000::regs::descriptor(dw1000::regs::Reg::DevId)).unwrap();
    assert_eq!(payload, vec![0x30, 0x01, 0xCA, 0xDE]);
    assert_eq!(dw1000::codec::decode(&payload, 16, 31), 0xDECA);
}
