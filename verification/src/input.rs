//! Reverse input channel "GSI1": streaming clients send framed input events
//! upstream over the same connection that carries the video stream down. The
//! wire format (all integers little-endian):
//!
//! ```text
//! u32 magic = 0x47534931 ("GSI1")
//! u16 payload_len
//! payload:
//!   type=1 key:           u8 pressed, u32 keycode, u32 unicode          (10 B)
//!   type=2 mouse button:  u8 button, u8 pressed, u8 double, u8 pad,
//!                         f32 x, f32 y                                  (13 B)
//!   type=3 mouse motion:  f32 x, f32 y, f32 dx, f32 dy                  (17 B)
//! ```
//!
//! Coordinates travel as IEEE-754 binary32 values. The library carries them
//! as their bit patterns (`f32::to_bits`), which is exactly what is on the
//! wire; converting to `f32` happens where the event is injected.
use crate::le::{
    le_u16_at, le_u16_bytes, le_u32_at, le_u32_bytes, lemma_le_u16_round_trip, lemma_le_u32_round_trip,
    push_le_u16, push_le_u32, read_le_u16, read_le_u32,
};
use std::collections::VecDeque;
use vstd::prelude::*;

verus! {

pub const INPUT_PROTOCOL_MAGIC: u32 = 0x4753_4931;

pub const HEADER_LEN: usize = 6;

pub const MAX_PAYLOAD_LEN: usize = 64;

pub const MAX_STREAM_BUFFER: usize = 8 * 1024;

pub const QUEUE_CAPACITY: usize = 256;

pub const EVENT_KEY: u8 = 1;

pub const EVENT_MOUSE_BUTTON: u8 = 2;

pub const EVENT_MOUSE_MOTION: u8 = 3;

/// One input event. `x`, `y`, `dx` and `dy` hold the bit patterns of the
/// binary32 coordinates.
#[derive(Clone, Copy, Debug, PartialEq, Eq, Structural)]
pub enum InputCommand {
    Key { keycode: u32, unicode: u32, pressed: bool },
    MouseButton { button: u8, pressed: bool, double_click: bool, x: u32, y: u32 },
    MouseMotion { x: u32, y: u32, dx: u32, dy: u32 },
}

/// A binary32 value is finite exactly when its exponent field is not all ones.
pub open spec fn is_finite_bits(bits: u32) -> bool {
    bits & 0x7f80_0000 != 0x7f80_0000
}

/// `f32::is_finite` on the value with these bits.
pub fn finite_bits(bits: u32) -> (finite: bool)
    ensures
        finite == is_finite_bits(bits),
{
    bits & 0x7f80_0000 != 0x7f80_0000
}

/// The command a payload (the bytes after the six-byte header) encodes, if it
/// is a well-formed event: a known type with its exact length, a mouse button
/// in `1..=9`, and finite coordinates.
pub open spec fn spec_parse_payload(p: Seq<u8>) -> Option<InputCommand> {
    if p.len() == 0 {
        None
    } else if p[0] == EVENT_KEY && p.len() == 10 {
        Some(
            InputCommand::Key {
                pressed: p[1] != 0,
                keycode: le_u32_at(p, 2) as u32,
                unicode: le_u32_at(p, 6) as u32,
            },
        )
    } else if p[0] == EVENT_MOUSE_BUTTON && p.len() == 13 {
        let x = le_u32_at(p, 5) as u32;
        let y = le_u32_at(p, 9) as u32;
        if 1 <= p[1] <= 9 && is_finite_bits(x) && is_finite_bits(y) {
            Some(
                InputCommand::MouseButton {
                    button: p[1],
                    pressed: p[2] != 0,
                    double_click: p[3] != 0,
                    x,
                    y,
                },
            )
        } else {
            None
        }
    } else if p[0] == EVENT_MOUSE_MOTION && p.len() == 17 {
        let x = le_u32_at(p, 1) as u32;
        let y = le_u32_at(p, 5) as u32;
        let dx = le_u32_at(p, 9) as u32;
        let dy = le_u32_at(p, 13) as u32;
        if is_finite_bits(x) && is_finite_bits(y) && is_finite_bits(dx) && is_finite_bits(dy) {
            Some(InputCommand::MouseMotion { x, y, dx, dy })
        } else {
            None
        }
    } else {
        None
    }
}

/// The command one complete framed message encodes: the magic, a payload
/// length of at most 64 that matches the message exactly (no trailing bytes),
/// and a well-formed payload.
pub open spec fn spec_parse_datagram(b: Seq<u8>) -> Option<InputCommand> {
    if b.len() < 6 || le_u32_at(b, 0) != INPUT_PROTOCOL_MAGIC {
        None
    } else if b.len() != 6 + le_u16_at(b, 4) || le_u16_at(b, 4) > MAX_PAYLOAD_LEN {
        None
    } else {
        spec_parse_payload(b.skip(6))
    }
}

/// Parses one complete framed message (UDP: one datagram; TCP: one frame
/// extracted by `MessageReader`). Extra trailing bytes are rejected.
pub fn parse_datagram(bytes: &[u8]) -> (command: Option<InputCommand>)
    ensures
        command == spec_parse_datagram(bytes@),
{
    if bytes.len() < 4 {
        return None;
    }
    let magic = read_le_u32(bytes, 0);
    if bytes.len() < 6 {
        return None;
    }
    if magic != INPUT_PROTOCOL_MAGIC {
        return None;
    }
    let payload_len = read_le_u16(bytes, 4) as usize;
    if bytes.len() != HEADER_LEN + payload_len || payload_len > MAX_PAYLOAD_LEN {
        return None;
    }
    let payload = &bytes[HEADER_LEN..bytes.len()];
    assert(payload@ =~= bytes@.skip(6));
    parse_payload(payload)
}

fn parse_payload(payload: &[u8]) -> (command: Option<InputCommand>)
    ensures
        command == spec_parse_payload(payload@),
{
    if payload.len() == 0 {
        return None;
    }
    let kind = payload[0];
    if kind == EVENT_KEY && payload.len() == 10 {
        Some(
            InputCommand::Key {
                pressed: payload[1] != 0,
                keycode: read_le_u32(payload, 2),
                unicode: read_le_u32(payload, 6),
            },
        )
    } else if kind == EVENT_MOUSE_BUTTON && payload.len() == 13 {
        let x = read_le_u32(payload, 5);
        let y = read_le_u32(payload, 9);
        if !(1 <= payload[1] && payload[1] <= 9) || !finite_bits(x) || !finite_bits(y) {
            return None;
        }
        Some(
            InputCommand::MouseButton {
                button: payload[1],
                pressed: payload[2] != 0,
                double_click: payload[3] != 0,
                x,
                y,
            },
        )
    } else if kind == EVENT_MOUSE_MOTION && payload.len() == 17 {
        let x = read_le_u32(payload, 1);
        let y = read_le_u32(payload, 5);
        let dx = read_le_u32(payload, 9);
        let dy = read_le_u32(payload, 13);
        if finite_bits(x) && finite_bits(y) && finite_bits(dx) && finite_bits(dy) {
            Some(InputCommand::MouseMotion { x, y, dx, dy })
        } else {
            None
        }
    } else {
        None
    }
}

pub open spec fn flag_byte(b: bool) -> u8 {
    if b {
        1
    } else {
        0
    }
}

/// The payload bytes of a command.
pub open spec fn spec_payload(command: InputCommand) -> Seq<u8> {
    match command {
        InputCommand::Key { keycode, unicode, pressed } => seq![EVENT_KEY, flag_byte(pressed)]
            + le_u32_bytes(keycode) + le_u32_bytes(unicode),
        InputCommand::MouseButton { button, pressed, double_click, x, y } => seq![
            EVENT_MOUSE_BUTTON,
            button,
            flag_byte(pressed),
            flag_byte(double_click),
            0u8,
        ] + le_u32_bytes(x) + le_u32_bytes(y),
        InputCommand::MouseMotion { x, y, dx, dy } => seq![EVENT_MOUSE_MOTION] + le_u32_bytes(x)
            + le_u32_bytes(y) + le_u32_bytes(dx) + le_u32_bytes(dy),
    }
}

/// The framed message of a command: magic, payload length, payload.
pub open spec fn spec_message(command: InputCommand) -> Seq<u8> {
    le_u32_bytes(INPUT_PROTOCOL_MAGIC) + le_u16_bytes(spec_payload(command).len() as u16)
        + spec_payload(command)
}

/// A command that the parser accepts: a mouse button in `1..=9` and finite
/// coordinates.
pub open spec fn valid_command(command: InputCommand) -> bool {
    match command {
        InputCommand::Key { .. } => true,
        InputCommand::MouseButton { button, x, y, .. } => 1 <= button <= 9 && is_finite_bits(x)
            && is_finite_bits(y),
        InputCommand::MouseMotion { x, y, dx, dy } => is_finite_bits(x) && is_finite_bits(y)
            && is_finite_bits(dx) && is_finite_bits(dy),
    }
}

/// Encodes a command into a framed message (the reference for client
/// implementations).
pub fn encode_message(command: InputCommand) -> (bytes: Vec<u8>)
    ensures
        bytes@ == spec_message(command),
{
    let mut payload: Vec<u8> = Vec::new();
    match command {
        InputCommand::Key { keycode, unicode, pressed } => {
            payload.push(EVENT_KEY);
            payload.push(if pressed { 1 } else { 0 });
            push_le_u32(&mut payload, keycode);
            push_le_u32(&mut payload, unicode);
        },
        InputCommand::MouseButton { button, pressed, double_click, x, y } => {
            payload.push(EVENT_MOUSE_BUTTON);
            payload.push(button);
            payload.push(if pressed { 1 } else { 0 });
            payload.push(if double_click { 1 } else { 0 });
            payload.push(0);
            push_le_u32(&mut payload, x);
            push_le_u32(&mut payload, y);
        },
        InputCommand::MouseMotion { x, y, dx, dy } => {
            payload.push(EVENT_MOUSE_MOTION);
            push_le_u32(&mut payload, x);
            push_le_u32(&mut payload, y);
            push_le_u32(&mut payload, dx);
            push_le_u32(&mut payload, dy);
        },
    }
    assert(payload@ =~= spec_payload(command));
    let mut bytes: Vec<u8> = Vec::with_capacity(HEADER_LEN + payload.len());
    push_le_u32(&mut bytes, INPUT_PROTOCOL_MAGIC);
    push_le_u16(&mut bytes, payload.len() as u16);
    bytes.extend_from_slice(payload.as_slice());
    assert(bytes@ =~= spec_message(command));
    bytes
}

/// Law: every command the parser accepts survives encoding and parsing
/// unchanged, and nothing else comes back from an encoded message.
pub proof fn lemma_encode_parse_round_trip(command: InputCommand)
    ensures
        spec_parse_datagram(spec_message(command)) == if valid_command(command) {
            Some(command)
        } else {
            None::<InputCommand>
        },
{
    let p = spec_payload(command);
    let m = spec_message(command);
    lemma_le_u32_round_trip(INPUT_PROTOCOL_MAGIC);
    lemma_le_u16_round_trip(p.len() as u16);
    assert(m.subrange(0, 4) =~= le_u32_bytes(INPUT_PROTOCOL_MAGIC));
    assert(le_u32_at(m, 0) == le_u32_at(le_u32_bytes(INPUT_PROTOCOL_MAGIC), 0));
    assert(le_u16_at(m, 4) == le_u16_at(le_u16_bytes(p.len() as u16), 0));
    assert(m.skip(6) =~= p);
    match command {
        InputCommand::Key { keycode, unicode, pressed } => {
            lemma_le_u32_round_trip(keycode);
            lemma_le_u32_round_trip(unicode);
            assert(le_u32_at(p, 2) == le_u32_at(le_u32_bytes(keycode), 0));
            assert(le_u32_at(p, 6) == le_u32_at(le_u32_bytes(unicode), 0));
        },
        InputCommand::MouseButton { button, pressed, double_click, x, y } => {
            lemma_le_u32_round_trip(x);
            lemma_le_u32_round_trip(y);
            assert(le_u32_at(p, 5) == le_u32_at(le_u32_bytes(x), 0));
            assert(le_u32_at(p, 9) == le_u32_at(le_u32_bytes(y), 0));
        },
        InputCommand::MouseMotion { x, y, dx, dy } => {
            lemma_le_u32_round_trip(x);
            lemma_le_u32_round_trip(y);
            lemma_le_u32_round_trip(dx);
            lemma_le_u32_round_trip(dy);
            assert(le_u32_at(p, 1) == le_u32_at(le_u32_bytes(x), 0));
            assert(le_u32_at(p, 5) == le_u32_at(le_u32_bytes(y), 0));
            assert(le_u32_at(p, 9) == le_u32_at(le_u32_bytes(dx), 0));
            assert(le_u32_at(p, 13) == le_u32_at(le_u32_bytes(dy), 0));
        },
    }
}

/// A parsed command as a sequence of zero or one commands.
pub open spec fn option_seq(c: Option<InputCommand>) -> Seq<InputCommand> {
    match c {
        Some(c) => seq![c],
        None => seq![],
    }
}

/// The TCP frame scan over buffered bytes: the commands it yields and how many
/// bytes it consumes. At each position with a full header available, bad
/// magic skips one byte, an oversized payload length skips the four magic
/// bytes, an incomplete frame stops the scan, and a complete frame is consumed
/// whole (yielding its command only when the payload is well-formed).
pub open spec fn scan_frames(rest: Seq<u8>) -> (Seq<InputCommand>, int)
    decreases rest.len(),
{
    if rest.len() < 6 {
        (seq![], 0)
    } else if le_u32_at(rest, 0) != INPUT_PROTOCOL_MAGIC {
        let r = scan_frames(rest.skip(1));
        (r.0, r.1 + 1)
    } else if le_u16_at(rest, 4) > MAX_PAYLOAD_LEN {
        let r = scan_frames(rest.skip(4));
        (r.0, r.1 + 4)
    } else if rest.len() < 6 + le_u16_at(rest, 4) {
        (seq![], 0)
    } else {
        let n = 6 + le_u16_at(rest, 4);
        let r = scan_frames(rest.skip(n));
        (option_seq(spec_parse_payload(rest.subrange(6, n))) + r.0, r.1 + n)
    }
}

/// The scan consumes a prefix and leaves fewer bytes than one maximal frame.
pub proof fn lemma_scan_frames_bounds(rest: Seq<u8>)
    ensures
        0 <= scan_frames(rest).1 <= rest.len(),
        rest.len() - scan_frames(rest).1 < HEADER_LEN + MAX_PAYLOAD_LEN,
    decreases rest.len(),
{
    if rest.len() < 6 {
    } else if le_u32_at(rest, 0) != INPUT_PROTOCOL_MAGIC {
        lemma_scan_frames_bounds(rest.skip(1));
    } else if le_u16_at(rest, 4) > MAX_PAYLOAD_LEN {
        lemma_scan_frames_bounds(rest.skip(4));
    } else if rest.len() < 6 + le_u16_at(rest, 4) {
    } else {
        lemma_scan_frames_bounds(rest.skip(6 + le_u16_at(rest, 4)));
    }
}

/// Incremental frame extractor for the TCP upstream. Video-only clients
/// never send anything; garbage on the socket resynchronizes one byte at a
/// time until the magic reappears.
pub struct MessageReader {
    buffer: Vec<u8>,
}

impl MessageReader {
    /// The bytes received but not yet consumed by a frame.
    pub closed spec fn pending(&self) -> Seq<u8> {
        self.buffer@
    }

    /// The reader never holds a full frame's worth of unscanned bytes.
    pub closed spec fn wf(&self) -> bool {
        self.buffer@.len() < HEADER_LEN + MAX_PAYLOAD_LEN
    }

    pub fn new() -> (reader: Self)
        ensures
            reader.wf(),
            reader.pending() == Seq::<u8>::empty(),
    {
        Self { buffer: Vec::with_capacity(256) }
    }

    /// Appends `bytes` and extracts every complete frame: the commands are
    /// those of `scan_frames` over the pending bytes followed by `bytes`, and
    /// what the scan did not consume stays pending.
    pub fn feed(&mut self, bytes: &[u8]) -> (commands: Vec<InputCommand>)
        requires
            old(self).wf(),
        ensures
            final(self).wf(),
            commands@ == scan_frames(old(self).pending() + bytes@).0,
            final(self).pending() == (old(self).pending() + bytes@).skip(
                scan_frames(old(self).pending() + bytes@).1,
            ),
    {
        self.buffer.extend_from_slice(bytes);
        let ghost total = self.buffer@;
        assert(total =~= old(self).pending() + bytes@);
        let mut commands: Vec<InputCommand> = Vec::new();
        let mut consumed: usize = 0;
        proof {
            assert(total.skip(0) =~= total);
        }
        loop
            invariant
                self.buffer@ == total,
                consumed <= total.len(),
                scan_frames(total) == (
                    commands@ + scan_frames(total.skip(consumed as int)).0,
                    consumed + scan_frames(total.skip(consumed as int)).1,
                ),
            ensures
                consumed <= total.len(),
                scan_frames(total) == (commands@, consumed as int),
            decreases total.len() - consumed,
        {
            let ghost rest = total.skip(consumed as int);
            let available = self.buffer.len() - consumed;
            if available < HEADER_LEN {
                assert(scan_frames(rest) == (Seq::<InputCommand>::empty(), 0int));
                assert(commands@ + Seq::<InputCommand>::empty() =~= commands@);
                break;
            }
            let buf = self.buffer.as_slice();
            let magic = read_le_u32(buf, consumed);
            assert(le_u32_at(rest, 0) == le_u32_at(total, consumed as int));
            if magic != INPUT_PROTOCOL_MAGIC {
                assert(rest.skip(1) =~= total.skip(consumed + 1));
                consumed += 1;
                continue;
            }
            let payload_len = read_le_u16(buf, consumed + 4) as usize;
            assert(le_u16_at(rest, 4) == le_u16_at(total, consumed + 4));
            if payload_len > MAX_PAYLOAD_LEN {
                assert(rest.skip(4) =~= total.skip(consumed + 4));
                consumed += 4;
                continue;
            }
            let frame_len = HEADER_LEN + payload_len;
            if available < frame_len {
                assert(scan_frames(rest) == (Seq::<InputCommand>::empty(), 0int));
                assert(commands@ + Seq::<InputCommand>::empty() =~= commands@);
                break;
            }
            let payload = &buf[consumed + HEADER_LEN..consumed + frame_len];
            assert(payload@ =~= rest.subrange(6, frame_len as int));
            let parsed = parse_payload(payload);
            let ghost before = commands@;
            if let Some(command) = parsed {
                commands.push(command);
            }
            assert(commands@ =~= before + option_seq(parsed));
            assert(rest.skip(frame_len as int) =~= total.skip(consumed + frame_len));
            assert(before + (option_seq(parsed) + scan_frames(rest.skip(frame_len as int)).0)
                =~= commands@ + scan_frames(rest.skip(frame_len as int)).0);
            consumed += frame_len;
        }
        let tail = self.buffer.split_off(consumed);
        self.buffer = tail;
        proof {
            lemma_scan_frames_bounds(total);
        }
        if self.buffer.len() > MAX_STREAM_BUFFER {
            self.buffer.clear();
        }
        commands
    }
}

/// The scan of `s + t` first does everything the scan of `s` does, then
/// continues on the unconsumed rest of `s` followed by `t`.
pub open spec fn scan_prefix_property(s: Seq<u8>, t: Seq<u8>) -> bool {
    let first = scan_frames(s);
    let rest = s.skip(first.1);
    let second = scan_frames(rest + t);
    let whole = scan_frames(s + t);
    &&& first.0 + second.0 == whole.0
    &&& first.1 + second.1 == whole.1
    &&& (rest + t).skip(second.1) == (s + t).skip(whole.1)
}

/// One scan step of `k` bytes that yields `c`, taken identically on `s` and
/// on `s + t`, carries the property over from `s.skip(k)` to `s`.
proof fn lemma_scan_prefix_step(s: Seq<u8>, t: Seq<u8>, k: int, c: Seq<InputCommand>)
    requires
        0 < k <= s.len(),
        scan_frames(s) == (c + scan_frames(s.skip(k)).0, scan_frames(s.skip(k)).1 + k),
        scan_frames(s + t) == (c + scan_frames((s + t).skip(k)).0, scan_frames((s + t).skip(k)).1
            + k),
        scan_prefix_property(s.skip(k), t),
    ensures
        scan_prefix_property(s, t),
{
    let sk = s.skip(k);
    let w = (s + t).skip(k);
    lemma_scan_frames_bounds(sk);
    lemma_scan_frames_bounds(w);
    assert(sk + t =~= w);
    let r = scan_frames(sk);
    let wr = scan_frames(w);
    assert(sk.skip(r.1) =~= s.skip(r.1 + k));
    let second = scan_frames(sk.skip(r.1) + t);
    assert(c + r.0 + second.0 =~= c + (r.0 + second.0));
    assert(w.skip(wr.1) =~= (s + t).skip(k + wr.1));
}

pub proof fn lemma_scan_frames_prefix(s: Seq<u8>, t: Seq<u8>)
    ensures
        scan_prefix_property(s, t),
    decreases s.len(),
{
    let st = s + t;
    if s.len() < 6 {
        assert(s.skip(0) =~= s);
        assert(Seq::<InputCommand>::empty() + scan_frames(st).0 =~= scan_frames(st).0);
    } else {
        assert(le_u32_at(st, 0) == le_u32_at(s, 0));
        assert(le_u16_at(st, 4) == le_u16_at(s, 4));
        if le_u32_at(s, 0) != INPUT_PROTOCOL_MAGIC {
            lemma_scan_frames_prefix(s.skip(1), t);
            assert(Seq::<InputCommand>::empty() + scan_frames(s.skip(1)).0 =~= scan_frames(
                s.skip(1),
            ).0);
            assert(Seq::<InputCommand>::empty() + scan_frames(st.skip(1)).0 =~= scan_frames(
                st.skip(1),
            ).0);
            lemma_scan_prefix_step(s, t, 1, Seq::<InputCommand>::empty());
        } else if le_u16_at(s, 4) > MAX_PAYLOAD_LEN {
            lemma_scan_frames_prefix(s.skip(4), t);
            assert(Seq::<InputCommand>::empty() + scan_frames(s.skip(4)).0 =~= scan_frames(
                s.skip(4),
            ).0);
            assert(Seq::<InputCommand>::empty() + scan_frames(st.skip(4)).0 =~= scan_frames(
                st.skip(4),
            ).0);
            lemma_scan_prefix_step(s, t, 4, Seq::<InputCommand>::empty());
        } else if s.len() < 6 + le_u16_at(s, 4) {
            assert(s.skip(0) =~= s);
            assert(Seq::<InputCommand>::empty() + scan_frames(st).0 =~= scan_frames(st).0);
        } else {
            let n = 6 + le_u16_at(s, 4);
            lemma_scan_frames_prefix(s.skip(n), t);
            assert(st.subrange(6, n) =~= s.subrange(6, n));
            lemma_scan_prefix_step(s, t, n, option_seq(spec_parse_payload(s.subrange(6, n))));
        }
    }
}

/// Law: a TCP read may split the stream at any byte. Feeding `a` and then
/// `b` yields the same commands, and leaves the same pending bytes, as feeding
/// `a + b` at once.
pub proof fn lemma_feed_split(pending: Seq<u8>, a: Seq<u8>, b: Seq<u8>)
    ensures
        ({
            let first = scan_frames(pending + a);
            let rest = (pending + a).skip(first.1);
            let second = scan_frames(rest + b);
            let whole = scan_frames(pending + a + b);
            &&& first.0 + second.0 == whole.0
            &&& (rest + b).skip(second.1) == (pending + a + b).skip(whole.1)
        }),
{
    lemma_scan_frames_prefix(pending + a, b);
    assert(pending + a + b =~= (pending + a) + b);
}

/// The queue contents after one push: the command is appended and, when the
/// queue was full, the oldest entry is dropped.
pub open spec fn queue_after_push(q: Seq<InputCommand>, command: InputCommand) -> Seq<InputCommand> {
    if q.len() >= QUEUE_CAPACITY {
        q.drop_first().push(command)
    } else {
        q.push(command)
    }
}

/// The queue contents after pushing every command of `s` in order.
pub open spec fn queue_after_pushes(q: Seq<InputCommand>, s: Seq<InputCommand>) -> Seq<
    InputCommand,
>
    decreases s.len(),
{
    if s.len() == 0 {
        q
    } else {
        queue_after_push(queue_after_pushes(q, s.drop_last()), s.last())
    }
}

/// Bounded hand-off between the network readers and the main-thread drain.
/// Overflow drops the oldest event so a flood of motion events can never
/// starve keys or clicks.
pub struct InputQueue {
    events: VecDeque<InputCommand>,
}

impl InputQueue {
    pub closed spec fn contents(&self) -> Seq<InputCommand> {
        self.events@
    }

    pub fn new() -> (queue: Self)
        ensures
            queue.contents() == Seq::<InputCommand>::empty(),
    {
        Self { events: VecDeque::with_capacity(QUEUE_CAPACITY) }
    }

    pub fn push(&mut self, command: InputCommand)
        ensures
            final(self).contents() == queue_after_push(old(self).contents(), command),
    {
        if self.events.len() >= QUEUE_CAPACITY {
            self.events.pop_front();
        }
        self.events.push_back(command);
        proof {
            if old(self).contents().len() >= QUEUE_CAPACITY {
                assert(old(self).contents().subrange(1, old(self).contents().len() as int)
                    =~= old(self).contents().drop_first());
            }
        }
    }

    /// Removes and returns every queued command, oldest first.
    pub fn take_all(&mut self) -> (commands: Vec<InputCommand>)
        ensures
            commands@ == old(self).contents(),
            final(self).contents() == Seq::<InputCommand>::empty(),
    {
        let mut commands: Vec<InputCommand> = Vec::new();
        let ghost all = self.events@;
        while self.events.len() > 0
            invariant
                commands@ + self.events@ == all,
            decreases self.events@.len(),
        {
            let ghost before = self.events@;
            match self.events.pop_front() {
                Some(command) => {
                    commands.push(command);
                    assert(commands@ + self.events@ =~= all);
                },
                None => {},
            }
        }
        assert(commands@ + self.events@ =~= commands@);
        commands
    }

    pub fn len(&self) -> (len: usize)
        ensures
            len == self.contents().len(),
    {
        self.events.len()
    }
}

/// Law: the queue never holds more than its capacity, and after a run of
/// pushes it holds the newest `QUEUE_CAPACITY` commands of everything queued,
/// oldest first.
pub proof fn lemma_queue_keeps_newest(q: Seq<InputCommand>, s: Seq<InputCommand>)
    requires
        q.len() <= QUEUE_CAPACITY,
    ensures
        queue_after_pushes(q, s) == (q + s).skip(
            if (q + s).len() > QUEUE_CAPACITY {
                (q + s).len() - QUEUE_CAPACITY
            } else {
                0
            },
        ),
        queue_after_pushes(q, s).len() <= QUEUE_CAPACITY,
    decreases s.len(),
{
    if s.len() == 0 {
        assert(q + s =~= q);
        assert(q.skip(0) =~= q);
    } else {
        let init = s.drop_last();
        lemma_queue_keeps_newest(q, init);
        let prev = queue_after_pushes(q, init);
        assert(q + s =~= (q + init).push(s.last()));
        let qi = q + init;
        let drop: int = if qi.len() > QUEUE_CAPACITY {
            qi.len() - QUEUE_CAPACITY
        } else {
            0
        };
        if prev.len() >= QUEUE_CAPACITY {
            assert(prev.drop_first().push(s.last()) =~= (q + s).skip(drop + 1));
        } else {
            assert(prev.push(s.last()) =~= (q + s).skip(drop));
        }
    }
}

/// How a received command enters the engine's input pipeline. Coordinates
/// (bit patterns) are still in stream-output pixels; the caller scales them
/// to the viewport.
#[derive(Clone, Copy, Debug, PartialEq, Eq, Structural)]
pub enum Injection {
    Key { keycode: i32, unicode: u32, pressed: bool },
    /// `wheel` buttons (4..=7) also get a scroll factor of one.
    MouseButton { button: u8, pressed: bool, double_click: bool, x: u32, y: u32, wheel: bool },
    MouseMotion { x: u32, y: u32, dx: u32, dy: u32 },
}

pub const MOUSE_BUTTON_WHEEL_UP: u8 = 4;

pub const MOUSE_BUTTON_WHEEL_RIGHT: u8 = 7;

/// The injection for a command, or `None` when it is dropped: a key code of
/// 0 or beyond `i32::MAX`, or a mouse event before the viewport scale is
/// known.
pub open spec fn spec_plan_injection(command: InputCommand, scale_known: bool) -> Option<Injection> {
    match command {
        InputCommand::Key { keycode, unicode, pressed } => if keycode == 0 || keycode > i32::MAX {
            None
        } else {
            Some(Injection::Key { keycode: keycode as i32, unicode, pressed })
        },
        InputCommand::MouseButton { button, pressed, double_click, x, y } => if !scale_known {
            None
        } else {
            Some(
                Injection::MouseButton {
                    button,
                    pressed,
                    double_click,
                    x,
                    y,
                    wheel: MOUSE_BUTTON_WHEEL_UP <= button <= MOUSE_BUTTON_WHEEL_RIGHT,
                },
            )
        },
        InputCommand::MouseMotion { x, y, dx, dy } => if !scale_known {
            None
        } else {
            Some(Injection::MouseMotion { x, y, dx, dy })
        },
    }
}

pub fn plan_injection(command: InputCommand, scale_known: bool) -> (injection: Option<Injection>)
    ensures
        injection == spec_plan_injection(command, scale_known),
{
    match command {
        InputCommand::Key { keycode, unicode, pressed } => {
            if keycode == 0 || keycode > i32::MAX as u32 {
                None
            } else {
                Some(Injection::Key { keycode: keycode as i32, unicode, pressed })
            }
        },
        InputCommand::MouseButton { button, pressed, double_click, x, y } => {
            if !scale_known {
                None
            } else {
                Some(
                    Injection::MouseButton {
                        button,
                        pressed,
                        double_click,
                        x,
                        y,
                        wheel: MOUSE_BUTTON_WHEEL_UP <= button && button <= MOUSE_BUTTON_WHEEL_RIGHT,
                    },
                )
            }
        },
        InputCommand::MouseMotion { x, y, dx, dy } => {
            if !scale_known {
                None
            } else {
                Some(Injection::MouseMotion { x, y, dx, dy })
            }
        },
    }
}

/// Law: injection carries every field of a command unchanged into the
/// same-named field of the event. A key press keeps its key code, character
/// and state (key code 0 and codes beyond `i32::MAX` are dropped). Once the
/// viewport scale is known, a mouse button keeps its button, state,
/// double-click flag and position, and is marked as a wheel step exactly for
/// buttons 4 to 7; a motion keeps its position and its relative motion, axis
/// for axis. Mouse events before the scale is known are dropped.
pub proof fn lemma_injection_carries_fields(command: InputCommand, scale_known: bool)
    ensures
        match command {
            InputCommand::Key { keycode, unicode, pressed } => if 0 < keycode <= i32::MAX {
                spec_plan_injection(command, scale_known) matches Some(
                    Injection::Key { keycode: k, unicode: u, pressed: p },
                ) && k == keycode && u == unicode && p == pressed
            } else {
                spec_plan_injection(command, scale_known) is None
            },
            InputCommand::MouseButton { button, pressed, double_click, x, y } => if scale_known {
                spec_plan_injection(command, scale_known) matches Some(
                    Injection::MouseButton { button: b, pressed: p, double_click: d, x: px, y: py, wheel },
                ) && b == button && p == pressed && d == double_click && px == x && py == y && (wheel
                    <==> 4 <= button <= 7)
            } else {
                spec_plan_injection(command, scale_known) is None
            },
            InputCommand::MouseMotion { x, y, dx, dy } => if scale_known {
                spec_plan_injection(command, scale_known) matches Some(
                    Injection::MouseMotion { x: px, y: py, dx: rx, dy: ry },
                ) && px == x && py == y && rx == dx && ry == dy
            } else {
                spec_plan_injection(command, scale_known) is None
            },
        },
{
}

/// The stream-to-viewport scale is known once the first captured frame has
/// reported both the source and the output size.
pub fn viewport_scale_known(
    source_width: u32,
    source_height: u32,
    output_width: u32,
    output_height: u32,
) -> (known: bool)
    ensures
        known == (source_width != 0 && source_height != 0 && output_width != 0 && output_height
            != 0),
{
    source_width != 0 && source_height != 0 && output_width != 0 && output_height != 0
}

} // verus!
