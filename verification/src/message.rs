//! Whole application messages: how frames read from a peer are put together
//! into one message, and how a message to send is cut into frames.

use crate::frame::{
    demask, lemma_parse_serialize, lemma_serialized_len, spec_demask, spec_parse, spec_serialize, Frame,
    FrameView, OpCode,
};
use vstd::prelude::*;
use vstd::slice::{slice_subrange, slice_to_vec};
use vstd::string::*;
use vstd::utf8::{decode_utf8, encode_utf8, valid_utf8};

verus! {

/// A complete application-level payload.
#[derive(Debug, PartialEq, Eq)]
pub enum Message {
    Text(String),
    Binary(Vec<u8>),
}

/// What a message is: its characters, or its bytes.
pub enum MessageView {
    Text(Seq<char>),
    Binary(Seq<u8>),
}

impl View for Message {
    type V = MessageView;

    open spec fn view(&self) -> MessageView {
        match self {
            Message::Text(s) => MessageView::Text(s@),
            Message::Binary(b) => MessageView::Binary(b@),
        }
    }
}

impl Clone for Message {
    fn clone(&self) -> (r: Self)
        ensures
            r@ == self@,
    {
        match self {
            Message::Text(s) => Message::Text(s.clone()),
            Message::Binary(b) => Message::Binary(b.clone()),
        }
    }
}

/// Why a connection delivers no further message.
#[derive(Debug, Clone, Copy, PartialEq, Eq, Structural)]
pub enum MessageError {
    /// The peer sent a close frame, or the stream ended.
    ConnectionClosed,
    /// What arrived is no frame.
    InvalidMessage,
    /// Reading or writing failed.
    Network,
}

/// The text that `bytes` decode to when every malformed sequence is replaced
/// by U+FFFD.
pub uninterp spec fn spec_utf8_lossy(bytes: Seq<u8>) -> Seq<char>;

/// The text of a message's bytes: what they encode where they are
/// well-formed UTF-8, and else what is left once every malformed sequence is
/// replaced.
pub open spec fn spec_text_of(bytes: Seq<u8>) -> Seq<char> {
    if valid_utf8(bytes) {
        decode_utf8(bytes)
    } else {
        spec_utf8_lossy(bytes)
    }
}

/// Calls `String::from_utf8_lossy`: the result depends on the bytes alone, and
/// well-formed UTF-8 decodes to exactly the characters it encodes.
#[verifier::external_body]
fn decode_lossy(bytes: &[u8]) -> (text: String)
    ensures
        text@ == spec_utf8_lossy(bytes@),
        valid_utf8(bytes@) ==> text@ == decode_utf8(bytes@),
{
    String::from_utf8_lossy(bytes).into_owned()
}


/// What has been gathered of the message in progress: the bytes so far, and
/// whether the message is text, decided by the first frame read for it.
pub struct ReassemblerView {
    pub buffer: Seq<u8>,
    pub is_text: Option<bool>,
}

/// What one frame leads to: a frame to write back first, if any, and the end
/// of the read, if the frame brings one.
pub struct StepView {
    pub reply: Option<FrameView>,
    pub outcome: Option<Result<MessageView, MessageError>>,
}

/// The state in which no frame of a message has been read.
pub open spec fn spec_fresh() -> ReassemblerView {
    ReassemblerView { buffer: Seq::empty(), is_text: None }
}

/// A frame's payload with its mask taken off, where it has one.
pub open spec fn spec_plain_payload(f: FrameView) -> Seq<u8> {
    if f.mask is Some {
        spec_demask(f.payload, f.mask->Some_0)
    } else {
        f.payload
    }
}

/// A final, unmasked frame of the given opcode.
pub open spec fn spec_control_reply(opcode: OpCode, payload: Seq<u8>) -> FrameView {
    FrameView { is_final: true, opcode, mask: None, payload }
}

/// The message that the gathered bytes make.
pub open spec fn spec_finish(buffer: Seq<u8>, is_text: Option<bool>) -> MessageView {
    if is_text == Some(true) {
        MessageView::Text(spec_text_of(buffer))
    } else {
        MessageView::Binary(buffer)
    }
}

/// The rule for one frame.
///
/// The first frame read for a message that is no control frame decides
/// whether the message is text; such a frame adds its unmasked payload to the
/// buffer. A close frame is echoed and ends the read with `ConnectionClosed`,
/// whatever has been gathered. A ping is answered by a pong with the same
/// payload and changes nothing else, whatever its final flag says. Any other
/// frame with the final flag set completes the message; after that the state
/// is fresh again.
pub open spec fn spec_accept(state: ReassemblerView, f: FrameView) -> (ReassemblerView, StepView) {
    let payload = spec_plain_payload(f);
    if f.opcode == OpCode::Close {
        (
            spec_fresh(),
            StepView {
                reply: Some(spec_control_reply(OpCode::Close, payload)),
                outcome: Some(Err(MessageError::ConnectionClosed)),
            },
        )
    } else if f.opcode == OpCode::Ping {
        (state, StepView { reply: Some(spec_control_reply(OpCode::Pong, payload)), outcome: None })
    } else {
        let is_text = if state.is_text is None && f.opcode.spec_is_non_control() {
            Some(f.opcode == OpCode::Text)
        } else {
            state.is_text
        };
        let buffer = if f.opcode.spec_is_non_control() {
            state.buffer + payload
        } else {
            state.buffer
        };
        if f.is_final {
            (spec_fresh(), StepView { reply: None, outcome: Some(Ok(spec_finish(buffer, is_text))) })
        } else {
            (ReassemblerView { buffer, is_text }, StepView { reply: None, outcome: None })
        }
    }
}

/// What the reader does after one frame.
pub struct Step {
    /// A frame to write to the peer before anything else.
    pub reply: Option<Frame>,
    /// The end of the read: a message, or the reason why there is none.
    /// `None` while the message is still incomplete.
    pub outcome: Option<Result<Message, MessageError>>,
}

impl View for Step {
    type V = StepView;

    open spec fn view(&self) -> StepView {
        StepView {
            reply: match self.reply {
                Some(f) => Some(f@),
                None => None,
            },
            outcome: match self.outcome {
                Some(Ok(m)) => Some(Ok(m@)),
                Some(Err(e)) => Some(Err(e)),
                None => None,
            },
        }
    }
}

impl Step {
    /// What the read comes to once the reply, if there was one, has been
    /// written: a failed write ends it with `Network`, whatever the frame
    /// itself led to.
    pub fn settle(self, write_ok: bool) -> (r: Option<Result<Message, MessageError>>)
        ensures
            self.reply is Some && !write_ok ==> r == Some(
                Err::<Message, MessageError>(MessageError::Network),
            ),
            self.reply is None || write_ok ==> r == self.outcome,
    {
        if self.reply.is_some() && !write_ok {
            Some(Err(MessageError::Network))
        } else {
            self.outcome
        }
    }
}

/// Gathers the frames of one message after another.
pub struct Reassembler {
    buffer: Vec<u8>,
    is_text: Option<bool>,
}

impl View for Reassembler {
    type V = ReassemblerView;

    closed spec fn view(&self) -> ReassemblerView {
        ReassemblerView { buffer: self.buffer@, is_text: self.is_text }
    }
}

impl Reassembler {
    pub fn new() -> (r: Self)
        ensures
            r@ == spec_fresh(),
    {
        Reassembler { buffer: Vec::new(), is_text: None }
    }

    /// Takes the next frame read from the peer.
    pub fn accept(&mut self, frame: Frame) -> (step: Step)
        ensures
            (final(self)@, step@) == spec_accept(old(self)@, frame@),
    {
        let mut frame = frame;
        let ghost wire = frame@;
        match frame.mask() {
            Some(key) => {
                demask(frame.payload_mut(), key);
            },
            None => {},
        }
        assert(frame@.payload == spec_plain_payload(wire));
        assert(frame@.opcode == wire.opcode && frame@.is_final == wire.is_final);
        let opcode = frame.opcode();
        match opcode {
            OpCode::Close => {
                let reply = control_reply(OpCode::Close, frame.payload());
                self.buffer = Vec::new();
                self.is_text = None;
                return Step { reply: Some(reply), outcome: Some(Err(MessageError::ConnectionClosed)) };
            },
            OpCode::Ping => {
                let reply = control_reply(OpCode::Pong, frame.payload());
                return Step { reply: Some(reply), outcome: None };
            },
            _ => {},
        }
        if opcode.is_non_control() {
            if self.is_text.is_none() {
                self.is_text = Some(
                    match opcode {
                        OpCode::Text => true,
                        _ => false,
                    },
                );
            }
            self.buffer.extend_from_slice(frame.payload());
        }
        assert(opcode == wire.opcode);
        assert(self.buffer@ == if opcode.spec_is_non_control() {
            old(self).buffer@ + spec_plain_payload(wire)
        } else {
            old(self).buffer@
        });
        if frame.is_final() {
            let mut bytes = Vec::new();
            std::mem::swap(&mut bytes, &mut self.buffer);
            let message = match self.is_text {
                Some(true) => Message::Text(decode_lossy(bytes.as_slice())),
                _ => Message::Binary(bytes),
            };
            self.is_text = None;
            Step { reply: None, outcome: Some(Ok(message)) }
        } else {
            Step { reply: None, outcome: None }
        }
    }
}

/// A final, unmasked frame of the given opcode that carries a copy of
/// `payload`.
pub fn control_reply(opcode: OpCode, payload: &[u8]) -> (frame: Frame)
    ensures
        frame@ == spec_control_reply(opcode, payload@),
{
    let mut builder = Frame::builder();
    builder.is_final();
    builder.with_opcode(opcode);
    builder.with_payload(slice_to_vec(payload))
}

/// The frame that asks the peer to close: a close frame without payload.
pub fn close_connection() -> (frame: Frame)
    ensures
        frame@ == spec_control_reply(OpCode::Close, Seq::empty()),
{
    let mut builder = Frame::builder();
    builder.is_final();
    builder.with_opcode(OpCode::Close);
    builder.with_payload(Vec::new())
}


/// What reading one message from a sequence of bytes comes to.
pub struct ReadView {
    /// The message, or the reason why there is none.
    pub outcome: Result<MessageView, MessageError>,
    /// The wire bytes of the frames written back on the way, in order.
    pub replies: Seq<u8>,
    /// How many bytes the frames read took.
    pub consumed: nat,
}

/// The wire bytes of a step's reply: none where there is no reply.
pub open spec fn spec_reply_bytes(step: StepView) -> Seq<u8> {
    match step.reply {
        Some(f) => spec_serialize(f),
        None => Seq::empty(),
    }
}

/// Reading one message from `data`, starting from `state`: frame after frame
/// is parsed and handed to the rule for one frame, until a frame ends the
/// read. Bytes that are no frame, and bytes that end too early, end it with
/// `InvalidMessage`.
pub open spec fn spec_read(state: ReassemblerView, data: Seq<u8>) -> ReadView
    decreases data.len(),
{
    match spec_parse(data) {
        Err(_) => ReadView {
            outcome: Err(MessageError::InvalidMessage),
            replies: Seq::empty(),
            consumed: 0,
        },
        Ok((frame, n)) => {
            let (next, step) = spec_accept(state, frame);
            match step.outcome {
                Some(outcome) => ReadView { outcome, replies: spec_reply_bytes(step), consumed: n },
                None => {
                    if 2 <= n <= data.len() {
                        let rest = spec_read(next, data.subrange(n as int, data.len() as int));
                        ReadView {
                            outcome: rest.outcome,
                            replies: spec_reply_bytes(step) + rest.replies,
                            consumed: n + rest.consumed,
                        }
                    } else {
                        ReadView {
                            outcome: Err(MessageError::InvalidMessage),
                            replies: Seq::empty(),
                            consumed: 0,
                        }
                    }
                },
            }
        },
    }
}

/// A parsed frame takes at least its two header bytes and no more than there
/// are.
pub proof fn lemma_parse_consumes(data: Seq<u8>)
    ensures
        spec_parse(data) is Ok ==> 2 <= spec_parse(data)->Ok_0.1 <= data.len(),
{
}

/// Reads one message from the bytes received, `data`. The frames to write back
/// on the way (pongs, the echo of a close) are appended to `replies` as wire
/// bytes. Returns the message or the error, and how many bytes of `data` the
/// frames read took.
pub fn read_message_from(data: &[u8], replies: &mut Vec<u8>) -> (r: (
    Result<Message, MessageError>,
    usize,
))
    ensures
        match (r.0, spec_read(spec_fresh(), data@).outcome) {
            (Ok(m), Ok(v)) => m@ == v,
            (Err(e), Err(x)) => e == x,
            _ => false,
        },
        final(replies)@ == old(replies)@ + spec_read(spec_fresh(), data@).replies,
        r.1 == spec_read(spec_fresh(), data@).consumed,
        r.1 <= data@.len(),
{
    let mut state = Reassembler::new();
    let mut pos: usize = 0;
    let ghost whole = spec_read(spec_fresh(), data@);
    let ghost sent = Seq::<u8>::empty();
    assert(data@.subrange(0, data@.len() as int) =~= data@);
    assert(replies@ =~= old(replies)@ + sent);
    assert(whole.replies =~= sent + whole.replies);
    loop
        invariant
            pos <= data@.len(),
            replies@ == old(replies)@ + sent,
            whole == spec_read(spec_fresh(), data@),
            whole.outcome == spec_read(state@, data@.subrange(pos as int, data@.len() as int)).outcome,
            whole.replies == sent + spec_read(
                state@,
                data@.subrange(pos as int, data@.len() as int),
            ).replies,
            whole.consumed == pos + spec_read(
                state@,
                data@.subrange(pos as int, data@.len() as int),
            ).consumed,
        decreases data@.len() - pos,
    {
        let rest = slice_subrange(data, pos, data.len());
        let ghost here = spec_read(state@, rest@);
        proof {
            lemma_parse_consumes(rest@);
        }
        let (frame, n) = match Frame::parse_prefix(rest) {
            Ok(found) => found,
            Err(_) => {
                assert(replies@ =~= old(replies)@ + whole.replies);
                return (Err(MessageError::InvalidMessage), pos);
            },
        };
        let step = state.accept(frame);
        let ghost reply_bytes = spec_reply_bytes(step@);
        let ghost before = replies@;
        let Step { reply, outcome } = step;
        match reply {
            Some(f) => {
                f.write_to(replies);
            },
            None => {},
        }
        assert(replies@ =~= before + reply_bytes);
        proof {
            assert(rest@.subrange(n as int, rest@.len() as int) =~= data@.subrange(
                pos + n,
                data@.len() as int,
            ));
            assert(sent + (reply_bytes + spec_read(
                state@,
                rest@.subrange(n as int, rest@.len() as int),
            ).replies) =~= (sent + reply_bytes) + spec_read(
                state@,
                rest@.subrange(n as int, rest@.len() as int),
            ).replies);
            sent = sent + reply_bytes;
            assert(replies@ =~= old(replies)@ + sent);
        }
        pos = pos + n;
        match outcome {
            Some(end) => {
                assert(sent =~= whole.replies);
                return (end, pos);
            },
            None => {},
        }
    }
}


/// Reading from bytes that start with the wire form of a frame: the frame is
/// handed to the rule for one frame, and where it does not end the read, the
/// read goes on behind it.
pub proof fn lemma_read_step(state: ReassemblerView, f: FrameView, rest: Seq<u8>)
    requires
        f.wf(),
    ensures
        spec_read(state, spec_serialize(f) + rest) == (match spec_accept(state, f).1.outcome {
            Some(outcome) => ReadView {
                outcome,
                replies: spec_reply_bytes(spec_accept(state, f).1),
                consumed: spec_serialize(f).len(),
            },
            None => ReadView {
                outcome: spec_read(spec_accept(state, f).0, rest).outcome,
                replies: spec_reply_bytes(spec_accept(state, f).1) + spec_read(
                    spec_accept(state, f).0,
                    rest,
                ).replies,
                consumed: spec_serialize(f).len() + spec_read(spec_accept(state, f).0, rest).consumed,
            },
        }),
{
    let data = spec_serialize(f) + rest;
    let n = spec_serialize(f).len();
    lemma_parse_serialize(f, rest);
    lemma_serialized_len(f);
    assert(data.subrange(n as int, data.len() as int) =~= rest);
}

/// A close frame, at whatever point of a message it arrives, is answered by
/// exactly one close frame with the same payload, and the read ends with
/// `ConnectionClosed`.
pub proof fn lemma_close_handshake(state: ReassemblerView, close: FrameView, rest: Seq<u8>)
    requires
        close.wf(),
        close.opcode == OpCode::Close,
    ensures
        spec_read(state, spec_serialize(close) + rest) == (ReadView {
            outcome: Err(MessageError::ConnectionClosed),
            replies: spec_serialize(spec_control_reply(OpCode::Close, spec_plain_payload(close))),
            consumed: spec_serialize(close).len(),
        }),
{
    lemma_read_step(state, close, rest);
}

/// Three fragments, a text frame and two continuations of which only the last
/// is final, make one text message: the three payloads in order, decoded.
pub proof fn lemma_three_fragments(first: FrameView, middle: FrameView, last: FrameView, rest: Seq<u8>)
    requires
        first.wf(),
        middle.wf(),
        last.wf(),
        first.opcode == OpCode::Text && !first.is_final,
        middle.opcode == OpCode::Continuation && !middle.is_final,
        last.opcode == OpCode::Continuation && last.is_final,
    ensures
        spec_read(
            spec_fresh(),
            spec_serialize(first) + spec_serialize(middle) + spec_serialize(last) + rest,
        ) == (ReadView {
            outcome: Ok(
                MessageView::Text(
                    spec_text_of(
                        spec_plain_payload(first) + spec_plain_payload(middle) + spec_plain_payload(
                            last,
                        ),
                    ),
                ),
            ),
            replies: Seq::empty(),
            consumed: spec_serialize(first).len() + spec_serialize(middle).len() + spec_serialize(
                last,
            ).len(),
        }),
{
    let tail2 = spec_serialize(last) + rest;
    let tail1 = spec_serialize(middle) + tail2;
    let s1 = spec_accept(spec_fresh(), first).0;
    let s2 = spec_accept(s1, middle).0;
    assert(spec_serialize(first) + spec_serialize(middle) + spec_serialize(last) + rest =~= spec_serialize(
        first,
    ) + tail1);
    lemma_read_step(spec_fresh(), first, tail1);
    lemma_read_step(s1, middle, tail2);
    lemma_read_step(s2, last, rest);
    assert(s1.buffer =~= spec_plain_payload(first));
    assert(spec_read(spec_fresh(), spec_serialize(first) + tail1).replies =~= Seq::<u8>::empty());
}

/// A ping between two fragments of a message is answered by a pong with the
/// same payload, and the message comes out as if the ping had not been there.
pub proof fn lemma_ping_interleaved(first: FrameView, ping: FrameView, last: FrameView, rest: Seq<u8>)
    requires
        first.wf(),
        ping.wf(),
        last.wf(),
        first.opcode == OpCode::Text && !first.is_final,
        ping.opcode == OpCode::Ping,
        last.opcode == OpCode::Continuation && last.is_final,
    ensures
        spec_read(
            spec_fresh(),
            spec_serialize(first) + spec_serialize(ping) + spec_serialize(last) + rest,
        ) == (ReadView {
            outcome: Ok(
                MessageView::Text(spec_text_of(spec_plain_payload(first) + spec_plain_payload(last))),
            ),
            replies: spec_serialize(spec_control_reply(OpCode::Pong, spec_plain_payload(ping))),
            consumed: spec_serialize(first).len() + spec_serialize(ping).len() + spec_serialize(
                last,
            ).len(),
        }),
{
    let tail2 = spec_serialize(last) + rest;
    let tail1 = spec_serialize(ping) + tail2;
    let s1 = spec_accept(spec_fresh(), first).0;
    assert(spec_serialize(first) + spec_serialize(ping) + spec_serialize(last) + rest =~= spec_serialize(
        first,
    ) + tail1);
    lemma_read_step(spec_fresh(), first, tail1);
    lemma_read_step(s1, ping, tail2);
    lemma_read_step(s1, last, rest);
    assert(s1.buffer =~= spec_plain_payload(first));
    assert(spec_read(spec_fresh(), spec_serialize(first) + tail1).replies =~= spec_serialize(
        spec_control_reply(OpCode::Pong, spec_plain_payload(ping)),
    ));
}


/// The largest payload of one outbound frame.
pub const FRAGMENT_SIZE: usize = 1024;

/// The bytes a message carries: a text's UTF-8 encoding, or the bytes
/// themselves.
pub open spec fn spec_message_bytes(m: MessageView) -> Seq<u8> {
    match m {
        MessageView::Text(s) => encode_utf8(s),
        MessageView::Binary(b) => b,
    }
}

/// The opcode of a message's first frame.
pub open spec fn spec_first_opcode(m: MessageView) -> OpCode {
    match m {
        MessageView::Text(_) => OpCode::Text,
        MessageView::Binary(_) => OpCode::Binary,
    }
}

/// How many frames `len` bytes are cut into: none for an empty payload.
pub open spec fn spec_fragment_count(len: nat) -> nat {
    (len + FRAGMENT_SIZE - 1) as nat / (FRAGMENT_SIZE as nat)
}

/// The frame at `i` of those that carry `bytes`: the first has the message's
/// opcode and the others are continuations, only the last is final, none is
/// masked, and each but the last carries a full fragment.
pub open spec fn spec_fragment(first: OpCode, bytes: Seq<u8>, i: int) -> FrameView
    recommends
        0 <= i < spec_fragment_count(bytes.len()),
{
    let end = if (i + 1) * FRAGMENT_SIZE < bytes.len() {
        (i + 1) * FRAGMENT_SIZE
    } else {
        bytes.len() as int
    };
    FrameView {
        is_final: i == spec_fragment_count(bytes.len()) - 1,
        opcode: if i == 0 {
            first
        } else {
            OpCode::Continuation
        },
        mask: None,
        payload: bytes.subrange(i * FRAGMENT_SIZE, end),
    }
}

/// The frames that carry a message, in order.
pub open spec fn spec_fragments(m: MessageView) -> Seq<FrameView> {
    Seq::new(
        spec_fragment_count(spec_message_bytes(m).len()),
        |i: int| spec_fragment(spec_first_opcode(m), spec_message_bytes(m), i),
    )
}

/// The wire bytes of a sequence of frames, one after the other.
pub open spec fn spec_wire(frames: Seq<FrameView>) -> Seq<u8>
    decreases frames.len(),
{
    if frames.len() == 0 {
        Seq::empty()
    } else {
        spec_wire(frames.drop_last()) + spec_serialize(frames.last())
    }
}

/// Appends to `dest` the wire bytes of the frames that carry `message`. An
/// empty message has no frame: nothing is appended for it.
pub fn write_message_to(message: Message, dest: &mut Vec<u8>)
    ensures
        final(dest)@ == old(dest)@ + spec_wire(spec_fragments(message@)),
{
    let ghost view = message@;
    let (first, bytes) = match message {
        Message::Text(text) => (OpCode::Text, text.as_str().as_bytes_vec()),
        Message::Binary(bytes) => (OpCode::Binary, bytes),
    };
    assert(bytes@ == spec_message_bytes(view));
    let len = bytes.len();
    let count: usize = len / FRAGMENT_SIZE + (if len % FRAGMENT_SIZE == 0 { 0usize } else { 1usize });
    assert(count == spec_fragment_count(len as nat));
    let ghost frames = spec_fragments(view);
    let mut i: usize = 0;
    assert(frames.take(0) =~= Seq::<FrameView>::empty());
    assert(dest@ =~= old(dest)@ + spec_wire(frames.take(0)));
    while i < count
        invariant
            i <= count,
            len == bytes@.len(),
            count == spec_fragment_count(len as nat),
            frames == spec_fragments(view),
            frames.len() == count,
            bytes@ == spec_message_bytes(view),
            first == spec_first_opcode(view),
            dest@ == old(dest)@ + spec_wire(frames.take(i as int)),
        decreases count - i,
    {
        let start: usize = i * FRAGMENT_SIZE;
        let end: usize = if len - start > FRAGMENT_SIZE { start + FRAGMENT_SIZE } else { len };
        let mut builder = Frame::builder();
        if i == count - 1 {
            builder.is_final();
        } else {
            builder.is_not_final();
        }
        if i == 0 {
            builder.with_opcode(first);
        } else {
            builder.with_opcode(OpCode::Continuation);
        }
        let frame = builder.with_payload(slice_to_vec(slice_subrange(bytes.as_slice(), start, end)));
        assert(frame@ == frames[i as int]);
        let ghost before = dest@;
        frame.write_to(dest);
        proof {
            let next = frames.take(i + 1);
            assert(next.drop_last() =~= frames.take(i as int));
            assert(next.last() == frames[i as int]);
            assert(dest@ =~= old(dest)@ + spec_wire(next));
        }
        i = i + 1;
    }
    assert(frames.take(count as int) =~= frames);
}


/// The wire bytes of a sequence of frames start with those of its first
/// frame.
pub proof fn lemma_wire_front(frames: Seq<FrameView>)
    requires
        frames.len() > 0,
    ensures
        spec_wire(frames) == spec_serialize(frames[0]) + spec_wire(
            frames.subrange(1, frames.len() as int),
        ),
    decreases frames.len(),
{
    let tail = frames.subrange(1, frames.len() as int);
    if frames.len() == 1 {
        assert(frames.drop_last() =~= Seq::<FrameView>::empty());
        assert(tail =~= Seq::<FrameView>::empty());
        assert(spec_wire(frames.drop_last()) =~= Seq::<u8>::empty());
        assert(spec_wire(tail) =~= Seq::<u8>::empty());
        assert(frames.last() == frames[0]);
        assert(spec_wire(frames) =~= spec_serialize(frames[0]) + spec_wire(tail));
    } else {
        let front = frames.drop_last();
        lemma_wire_front(front);
        assert(front.subrange(1, front.len() as int) =~= tail.drop_last());
        assert(tail.last() == frames.last());
        assert(front[0] == frames[0]);
        assert(spec_wire(frames) =~= spec_serialize(frames[0]) + spec_wire(tail));
    }
}

/// The state of a reader that has taken the first `k` fragments of a
/// message.
pub open spec fn spec_state_after(m: MessageView, k: int) -> ReassemblerView {
    ReassemblerView {
        buffer: spec_message_bytes(m).subrange(0, k * FRAGMENT_SIZE),
        is_text: if k == 0 {
            None
        } else {
            Some(spec_first_opcode(m) == OpCode::Text)
        },
    }
}

/// A reader that has taken the first `k` fragments of a message and goes on
/// with the rest of them completes the message.
pub proof fn lemma_read_fragments(m: MessageView, k: int, rest: Seq<u8>)
    requires
        0 <= k < spec_fragments(m).len(),
    ensures
        spec_read(
            spec_state_after(m, k),
            spec_wire(spec_fragments(m).subrange(k, spec_fragments(m).len() as int)) + rest,
        ) == (ReadView {
            outcome: Ok(
                spec_finish(spec_message_bytes(m), Some(spec_first_opcode(m) == OpCode::Text)),
            ),
            replies: Seq::empty(),
            consumed: spec_wire(
                spec_fragments(m).subrange(k, spec_fragments(m).len() as int),
            ).len(),
        }),
    decreases spec_fragments(m).len() - k,
{
    let frames = spec_fragments(m);
    let bytes = spec_message_bytes(m);
    let count = frames.len() as int;
    let here = frames.subrange(k, count);
    let after = frames.subrange(k + 1, count);
    let frame = frames[k];
    let state = spec_state_after(m, k);
    assert(count == spec_fragment_count(bytes.len()));
    assert(frame == spec_fragment(spec_first_opcode(m), bytes, k));
    assert(frame.wf());
    lemma_wire_front(here);
    assert(here[0] == frame);
    assert(here.subrange(1, here.len() as int) =~= after);
    let tail = spec_wire(after) + rest;
    assert(spec_wire(here) + rest =~= spec_serialize(frame) + tail);
    lemma_read_step(state, frame, tail);
    let next = spec_accept(state, frame).0;
    if k == count - 1 {
        assert(state.buffer + frame.payload =~= bytes);
        assert(after =~= Seq::<FrameView>::empty());
        assert(spec_wire(here) =~= spec_serialize(frame));
    } else {
        assert(state.buffer + frame.payload =~= bytes.subrange(0, (k + 1) * FRAGMENT_SIZE));
        assert(next == spec_state_after(m, k + 1));
        lemma_read_fragments(m, k + 1, rest);
        assert(spec_read(state, spec_serialize(frame) + tail).replies =~= Seq::<u8>::empty());
    }
}

/// What is written for a message that is not empty is read back as that
/// message, and the reader takes exactly the bytes that were written.
pub proof fn lemma_message_round_trip(m: MessageView, rest: Seq<u8>)
    requires
        spec_message_bytes(m).len() > 0,
    ensures
        spec_read(spec_fresh(), spec_wire(spec_fragments(m)) + rest) == (ReadView {
            outcome: Ok(m),
            replies: Seq::empty(),
            consumed: spec_wire(spec_fragments(m)).len(),
        }),
{
    let frames = spec_fragments(m);
    assert(frames.len() > 0);
    lemma_read_fragments(m, 0, rest);
    assert(frames.subrange(0, frames.len() as int) =~= frames);
    assert(spec_state_after(m, 0).buffer =~= Seq::<u8>::empty());
    assert(spec_state_after(m, 0) == spec_fresh());
    match m {
        MessageView::Text(s) => {
            vstd::utf8::encode_utf8_valid_utf8(s);
            vstd::utf8::encode_utf8_decode_utf8(s);
        },
        MessageView::Binary(_) => {},
    }
}

} // verus!
