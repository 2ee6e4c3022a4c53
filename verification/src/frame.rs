//! The WebSocket frame codec: one frame to and from its wire bytes, and the
//! masking of payloads.

use vstd::prelude::*;

verus! {

/// The role of a frame, as carried by the low four bits of its first byte.
#[derive(Clone, Copy, PartialEq, Eq, Debug, Structural)]
pub enum OpCode {
    Continuation,
    Text,
    Binary,
    NonControlReserved(u8),
    Close,
    Ping,
    Pong,
    ControlReserved(u8),
}

impl OpCode {
    /// The four-bit code that stands for this opcode on the wire.
    pub open spec fn spec_code(self) -> u8 {
        match self {
            OpCode::Continuation => 0x0,
            OpCode::Text => 0x1,
            OpCode::Binary => 0x2,
            OpCode::NonControlReserved(c) => c,
            OpCode::Close => 0x8,
            OpCode::Ping => 0x9,
            OpCode::Pong => 0xa,
            OpCode::ControlReserved(c) => c,
        }
    }

    /// The opcode that a four-bit code stands for.
    pub open spec fn spec_from_code(n: u8) -> OpCode
        recommends
            n < 16,
    {
        if n == 0x0 {
            OpCode::Continuation
        } else if n == 0x1 {
            OpCode::Text
        } else if n == 0x2 {
            OpCode::Binary
        } else if n == 0x8 {
            OpCode::Close
        } else if n == 0x9 {
            OpCode::Ping
        } else if n == 0xa {
            OpCode::Pong
        } else if n <= 7 {
            OpCode::NonControlReserved(n)
        } else {
            OpCode::ControlReserved(n)
        }
    }

    /// A reserved opcode carries a raw code of its own range.
    pub open spec fn wf(self) -> bool {
        match self {
            OpCode::NonControlReserved(c) => 3 <= c <= 7,
            OpCode::ControlReserved(c) => 0xb <= c <= 0xf,
            _ => true,
        }
    }

    pub open spec fn spec_is_control(self) -> bool {
        self is Close || self is Ping || self is Pong || self is ControlReserved
    }

    pub fn is_control(&self) -> (r: bool)
        ensures
            r == self.spec_is_control(),
    {
        match self {
            OpCode::Close | OpCode::Ping | OpCode::Pong | OpCode::ControlReserved(_) => true,
            _ => false,
        }
    }

    pub open spec fn spec_is_non_control(self) -> bool {
        !self.spec_is_control()
    }

    pub fn is_non_control(&self) -> (r: bool)
        ensures
            r == !self.spec_is_control(),
    {
        !self.is_control()
    }

    /// The opcode that a four-bit code names.
    fn from_low_bits(n: u8) -> (r: OpCode)
        requires
            n < 16,
        ensures
            r == Self::spec_from_code(n),
            r.wf(),
            r.spec_code() == n,
    {
        if n == 0x0 {
            OpCode::Continuation
        } else if n == 0x1 {
            OpCode::Text
        } else if n == 0x2 {
            OpCode::Binary
        } else if n == 0x8 {
            OpCode::Close
        } else if n == 0x9 {
            OpCode::Ping
        } else if n == 0xa {
            OpCode::Pong
        } else if n <= 7 {
            OpCode::NonControlReserved(n)
        } else {
            OpCode::ControlReserved(n)
        }
    }

    /// Decodes a four-bit code. Every code below 16 names an opcode; a larger
    /// number is refused.
    pub fn try_from(n: u8) -> (r: Result<OpCode, FrameError>)
        ensures
            n < 16 ==> r == Ok::<OpCode, FrameError>(Self::spec_from_code(n)),
            n >= 16 ==> r == Err::<OpCode, FrameError>(FrameError::UnrecognizedOpcode),
            r is Ok ==> r->Ok_0.wf() && r->Ok_0.spec_code() == n,
    {
        if n < 16 {
            Ok(Self::from_low_bits(n))
        } else {
            Err(FrameError::UnrecognizedOpcode)
        }
    }

    /// The code of this opcode.
    pub fn into(self) -> (n: u8)
        ensures
            n == self.spec_code(),
            self.wf() ==> n < 16 && Self::spec_from_code(n) == self,
    {
        match self {
            OpCode::Continuation => 0x0,
            OpCode::Text => 0x1,
            OpCode::Binary => 0x2,
            OpCode::NonControlReserved(c) => c,
            OpCode::Close => 0x8,
            OpCode::Ping => 0x9,
            OpCode::Pong => 0xa,
            OpCode::ControlReserved(c) => c,
        }
    }
}

/// Why a sequence of bytes is no frame.
#[derive(Clone, Copy, PartialEq, Eq, Debug, Structural)]
pub enum FrameError {
    /// Fewer than the two bytes that start every header.
    ShortHeader,
    /// The extended length field is cut short.
    ShortLength,
    /// The masking key is cut short.
    ShortMask,
    /// Fewer payload bytes than the header announces.
    ShortPayload,
    /// A code that names no opcode.
    UnrecognizedOpcode,
}

/// The byte at `i` of `data` under `mask`: the key's bytes are applied in
/// turn, starting over every four.
pub open spec fn spec_demask_byte(data: Seq<u8>, mask: Seq<u8>, i: int) -> u8
    recommends
        0 <= i < data.len(),
        mask.len() == 4,
{
    data[i] ^ mask[i % 4]
}

/// `data` with every byte under `mask`.
pub open spec fn spec_demask(data: Seq<u8>, mask: Seq<u8>) -> Seq<u8>
    recommends
        mask.len() == 4,
{
    Seq::new(data.len(), |i: int| spec_demask_byte(data, mask, i))
}

/// Applies or removes the mask in place: the two are one operation.
pub fn demask(data: &mut [u8], mask: [u8; 4])
    ensures
        final(data)@ == spec_demask(old(data)@, mask@),
{
    let n = data.len();
    let mut i: usize = 0;
    while i < n
        invariant
            n == data@.len(),
            n == old(data)@.len(),
            i <= n,
            forall|j: int| 0 <= j < i ==> data@[j] == spec_demask_byte(old(data)@, mask@, j),
            forall|j: int| i <= j < n ==> data@[j] == old(data)@[j],
        decreases n - i,
    {
        let b = data[i] ^ mask[i % 4];
        data[i] = b;
        i += 1;
    }
    assert(data@ =~= spec_demask(old(data)@, mask@));
}

/// Masking twice with one key gives back the bytes that went in.
pub proof fn lemma_demask_involution(data: Seq<u8>, mask: Seq<u8>)
    requires
        mask.len() == 4,
    ensures
        spec_demask(spec_demask(data, mask), mask) == data,
{
    let once = spec_demask(data, mask);
    assert forall|i: int| 0 <= i < data.len() implies spec_demask_byte(once, mask, i) == data[i] by {
        let d = data[i];
        let m = mask[i % 4];
        assert((d ^ m) ^ m == d) by (bit_vector);
    }
    assert(spec_demask(once, mask) =~= data);
}


/// What a frame is: the final flag, the opcode, the masking key if there is
/// one (four bytes), and the payload as it stands on the wire.
pub struct FrameView {
    pub is_final: bool,
    pub opcode: OpCode,
    pub mask: Option<Seq<u8>>,
    pub payload: Seq<u8>,
}

impl FrameView {
    /// The opcode can be written in four bits, a key has four bytes and the
    /// payload's length fits the widest length field.
    pub open spec fn wf(self) -> bool {
        &&& self.opcode.wf()
        &&& self.mask is Some ==> self.mask->Some_0.len() == 4
        &&& self.payload.len() <= u64::MAX
    }
}

/// One unit of the wire protocol.
#[derive(Clone, Debug, PartialEq, Eq)]
pub struct Frame {
    is_final: bool,
    opcode: OpCode,
    mask: Option<[u8; 4]>,
    payload: Vec<u8>,
}

impl View for Frame {
    type V = FrameView;

    closed spec fn view(&self) -> FrameView {
        FrameView {
            is_final: self.is_final,
            opcode: self.opcode,
            mask: match self.mask {
                Some(m) => Some(m@),
                None => None,
            },
            payload: self.payload@,
        }
    }
}

/// Collects the parts of a frame; the payload comes last and makes the frame.
pub struct Builder {
    is_final: bool,
    opcode: OpCode,
    mask: Option<[u8; 4]>,
}

impl Builder {
    pub closed spec fn spec_final(&self) -> bool {
        self.is_final
    }

    pub closed spec fn spec_opcode(&self) -> OpCode {
        self.opcode
    }

    pub closed spec fn spec_mask(&self) -> Option<Seq<u8>> {
        match self.mask {
            Some(m) => Some(m@),
            None => None,
        }
    }

    pub fn is_final(&mut self) -> (r: &mut Self)
        ensures
            r.spec_final(),
            r.spec_opcode() == old(self).spec_opcode(),
            r.spec_mask() == old(self).spec_mask(),
            *final(self) == *final(r),
    {
        self.is_final = true;
        self
    }

    pub fn is_not_final(&mut self) -> (r: &mut Self)
        ensures
            !r.spec_final(),
            r.spec_opcode() == old(self).spec_opcode(),
            r.spec_mask() == old(self).spec_mask(),
            *final(self) == *final(r),
    {
        self.is_final = false;
        self
    }

    pub fn with_opcode(&mut self, code: OpCode) -> (r: &mut Self)
        ensures
            r.spec_final() == old(self).spec_final(),
            r.spec_opcode() == code,
            r.spec_mask() == old(self).spec_mask(),
            *final(self) == *final(r),
    {
        self.opcode = code;
        self
    }

    pub fn with_mask(&mut self, mask: [u8; 4]) -> (r: &mut Self)
        ensures
            r.spec_final() == old(self).spec_final(),
            r.spec_opcode() == old(self).spec_opcode(),
            r.spec_mask() == Some(mask@),
            *final(self) == *final(r),
    {
        self.mask = Some(mask);
        self
    }

    pub fn with_payload(&mut self, payload: Vec<u8>) -> (frame: Frame)
        ensures
            *final(self) == *old(self),
            frame@ == (FrameView {
                is_final: old(self).spec_final(),
                opcode: old(self).spec_opcode(),
                mask: old(self).spec_mask(),
                payload: payload@,
            }),
    {
        Frame { is_final: self.is_final, opcode: self.opcode, mask: self.mask, payload }
    }
}

impl Default for Builder {
    /// A final, unmasked text frame.
    fn default() -> (b: Self)
        ensures
            b.spec_final(),
            b.spec_opcode() == OpCode::Text,
            b.spec_mask() is None,
    {
        Builder { is_final: true, opcode: OpCode::Text, mask: None }
    }
}

impl Frame {
    pub fn builder() -> (b: Builder)
        ensures
            b.spec_final(),
            b.spec_opcode() == OpCode::Text,
            b.spec_mask() is None,
    {
        Builder { is_final: true, opcode: OpCode::Text, mask: None }
    }

    pub fn is_final(&self) -> (r: bool)
        ensures
            r == self@.is_final,
    {
        self.is_final
    }

    pub fn opcode(&self) -> (r: OpCode)
        ensures
            r == self@.opcode,
    {
        self.opcode
    }

    pub fn payload(&self) -> (r: &[u8])
        ensures
            r@ == self@.payload,
    {
        self.payload.as_slice()
    }

    pub fn payload_mut(&mut self) -> (r: &mut [u8])
        ensures
            r@ == old(self)@.payload,
            final(self)@ == (FrameView { payload: final(r)@, ..old(self)@ }),
    {
        self.payload.as_mut_slice()
    }

    pub fn mask(&self) -> (r: Option<[u8; 4]>)
        ensures
            r is Some == self@.mask is Some,
            r is Some ==> r->Some_0@ == self@.mask->Some_0,
    {
        self.mask
    }
}


/// The largest payload whose length is written in the two-byte form; a longer
/// one takes the eight-byte form.
pub const EXTENDED_16_CEILING: usize = 0x7fff;

/// The number two bytes stand for, most significant first.
pub open spec fn spec_be16(b: Seq<u8>) -> nat
    recommends
        b.len() == 2,
{
    (b[0] as nat) * 256 + (b[1] as nat)
}

/// The number eight bytes stand for, most significant first.
pub open spec fn spec_be64(b: Seq<u8>) -> nat
    recommends
        b.len() == 8,
{
    (((((((b[0] as nat) * 256 + (b[1] as nat)) * 256 + (b[2] as nat)) * 256 + (b[3] as nat)) * 256
        + (b[4] as nat)) * 256 + (b[5] as nat)) * 256 + (b[6] as nat)) * 256 + (b[7] as nat)
}

/// The two bytes that stand for `n`, most significant first.
pub open spec fn spec_be16_bytes(n: nat) -> Seq<u8>
    recommends
        n < 0x1_0000,
{
    seq![(n / 256) as u8, (n % 256) as u8]
}

/// The eight bytes that stand for `n`, most significant first.
pub open spec fn spec_be64_bytes(n: nat) -> Seq<u8>
    recommends
        n <= u64::MAX,
{
    seq![
        (n / 256 / 256 / 256 / 256 / 256 / 256 / 256 % 256) as u8,
        (n / 256 / 256 / 256 / 256 / 256 / 256 % 256) as u8,
        (n / 256 / 256 / 256 / 256 / 256 % 256) as u8,
        (n / 256 / 256 / 256 / 256 % 256) as u8,
        (n / 256 / 256 / 256 % 256) as u8,
        (n / 256 / 256 % 256) as u8,
        (n / 256 % 256) as u8,
        (n % 256) as u8,
    ]
}

/// How many bytes of extended length follow a header whose second byte is
/// `second`: none for a literal length, two after 126, eight after 127.
pub open spec fn spec_ext_len(second: u8) -> nat {
    if second & 0x7f == 126 {
        2
    } else if second & 0x7f == 127 {
        8
    } else {
        0
    }
}

/// How many bytes of masking key a header holds: four where the mask bit of
/// the second byte is set.
pub open spec fn spec_mask_len(second: u8) -> nat {
    if second >> 7 != 0 {
        4
    } else {
        0
    }
}

/// The length of a whole header, from its second byte.
pub open spec fn spec_header_len(second: u8) -> nat {
    2 + spec_ext_len(second) + spec_mask_len(second)
}

/// The payload length that a header announces. `header` holds at least the
/// first two bytes and the extended length.
pub open spec fn spec_payload_len(header: Seq<u8>) -> nat
    recommends
        header.len() >= 2,
        header.len() >= 2 + spec_ext_len(header[1]),
{
    if spec_ext_len(header[1]) == 2 {
        spec_be16(header.subrange(2, 4))
    } else if spec_ext_len(header[1]) == 8 {
        spec_be64(header.subrange(2, 10))
    } else {
        (header[1] & 0x7f) as nat
    }
}

/// The frame at the start of `data` and the number of bytes it takes, or the
/// reason why there is none. Bytes after the frame are not looked at.
pub open spec fn spec_parse(data: Seq<u8>) -> Result<(FrameView, nat), FrameError> {
    if data.len() < 2 {
        Err(FrameError::ShortHeader)
    } else if data.len() < 2 + spec_ext_len(data[1]) {
        Err(FrameError::ShortLength)
    } else if data.len() < spec_header_len(data[1]) {
        Err(FrameError::ShortMask)
    } else if data.len() < spec_header_len(data[1]) + spec_payload_len(data) {
        Err(FrameError::ShortPayload)
    } else {
        let start = spec_header_len(data[1]) as int;
        let end = start + spec_payload_len(data);
        Ok(
            (
                FrameView {
                    is_final: data[0] >> 7 != 0,
                    opcode: OpCode::spec_from_code(data[0] & 0x0f),
                    mask: if spec_mask_len(data[1]) == 4 {
                        Some(data.subrange(start - 4, start))
                    } else {
                        None
                    },
                    payload: data.subrange(start, end),
                },
                end as nat,
            ),
        )
    }
}

/// The second header byte and the extended length for a payload of `n` bytes:
/// the literal form below 126, the two-byte form up to the ceiling, the
/// eight-byte form above it. `mask_bit` is 0x80 for a masked frame, else 0.
pub open spec fn spec_length_field(mask_bit: u8, n: nat) -> Seq<u8>
    recommends
        n <= u64::MAX,
{
    if n < 126 {
        seq![(n as u8) | mask_bit]
    } else if n <= EXTENDED_16_CEILING {
        seq![126u8 | mask_bit] + spec_be16_bytes(n)
    } else {
        seq![127u8 | mask_bit] + spec_be64_bytes(n)
    }
}

/// The wire bytes of a frame.
pub open spec fn spec_serialize(f: FrameView) -> Seq<u8> {
    let fin: u8 = if f.is_final { 0x80 } else { 0x00 };
    let mask_bit: u8 = if f.mask is Some { 0x80 } else { 0x00 };
    let key = if f.mask is Some { f.mask->Some_0 } else { Seq::<u8>::empty() };
    seq![fin | f.opcode.spec_code()] + spec_length_field(mask_bit, f.payload.len()) + key + f.payload
}

/// The length of a whole header, known once its second byte is read.
pub fn header_len(second: u8) -> (n: usize)
    ensures
        n == spec_header_len(second),
        2 <= n <= 14,
{
    let sel = second & 0x7f;
    let ext: usize = if sel == 126 { 2 } else if sel == 127 { 8 } else { 0 };
    let key: usize = if second >> 7 != 0 { 4 } else { 0 };
    2 + ext + key
}

/// The payload length that a header announces, or the reason why `header`
/// does not reach as far as its length field.
pub fn payload_len(header: &[u8]) -> (r: Result<u64, FrameError>)
    ensures
        header@.len() < 2 ==> r == Err::<u64, FrameError>(FrameError::ShortHeader),
        header@.len() >= 2 && header@.len() < 2 + spec_ext_len(header@[1]) ==> r == Err::<u64, FrameError>(
            FrameError::ShortLength,
        ),
        header@.len() >= 2 && header@.len() >= 2 + spec_ext_len(header@[1]) ==> r == Ok::<u64, FrameError>(
            spec_payload_len(header@) as u64,
        ) && spec_payload_len(header@) <= u64::MAX,
{
    if header.len() < 2 {
        return Err(FrameError::ShortHeader);
    }
    let sel = header[1] & 0x7f;
    if sel == 126 {
        if header.len() < 4 {
            return Err(FrameError::ShortLength);
        }
        let n: u64 = (header[2] as u64) * 256 + (header[3] as u64);
        Ok(n)
    } else if sel == 127 {
        if header.len() < 10 {
            return Err(FrameError::ShortLength);
        }
        let mut n: u64 = header[2] as u64;
        n = n * 256 + header[3] as u64;
        n = n * 256 + header[4] as u64;
        n = n * 256 + header[5] as u64;
        n = n * 256 + header[6] as u64;
        n = n * 256 + header[7] as u64;
        n = n * 256 + header[8] as u64;
        n = n * 256 + header[9] as u64;
        Ok(n)
    } else {
        Ok(sel as u64)
    }
}

impl Frame {
    /// Reads the frame at the start of `data`. A sequence that ends before the
    /// frame does is refused; bytes after the frame are left alone.
    pub fn try_parse_from(data: &[u8]) -> (r: Result<Frame, FrameError>)
        ensures
            match spec_parse(data@) {
                Ok((f, _)) => r is Ok && r->Ok_0@ == f,
                Err(e) => r == Err::<Frame, FrameError>(e),
            },
    {
        match Self::parse_prefix(data) {
            Ok((frame, _)) => Ok(frame),
            Err(e) => Err(e),
        }
    }

    /// Reads the frame at the start of `data` and says how many bytes it took.
    pub fn parse_prefix(data: &[u8]) -> (r: Result<(Frame, usize), FrameError>)
        ensures
            match spec_parse(data@) {
                Ok((f, n)) => r is Ok && r->Ok_0.0@ == f && r->Ok_0.1 == n && n <= data@.len(),
                Err(e) => r == Err::<(Frame, usize), FrameError>(e),
            },
    {
        let announced = match payload_len(data) {
            Ok(n) => n,
            Err(e) => {
                return Err(e);
            },
        };
        let start = header_len(data[1]);
        if data.len() < start {
            return Err(FrameError::ShortMask);
        }
        if announced > (data.len() - start) as u64 {
            return Err(FrameError::ShortPayload);
        }
        let end: usize = start + announced as usize;
        let low = data[0] & 0x0f;
        proof {
            let b = data@[0];
            assert(b & 0x0f < 16) by (bit_vector);
        }
        let opcode = OpCode::from_low_bits(low);
        let mask = if data[1] >> 7 != 0 {
            let key: [u8; 4] = [data[start - 4], data[start - 3], data[start - 2], data[start - 1]];
            assert(key@ =~= data@.subrange(start - 4, start as int));
            Some(key)
        } else {
            None
        };
        let payload = vstd::slice::slice_to_vec(vstd::slice::slice_subrange(data, start, end));
        Ok((Frame { is_final: data[0] >> 7 != 0, opcode, mask, payload }, end))
    }

    /// Appends the frame's wire bytes to `dest`.
    pub fn write_to(self, dest: &mut Vec<u8>)
        ensures
            final(dest)@ == old(dest)@ + spec_serialize(self@),
    {
        let ghost before = dest@;
        let code: u8 = self.opcode.into();
        let fin: u8 = if self.is_final { 0x80 } else { 0x00 };
        dest.push(fin | code);
        let mask_bit: u8 = if self.mask.is_some() { 0x80 } else { 0x00 };
        push_length_field(dest, mask_bit, self.payload.len());
        let ghost head = seq![fin | code] + spec_length_field(mask_bit, self.payload@.len());
        assert(dest@ =~= before + head);
        match self.mask {
            Some(key) => {
                dest.push(key[0]);
                dest.push(key[1]);
                dest.push(key[2]);
                dest.push(key[3]);
                assert(dest@ =~= before + head + key@);
            },
            None => {
                assert(dest@ =~= before + head + Seq::<u8>::empty());
            },
        }
        dest.extend_from_slice(self.payload.as_slice());
        assert(dest@ =~= before + spec_serialize(self@));
    }
}

/// Appends the second header byte and the extended length for `n` payload
/// bytes.
fn push_length_field(dest: &mut Vec<u8>, mask_bit: u8, n: usize)
    ensures
        final(dest)@ == old(dest)@ + spec_length_field(mask_bit, n as nat),
{
    let ghost before = dest@;
    if n < 126 {
        dest.push(n as u8 | mask_bit);
        assert(dest@ =~= before + spec_length_field(mask_bit, n as nat));
    } else if n <= EXTENDED_16_CEILING {
        dest.push(126 | mask_bit);
        dest.push((n / 256) as u8);
        dest.push((n % 256) as u8);
        assert(dest@ =~= before + spec_length_field(mask_bit, n as nat));
    } else {
        dest.push(127 | mask_bit);
        push_be64(dest, n as u64);
        assert(dest@ =~= before + spec_length_field(mask_bit, n as nat));
    }
}

/// Appends the eight bytes that stand for `w`, most significant first.
fn push_be64(dest: &mut Vec<u8>, w: u64)
    ensures
        final(dest)@ == old(dest)@ + spec_be64_bytes(w as nat),
{
    let ghost before = dest@;
    let q1: u64 = w / 256;
    let q2: u64 = q1 / 256;
    let q3: u64 = q2 / 256;
    let q4: u64 = q3 / 256;
    let q5: u64 = q4 / 256;
    let q6: u64 = q5 / 256;
    let q7: u64 = q6 / 256;
    dest.push((q7 % 256) as u8);
    dest.push((q6 % 256) as u8);
    dest.push((q5 % 256) as u8);
    dest.push((q4 % 256) as u8);
    dest.push((q3 % 256) as u8);
    dest.push((q2 % 256) as u8);
    dest.push((q1 % 256) as u8);
    dest.push((w % 256) as u8);
    assert(dest@ =~= before + spec_be64_bytes(w as nat));
}

/// The first header byte gives back the final flag and the code.
proof fn lemma_first_byte(fin: u8, code: u8)
    requires
        fin == 0x80 || fin == 0x00,
        code < 16,
    ensures
        ((fin | code) >> 7 != 0) == (fin == 0x80),
        (fin | code) & 0x0f == code,
{
    assert(code < 16 && (fin == 0x80 || fin == 0x00) ==> (((fin | code) >> 7 != 0) == (fin == 0x80)) && (fin
        | code) & 0x0f == code) by (bit_vector);
}

/// The second header byte gives back the mask bit and the length selector.
proof fn lemma_second_byte(mask_bit: u8, sel: u8)
    requires
        mask_bit == 0x80 || mask_bit == 0x00,
        sel < 128,
    ensures
        ((sel | mask_bit) >> 7 != 0) == (mask_bit == 0x80),
        (sel | mask_bit) & 0x7f == sel,
{
    assert(sel < 128 && (mask_bit == 0x80 || mask_bit == 0x00) ==> (((sel | mask_bit) >> 7 != 0) == (mask_bit
        == 0x80)) && (sel | mask_bit) & 0x7f == sel) by (bit_vector);
}

/// An opcode in its range is the one that its code names.
pub proof fn lemma_code_round_trip(op: OpCode)
    requires
        op.wf(),
    ensures
        op.spec_code() < 16,
        OpCode::spec_from_code(op.spec_code()) == op,
{
}

/// Two bytes written for a number read back as that number.
pub proof fn lemma_be16_round_trip(n: nat)
    requires
        n < 0x1_0000,
    ensures
        spec_be16(spec_be16_bytes(n)) == n,
{
}

/// Eight bytes written for a number read back as that number.
pub proof fn lemma_be64_round_trip(n: nat)
    requires
        n <= u64::MAX,
    ensures
        spec_be64(spec_be64_bytes(n)) == n,
{
}

/// How long the wire form of a frame is: the two header bytes, the extended
/// length that the payload's size selects, the key, the payload.
pub proof fn lemma_serialized_len(f: FrameView)
    requires
        f.wf(),
    ensures
        spec_serialize(f).len() == 2 + (if f.payload.len() < 126 {
            0nat
        } else if f.payload.len() <= EXTENDED_16_CEILING {
            2nat
        } else {
            8nat
        }) + (if f.mask is Some {
            4nat
        } else {
            0nat
        }) + f.payload.len(),
        spec_serialize(f).len() == spec_header_len(spec_serialize(f)[1]) + f.payload.len(),
        spec_ext_len(spec_serialize(f)[1]) == (if f.payload.len() < 126 {
            0nat
        } else if f.payload.len() <= EXTENDED_16_CEILING {
            2nat
        } else {
            8nat
        }),
        spec_mask_len(spec_serialize(f)[1]) == (if f.mask is Some {
            4nat
        } else {
            0nat
        }),
{
    let mask_bit: u8 = if f.mask is Some { 0x80 } else { 0x00 };
    let n = f.payload.len();
    let sel: u8 = if n < 126 { n as u8 } else if n <= EXTENDED_16_CEILING { 126 } else { 127 };
    lemma_second_byte(mask_bit, sel);
    assert(spec_serialize(f)[1] == sel | mask_bit);
}

/// Serializing a frame and parsing the bytes, with whatever follows them,
/// gives the frame back, and the parser takes exactly the frame's bytes.
pub proof fn lemma_parse_serialize(f: FrameView, rest: Seq<u8>)
    requires
        f.wf(),
    ensures
        spec_parse(spec_serialize(f) + rest) == Ok::<(FrameView, nat), FrameError>(
            (f, spec_serialize(f).len()),
        ),
{
    let fin: u8 = if f.is_final { 0x80 } else { 0x00 };
    let mask_bit: u8 = if f.mask is Some { 0x80 } else { 0x00 };
    let key = if f.mask is Some { f.mask->Some_0 } else { Seq::<u8>::empty() };
    let n = f.payload.len();
    let sel: u8 = if n < 126 { n as u8 } else if n <= EXTENDED_16_CEILING { 126 } else { 127 };
    let wire = spec_serialize(f);
    let data = wire + rest;
    lemma_code_round_trip(f.opcode);
    lemma_first_byte(fin, f.opcode.spec_code());
    lemma_second_byte(mask_bit, sel);
    lemma_serialized_len(f);
    assert(data[0] == fin | f.opcode.spec_code());
    assert(data[1] == sel | mask_bit);
    let start = spec_header_len(data[1]) as int;
    if n < 126 {
    } else if n <= EXTENDED_16_CEILING {
        lemma_be16_round_trip(n);
        assert(data.subrange(2, 4) =~= spec_be16_bytes(n));
    } else {
        lemma_be64_round_trip(n);
        assert(data.subrange(2, 10) =~= spec_be64_bytes(n));
    }
    assert(spec_payload_len(data) == n);
    assert(data.subrange(start, start + n) =~= f.payload);
    if f.mask is Some {
        assert(data.subrange(start - 4, start) =~= key);
    }
}

} // verus!
