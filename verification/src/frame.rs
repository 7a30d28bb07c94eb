use vstd::prelude::*;
use vstd::utf8::{decode_utf8, encode_utf8, valid_utf8};
use crate::error::SessionError;

verus! {

// A transport delivers an undifferentiated byte stream, so message
// boundaries are imposed here: each message travels as one frame, a
// 32-bit big-endian length prefix followed by exactly that many payload
// bytes. The scheme is unambiguous for every payload, so no byte value
// is reserved and no escaping is needed.

/// The four big-endian bytes of a 32-bit length.
pub open spec fn be32_bytes(n: u32) -> Seq<u8> {
    seq![(n >> 24) as u8, (n >> 16) as u8, (n >> 8) as u8, n as u8]
}

/// The 32-bit value read back from four big-endian bytes.
pub open spec fn be32_value(b: Seq<u8>) -> u32
    recommends
        b.len() == 4,
{
    (((b[0] as u32) << 24) | ((b[1] as u32) << 16) | ((b[2] as u32) << 8) | (b[3] as u32))
}

pub proof fn lemma_be32_round_trip(n: u32)
    ensures
        be32_value(be32_bytes(n)) == n,
{
    assert((((((n >> 24) as u8) as u32) << 24) | ((((n >> 16) as u8) as u32) << 16) | ((((n
        >> 8) as u8) as u32) << 8) | ((n as u8) as u32)) == n) by (bit_vector);
}

/// One frame: the payload's length as four big-endian bytes, then the payload.
pub open spec fn frame_spec(m: Seq<u8>) -> Seq<u8>
    recommends
        m.len() <= 0xFFFF_FFFF,
{
    be32_bytes(m.len() as u32) + m
}

/// The payload length announced by a buffer's first four bytes.
pub open spec fn frame_len(b: Seq<u8>) -> int
    recommends
        b.len() >= 4,
{
    be32_value(b.subrange(0, 4)) as int
}

/// Whether a buffer begins with a complete frame.
pub open spec fn has_complete_frame(b: Seq<u8>) -> bool {
    b.len() >= 4 && b.len() >= 4 + frame_len(b)
}

/// The payload of the complete frame at the front of a buffer.
pub open spec fn frame_payload(b: Seq<u8>) -> Seq<u8>
    recommends
        has_complete_frame(b),
{
    b.subrange(4, 4 + frame_len(b))
}

/// What is left of a buffer once its first frame is removed.
pub open spec fn frame_rest(b: Seq<u8>) -> Seq<u8>
    recommends
        has_complete_frame(b),
{
    b.subrange(4 + frame_len(b), b.len() as int)
}

/// A frame followed by any further bytes parses back to exactly its
/// payload and leaves exactly those further bytes.
pub proof fn lemma_frame_parse(m: Seq<u8>, rest: Seq<u8>)
    requires
        m.len() <= 0xFFFF_FFFF,
    ensures
        has_complete_frame(frame_spec(m) + rest),
        frame_payload(frame_spec(m) + rest) == m,
        frame_rest(frame_spec(m) + rest) == rest,
{
    let b = frame_spec(m) + rest;
    lemma_be32_round_trip(m.len() as u32);
    assert(b.subrange(0, 4) =~= be32_bytes(m.len() as u32));
    assert(frame_payload(b) =~= m);
    assert(frame_rest(b) =~= rest);
}

/// Framing round-trip: a message written as one frame is read back
/// unchanged, with nothing left over. A `FrameReader` sees only the
/// concatenation of what was fed to it, so this holds however the bytes
/// were fragmented in transit.
pub proof fn lemma_framing_round_trip(m: Seq<u8>)
    requires
        m.len() <= 0xFFFF_FFFF,
    ensures
        has_complete_frame(frame_spec(m)),
        frame_payload(frame_spec(m)) == m,
        frame_rest(frame_spec(m)) == Seq::<u8>::empty(),
{
    lemma_frame_parse(m, Seq::empty());
    assert(frame_spec(m) + Seq::<u8>::empty() =~= frame_spec(m));
}

/// Framing round-trip for text: a UTF-8 string written as one frame is
/// read back and decoded to exactly the same string.
pub proof fn lemma_message_round_trip(s: Seq<char>)
    requires
        encode_utf8(s).len() <= 0xFFFF_FFFF,
    ensures
        has_complete_frame(frame_spec(encode_utf8(s))),
        valid_utf8(frame_payload(frame_spec(encode_utf8(s)))),
        decode_utf8(frame_payload(frame_spec(encode_utf8(s)))) == s,
        frame_rest(frame_spec(encode_utf8(s))) == Seq::<u8>::empty(),
{
    lemma_framing_round_trip(encode_utf8(s));
    vstd::utf8::encode_utf8_valid_utf8(s);
    vstd::utf8::encode_utf8_decode_utf8(s);
}

/// Boundary non-merge: two messages framed back-to-back are read back as
/// the first, then the second — never a concatenation, never a split.
pub proof fn lemma_boundary_non_merge(m1: Seq<u8>, m2: Seq<u8>)
    requires
        m1.len() <= 0xFFFF_FFFF,
        m2.len() <= 0xFFFF_FFFF,
    ensures
        ({
            let b = frame_spec(m1) + frame_spec(m2);
            &&& has_complete_frame(b)
            &&& frame_payload(b) == m1
            &&& frame_rest(b) == frame_spec(m2)
            &&& has_complete_frame(frame_rest(b))
            &&& frame_payload(frame_rest(b)) == m2
            &&& frame_rest(frame_rest(b)) == Seq::<u8>::empty()
        }),
{
    lemma_frame_parse(m1, frame_spec(m2));
    lemma_framing_round_trip(m2);
}

/// A whole sequence of messages, framed back to back on the stream.
pub open spec fn frames_spec(msgs: Seq<Seq<u8>>) -> Seq<u8>
    decreases msgs.len(),
{
    if msgs.len() == 0 {
        Seq::empty()
    } else {
        frame_spec(msgs[0]) + frames_spec(msgs.drop_first())
    }
}

/// Every message fits one frame's length prefix.
pub open spec fn all_frameable(msgs: Seq<Seq<u8>>) -> bool {
    forall|i: int| 0 <= i < msgs.len() ==> #[trigger] msgs[i].len() <= 0xFFFF_FFFF
}

/// The messages read back from a buffer, one complete frame at a time.
pub open spec fn decode_frames(b: Seq<u8>) -> Seq<Seq<u8>>
    decreases b.len(),
{
    if has_complete_frame(b) {
        seq![frame_payload(b)] + decode_frames(frame_rest(b))
    } else {
        Seq::empty()
    }
}

/// No merge and no split, for any number of messages: a stream holding
/// exactly a sequence of framed messages reads back as exactly those
/// messages, in order.
pub proof fn lemma_frames_decode(msgs: Seq<Seq<u8>>)
    requires
        all_frameable(msgs),
    ensures
        decode_frames(frames_spec(msgs)) == msgs,
    decreases msgs.len(),
{
    if msgs.len() == 0 {
        assert(!has_complete_frame(frames_spec(msgs)));
        assert(decode_frames(frames_spec(msgs)) =~= msgs);
    } else {
        let m = msgs[0];
        let rest = frames_spec(msgs.drop_first());
        assert(m.len() <= 0xFFFF_FFFF);
        lemma_frame_parse(m, rest);
        assert forall|i: int| 0 <= i < msgs.drop_first().len() implies #[trigger] msgs.drop_first()[i].len()
            <= 0xFFFF_FFFF by {
            assert(msgs.drop_first()[i] == msgs[i + 1]);
        }
        lemma_frames_decode(msgs.drop_first());
        assert(seq![m] + msgs.drop_first() =~= msgs);
    }
}

/// Encode one message as a frame.
pub fn encode_frame(m: &[u8]) -> (r: Vec<u8>)
    requires
        m@.len() <= 0xFFFF_FFFF,
    ensures
        r@ == frame_spec(m@),
{
    let n = m.len() as u32;
    let mut r: Vec<u8> = Vec::new();
    r.push((n >> 24) as u8);
    r.push((n >> 16) as u8);
    r.push((n >> 8) as u8);
    r.push(n as u8);
    proof {
        assert(r@ =~= be32_bytes(n));
    }
    let mut i: usize = 0;
    while i < m.len()
        invariant
            i <= m@.len(),
            m@.len() <= 0xFFFF_FFFF,
            n == m@.len() as u32,
            r@ == be32_bytes(n) + m@.subrange(0, i as int),
        decreases m@.len() - i,
    {
        r.push(m[i]);
        proof {
            assert(m@.subrange(0, i + 1 as int) =~= m@.subrange(0, i as int).push(m@[i as int]));
            assert(r@ =~= be32_bytes(n) + m@.subrange(0, i + 1 as int));
        }
        i += 1;
    }
    proof {
        assert(m@.subrange(0, m@.len() as int) =~= m@);
    }
    r
}

/// Assembles frames out of a byte stream that may arrive in fragments of
/// any size. Feeding only appends to an internal buffer, so how the
/// stream was fragmented cannot change what is read.
pub struct FrameReader {
    buf: Vec<u8>,
}

impl View for FrameReader {
    type V = Seq<u8>;

    closed spec fn view(&self) -> Seq<u8> {
        self.buf@
    }
}

impl FrameReader {
    pub fn new() -> (r: FrameReader)
        ensures
            r@ == Seq::<u8>::empty(),
    {
        FrameReader { buf: Vec::new() }
    }

    /// Append one fragment exactly as it arrived from the transport.
    pub fn feed(&mut self, chunk: &[u8])
        ensures
            final(self)@ == old(self)@ + chunk@,
    {
        let mut i: usize = 0;
        while i < chunk.len()
            invariant
                i <= chunk@.len(),
                self.buf@ == old(self)@ + chunk@.subrange(0, i as int),
            decreases chunk@.len() - i,
        {
            self.buf.push(chunk[i]);
            proof {
                assert(chunk@.subrange(0, i + 1 as int) =~= chunk@.subrange(0, i as int).push(
                    chunk@[i as int],
                ));
                assert(self.buf@ =~= old(self)@ + chunk@.subrange(0, i + 1 as int));
            }
            i += 1;
        }
        proof {
            assert(chunk@.subrange(0, chunk@.len() as int) =~= chunk@);
        }
    }

    /// Remove and return the frame at the front of the buffer, if a
    /// complete one has arrived; otherwise leave the buffer unchanged.
    /// The reader never returns a partial frame and never merges two.
    pub fn try_next(&mut self) -> (r: Option<Vec<u8>>)
        ensures
            match r {
                Option::Some(m) => {
                    &&& has_complete_frame(old(self)@)
                    &&& m@ == frame_payload(old(self)@)
                    &&& final(self)@ == frame_rest(old(self)@)
                },
                Option::None => {
                    &&& !has_complete_frame(old(self)@)
                    &&& final(self)@ == old(self)@
                },
            },
    {
        if self.buf.len() < 4 {
            return None;
        }
        let n32: u32 = ((self.buf[0] as u32) << 24) | ((self.buf[1] as u32) << 16) | ((
        self.buf[2] as u32) << 8) | (self.buf[3] as u32);
        proof {
            assert(self.buf@.subrange(0, 4) =~= seq![
                self.buf@[0],
                self.buf@[1],
                self.buf@[2],
                self.buf@[3],
            ]);
            assert(n32 == be32_value(self.buf@.subrange(0, 4)));
        }
        let n = n32 as usize;
        if self.buf.len() - 4 < n {
            return None;
        }
        let mut payload: Vec<u8> = Vec::new();
        let mut i: usize = 0;
        while i < n
            invariant
                i <= n,
                4 + n <= usize::MAX,
                4 + n <= self.buf@.len(),
                self.buf@ == old(self)@,
                payload@ == self.buf@.subrange(4, 4 + i as int),
            decreases n - i,
        {
            payload.push(self.buf[4 + i]);
            proof {
                assert(self.buf@.subrange(4, 4 + (i + 1) as int) =~= self.buf@.subrange(
                    4,
                    4 + i as int,
                ).push(self.buf@[4 + i as int]));
            }
            i += 1;
        }
        let mut rest: Vec<u8> = Vec::new();
        let mut j: usize = 4 + n;
        while j < self.buf.len()
            invariant
                4 + n <= j <= self.buf@.len(),
                self.buf@ == old(self)@,
                rest@ == self.buf@.subrange(4 + n as int, j as int),
            decreases self.buf@.len() - j,
        {
            rest.push(self.buf[j]);
            proof {
                assert(self.buf@.subrange(4 + n as int, (j + 1) as int) =~= self.buf@.subrange(
                    4 + n as int,
                    j as int,
                ).push(self.buf@[j as int]));
            }
            j += 1;
        }
        self.buf = rest;
        Some(payload)
    }
}

/// Relies on `String::from_utf8`: it returns `Ok` exactly on valid UTF-8
/// input, and the returned string's characters are that input's decoding.
#[verifier::external_body]
fn string_from_utf8_bytes(bytes: Vec<u8>) -> (r: Option<String>)
    ensures
        r is Some <==> valid_utf8(bytes@),
        r matches Some(s) ==> s@ == decode_utf8(bytes@),
{
    match String::from_utf8(bytes) {
        Ok(s) => Some(s),
        Err(_) => None,
    }
}

/// Encode one text message as a frame, ready to be written to the
/// transport in full.
pub fn encode_message(text: &str) -> (r: Vec<u8>)
    requires
        encode_utf8(text@).len() <= 0xFFFF_FFFF,
    ensures
        r@ == frame_spec(encode_utf8(text@)),
{
    encode_frame(text.as_bytes())
}

/// Decode a frame's payload as text. Fails with a framing error exactly
/// when the bytes are not valid UTF-8.
pub fn decode_message(bytes: Vec<u8>) -> (r: Result<String, SessionError>)
    ensures
        r is Ok <==> valid_utf8(bytes@),
        r matches Ok(s) ==> s@ == decode_utf8(bytes@),
        r matches Err(e) ==> e == SessionError::Framing,
{
    match string_from_utf8_bytes(bytes) {
        Some(s) => Ok(s),
        None => Err(SessionError::Framing),
    }
}

} // verus!
