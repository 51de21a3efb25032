//! Length-prefixed framing: every message on the wire is a four-byte
//! big-endian length followed by exactly that many payload bytes.

use vstd::prelude::*;

verus! {

/// Number of bytes of the length prefix.
pub const HEADER_LEN: usize = 4;

/// A framed message that cannot be written or read as the protocol asks.
#[derive(Clone, Copy, Debug, PartialEq, Eq, Structural)]
pub enum ProtocolError {
    /// The payload is longer than a length prefix can say.
    Oversized,
    /// Fewer bytes are there than the message needs.
    Truncated,
    /// The bytes are all there and do not make up the expected message.
    Malformed,
    /// More bytes were handed over than the message takes.
    Excess,
}

/// The four bytes of `n`, most significant first.
pub open spec fn be32(n: u32) -> Seq<u8> {
    seq![
        (n / 0x100_0000) as u8,
        (n / 0x1_0000 % 0x100) as u8,
        (n / 0x100 % 0x100) as u8,
        (n % 0x100) as u8,
    ]
}

/// The number that the first four bytes of `b` spell, most significant first.
pub open spec fn be32_value(b: Seq<u8>) -> int {
    b[0] as int * 0x100_0000 + b[1] as int * 0x1_0000 + b[2] as int * 0x100 + b[3] as int
}

/// A payload together with its length prefix.
pub open spec fn frame_of(payload: Seq<u8>) -> Seq<u8> {
    be32(payload.len() as u32) + payload
}

/// The first frame of `bytes`: its payload and the number of bytes that it
/// takes, prefix included. `None` if `bytes` ends before the frame does.
pub open spec fn spec_decode_frame(bytes: Seq<u8>) -> Option<(Seq<u8>, nat)> {
    if bytes.len() < 4 {
        None
    } else {
        let declared = be32_value(bytes);
        if bytes.len() - 4 < declared {
            None
        } else {
            Some((bytes.subrange(4, 4 + declared), (4 + declared) as nat))
        }
    }
}

/// The frames of `payloads`, one after the other.
pub open spec fn frames_of(payloads: Seq<Seq<u8>>) -> Seq<u8>
    decreases payloads.len(),
{
    if payloads.len() == 0 {
        Seq::empty()
    } else {
        frame_of(payloads[0]) + frames_of(payloads.subrange(1, payloads.len() as int))
    }
}

/// The payloads of the first `count` frames of `bytes`, in the order in
/// which they stand, and the bytes that follow them. `None` if `bytes`
/// holds fewer complete frames.
pub open spec fn spec_decode_frames(bytes: Seq<u8>, count: nat) -> Option<(Seq<Seq<u8>>, Seq<u8>)>
    decreases count,
{
    if count == 0 {
        Some((Seq::empty(), bytes))
    } else {
        match spec_decode_frame(bytes) {
            None => None,
            Some((payload, used)) => match spec_decode_frames(
                bytes.subrange(used as int, bytes.len() as int),
                (count - 1) as nat,
            ) {
                None => None,
                Some((rest, left)) => Some((seq![payload] + rest, left)),
            },
        }
    }
}

/// The length prefix for a payload of `n` bytes.
pub fn length_prefix(n: u32) -> (header: [u8; 4])
    ensures
        header@ == be32(n),
{
    let header: [u8; 4] = [
        (n / 0x100_0000) as u8,
        (n / 0x1_0000 % 0x100) as u8,
        (n / 0x100 % 0x100) as u8,
        (n % 0x100) as u8,
    ];
    assert(header@ =~= be32(n));
    header
}

/// The length that a prefix declares. `None` unless `header` is exactly
/// four bytes long.
pub fn declared_length(header: &[u8]) -> (declared: Option<u32>)
    ensures
        declared == if header@.len() == 4 {
            Some(be32_value(header@) as u32)
        } else {
            None
        },
        header@.len() == 4 ==> 0 <= be32_value(header@) <= u32::MAX,
{
    if header.len() != HEADER_LEN {
        return None;
    }
    let b0: u32 = header[0] as u32;
    let b1: u32 = header[1] as u32;
    let b2: u32 = header[2] as u32;
    let b3: u32 = header[3] as u32;
    Some(b0 * 0x100_0000 + b1 * 0x1_0000 + b2 * 0x100 + b3)
}

/// Copies `bytes[from..to]`.
fn copy_range(bytes: &[u8], from: usize, to: usize) -> (out: Vec<u8>)
    requires
        from <= to <= bytes@.len(),
    ensures
        out@ == bytes@.subrange(from as int, to as int),
{
    let mut out: Vec<u8> = Vec::new();
    let mut i: usize = from;
    while i < to
        invariant
            from <= i <= to <= bytes@.len(),
            out@ == bytes@.subrange(from as int, i as int),
        decreases to - i,
    {
        out.push(bytes[i]);
        assert(out@ =~= bytes@.subrange(from as int, i + 1));
        i = i + 1;
    }
    out
}

/// Frames a payload: the length prefix, then the payload, as one message.
/// Fails exactly if the payload is longer than a prefix can say.
pub fn encode_frame(payload: &[u8]) -> (frame: Result<Vec<u8>, ProtocolError>)
    ensures
        match frame {
            Ok(bytes) => payload@.len() <= u32::MAX && bytes@ == frame_of(payload@),
            Err(e) => payload@.len() > u32::MAX && e == ProtocolError::Oversized,
        },
{
    if payload.len() > u32::MAX as usize {
        return Err(ProtocolError::Oversized);
    }
    let header: [u8; 4] = length_prefix(payload.len() as u32);
    let mut bytes: Vec<u8> = Vec::new();
    bytes.push(header[0]);
    bytes.push(header[1]);
    bytes.push(header[2]);
    bytes.push(header[3]);
    assert(bytes@ =~= be32(payload@.len() as u32));
    let mut i: usize = 0;
    while i < payload.len()
        invariant
            i <= payload@.len(),
            bytes@ == be32(payload@.len() as u32) + payload@.subrange(0, i as int),
        decreases payload@.len() - i,
    {
        bytes.push(payload[i]);
        assert(bytes@ =~= be32(payload@.len() as u32) + payload@.subrange(0, i + 1));
        i = i + 1;
    }
    assert(payload@.subrange(0, payload@.len() as int) =~= payload@);
    Ok(bytes)
}

/// Number of bytes that a receiver holding `pending` still needs to
/// complete the message: the rest of the prefix, or the rest of the
/// payload that the prefix declares.
pub open spec fn spec_missing(pending: Seq<u8>) -> nat {
    if pending.len() < 4 {
        (4 - pending.len()) as nat
    } else {
        (4 + be32_value(pending) - pending.len()) as nat
    }
}

/// What a receiver holding `pending` does with the next `chunk` of the
/// stream: what it holds afterwards and the payload that is complete, if
/// one is. More bytes than are missing are refused.
pub open spec fn spec_accept(pending: Seq<u8>, chunk: Seq<u8>) -> Result<
    (Seq<u8>, Option<Seq<u8>>),
    ProtocolError,
> {
    if chunk.len() > spec_missing(pending) {
        Err(ProtocolError::Excess)
    } else {
        match spec_decode_frame(pending + chunk) {
            Some((payload, _)) => Ok((Seq::empty(), Some(payload))),
            None => Ok((pending + chunk, None)),
        }
    }
}

/// Assembles one message after the other from the bytes of a stream, in
/// whatever portions they arrive. Its view is the bytes taken since the
/// last message was complete.
pub struct FrameReader {
    declared: Option<u32>,
    partial: Vec<u8>,
}

impl View for FrameReader {
    type V = Seq<u8>;

    closed spec fn view(&self) -> Seq<u8> {
        match self.declared {
            Some(d) => be32(d) + self.partial@,
            None => self.partial@,
        }
    }
}

impl FrameReader {
    /// The invariant of a reader: it holds the beginning of a message and
    /// never a whole one.
    pub closed spec fn wf(&self) -> bool {
        match self.declared {
            Some(d) => self.partial@.len() < d,
            None => self.partial@.len() < 4,
        }
    }

    /// A reader at the start of a message.
    pub fn new() -> (reader: FrameReader)
        ensures
            reader.wf(),
            reader@ == Seq::<u8>::empty(),
    {
        FrameReader { declared: None, partial: Vec::new() }
    }

    /// A well-formed reader holds no whole message, and what it holds fits
    /// in front of what is missing.
    pub proof fn lemma_holds_no_whole_frame(&self)
        requires
            self.wf(),
        ensures
            spec_decode_frame(self@) is None,
            spec_missing(self@) > 0,
            self@.len() >= 4 ==> self@.len() + spec_missing(self@) == 4 + be32_value(self@),
    {
        self.lemma_view();
    }

    proof fn lemma_view(&self)
        ensures
            match self.declared {
                Some(d) => self@.len() == 4 + self.partial@.len() && be32_value(self@) == d,
                None => self@ == self.partial@,
            },
    {
        match self.declared {
            Some(d) => {
                lemma_prefix_round_trip(d);
                assert(self@.subrange(0, 4) =~= be32(d).subrange(0, 4));
                lemma_value_of_prefix(self@, be32(d));
            },
            None => {},
        }
    }

    /// True if the reader stands between two messages.
    pub fn at_boundary(&self) -> (yes: bool)
        requires
            self.wf(),
        ensures
            yes == (self@.len() == 0),
    {
        proof {
            self.lemma_view();
        }
        match self.declared {
            Some(_) => false,
            None => self.partial.len() == 0,
        }
    }

    /// Number of bytes that complete the message; the caller reads at most
    /// that many before the next call of `accept`.
    pub fn wanted(&self) -> (n: usize)
        requires
            self.wf(),
        ensures
            n == spec_missing(self@),
            n > 0,
    {
        proof {
            self.lemma_view();
        }
        match self.declared {
            Some(d) => d as usize - self.partial.len(),
            None => HEADER_LEN - self.partial.len(),
        }
    }

    /// Takes the bytes that were read, at most as many as are missing.
    /// While the message is incomplete they are kept. When they complete
    /// it, the payload is handed out and the reader stands at the start
    /// of the next message. The declared length is believed, whatever it
    /// is. More bytes than are missing are refused and change nothing.
    pub fn accept(&mut self, chunk: &[u8]) -> (payload: Result<Option<Vec<u8>>, ProtocolError>)
        requires
            old(self).wf(),
        ensures
            final(self).wf(),
            spec_accept(old(self)@, chunk@) == match payload {
                Ok(Some(p)) => Ok::<(Seq<u8>, Option<Seq<u8>>), ProtocolError>(
                    (Seq::empty(), Some(p@)),
                ),
                Ok(None) => Ok((final(self)@, None)),
                Err(e) => Err(e),
            },
            match payload {
                Ok(Some(p)) => {
                    &&& chunk@.len() == spec_missing(old(self)@)
                    &&& old(self)@.len() + chunk@.len() >= 4
                    &&& spec_decode_frame(old(self)@ + chunk@) == Some(
                        (p@, (old(self)@ + chunk@).len()),
                    )
                    &&& old(self)@ + chunk@ == frame_of(p@)
                    &&& final(self)@ == Seq::<u8>::empty()
                },
                Ok(None) => {
                    &&& chunk@.len() <= spec_missing(old(self)@)
                    &&& spec_decode_frame(old(self)@ + chunk@) is None
                    &&& final(self)@ == old(self)@ + chunk@
                },
                Err(e) => {
                    &&& chunk@.len() > spec_missing(old(self)@)
                    &&& e == ProtocolError::Excess
                    &&& final(self)@ == old(self)@
                },
            },
    {
        proof {
            self.lemma_holds_no_whole_frame();
            self.lemma_view();
        }
        if chunk.len() > self.wanted() {
            return Err(ProtocolError::Excess);
        }
        let ghost before = self@;
        let ghost held = self.partial@;
        self.partial.extend_from_slice(chunk);
        assert(self.partial@ =~= held + chunk@);
        match self.declared {
            None => {
                assert(self@ =~= before + chunk@);
                match declared_length(self.partial.as_slice()) {
                    Some(d) => {
                        proof {
                            lemma_value_round_trip(self.partial@);
                        }
                        if d == 0 {
                            self.partial = Vec::new();
                            let payload: Vec<u8> = Vec::new();
                            assert((before + chunk@).subrange(4, 4) =~= payload@);
                            assert(frame_of(payload@) =~= be32(0));
                            assert(before + chunk@ =~= frame_of(payload@));
                            assert(self@ =~= Seq::<u8>::empty());
                            Ok(Some(payload))
                        } else {
                            self.declared = Some(d);
                            self.partial = Vec::new();
                            assert(self@ =~= before + chunk@);
                            proof {
                                self.lemma_view();
                            }
                            Ok(None)
                        }
                    },
                    None => Ok(None),
                }
            },
            Some(d) => {
                assert(self@ =~= before + chunk@);
                proof {
                    lemma_prefix_round_trip(d);
                    self.lemma_view();
                }
                if self.partial.len() == d as usize {
                    let mut payload: Vec<u8> = Vec::new();
                    core::mem::swap(&mut payload, &mut self.partial);
                    self.declared = None;
                    assert((before + chunk@).subrange(4, 4 + d) =~= payload@);
                    assert(before + chunk@ =~= frame_of(payload@));
                    assert(self@ =~= Seq::<u8>::empty());
                    Ok(Some(payload))
                } else {
                    Ok(None)
                }
            },
        }
    }
}

/// Reads the first frame of `bytes`: its payload and the number of bytes
/// that the frame takes. Fails exactly if `bytes` ends before the frame
/// does.
pub fn decode_frame(bytes: &[u8]) -> (frame: Result<(Vec<u8>, usize), ProtocolError>)
    ensures
        match frame {
            Ok((payload, used)) => {
                &&& spec_decode_frame(bytes@) == Some((payload@, used as nat))
                &&& used == 4 + payload@.len()
                &&& used <= bytes@.len()
            },
            Err(e) => spec_decode_frame(bytes@) is None && e == ProtocolError::Truncated,
        },
{
    if bytes.len() < HEADER_LEN {
        return Err(ProtocolError::Truncated);
    }
    let header: &[u8] = vstd::slice::slice_subrange(bytes, 0, HEADER_LEN);
    proof {
        assert(header@.subrange(0, 4) =~= bytes@.subrange(0, 4));
        lemma_value_of_prefix(header@, bytes@);
    }
    let declared: usize = match declared_length(header) {
        Some(d) => d as usize,
        None => {
            return Err(ProtocolError::Truncated);
        },
    };
    if bytes.len() - HEADER_LEN < declared {
        return Err(ProtocolError::Truncated);
    }
    let payload: Vec<u8> = copy_range(bytes, HEADER_LEN, HEADER_LEN + declared);
    Ok((payload, HEADER_LEN + declared))
}

/// A length prefix has four bytes and spells the length that it was made
/// from.
pub proof fn lemma_prefix_round_trip(n: u32)
    ensures
        be32(n).len() == 4,
        be32_value(be32(n)) == n,
{
}

/// The number that bytes spell fits in 32 bits.
pub proof fn lemma_value_bounds(b: Seq<u8>)
    ensures
        0 <= be32_value(b) <= u32::MAX,
{
    lemma_base_256_digits(b[0] as int, b[1] as int, b[2] as int, b[3] as int);
}

/// The number that bytes spell depends on their first four only.
pub proof fn lemma_value_of_prefix(a: Seq<u8>, b: Seq<u8>)
    requires
        a.len() >= 4,
        b.len() >= 4,
        a.subrange(0, 4) == b.subrange(0, 4),
    ensures
        be32_value(a) == be32_value(b),
{
    assert(a[0] == a.subrange(0, 4)[0] && b[0] == b.subrange(0, 4)[0]);
    assert(a[1] == a.subrange(0, 4)[1] && b[1] == b.subrange(0, 4)[1]);
    assert(a[2] == a.subrange(0, 4)[2] && b[2] == b.subrange(0, 4)[2]);
    assert(a[3] == a.subrange(0, 4)[3] && b[3] == b.subrange(0, 4)[3]);
}

/// Four digits of base 256 are the digits of the number that they spell.
pub proof fn lemma_base_256_digits(b0: int, b1: int, b2: int, b3: int)
    requires
        0 <= b0 < 256,
        0 <= b1 < 256,
        0 <= b2 < 256,
        0 <= b3 < 256,
    ensures
        ({
            let v = b0 * 0x100_0000 + b1 * 0x1_0000 + b2 * 0x100 + b3;
            &&& 0 <= v <= u32::MAX
            &&& v / 0x100_0000 == b0
            &&& v / 0x1_0000 % 0x100 == b1
            &&& v / 0x100 % 0x100 == b2
            &&& v % 0x100 == b3
        }),
{
    let v = b0 * 0x100_0000 + b1 * 0x1_0000 + b2 * 0x100 + b3;
    let low3 = b1 * 0x1_0000 + b2 * 0x100 + b3;
    assert(v / 0x100_0000 == b0) by {
        assert(0 <= low3 < 0x100_0000);
    }
    assert(v / 0x1_0000 == b0 * 0x100 + b1) by {
        assert(0 <= b2 * 0x100 + b3 < 0x1_0000);
    }
    assert(v / 0x100 == b0 * 0x1_0000 + b1 * 0x100 + b2);
}

/// Four bytes are the prefix of the length that they spell.
pub proof fn lemma_value_round_trip(b: Seq<u8>)
    requires
        b.len() == 4,
    ensures
        0 <= be32_value(b) <= u32::MAX,
        be32(be32_value(b) as u32) == b,
{
    lemma_base_256_digits(b[0] as int, b[1] as int, b[2] as int, b[3] as int);
    let n = be32_value(b) as u32;
    assert(be32(n)[0] == b[0]);
    assert(be32(n)[1] == b[1]);
    assert(be32(n)[2] == b[2]);
    assert(be32(n)[3] == b[3]);
    assert(be32(n) =~= b);
}

/// Decoding what was encoded gives the payload back, whatever follows the
/// frame, and takes exactly the frame. This holds for every payload that a
/// prefix can describe, the empty one included.
pub proof fn lemma_frame_round_trip(payload: Seq<u8>, rest: Seq<u8>)
    requires
        payload.len() <= u32::MAX,
    ensures
        frame_of(payload).len() == 4 + payload.len(),
        spec_decode_frame(frame_of(payload) + rest) == Some((payload, (4 + payload.len()) as nat)),
        (frame_of(payload) + rest).subrange(
            4 + payload.len() as int,
            (frame_of(payload) + rest).len() as int,
        ) == rest,
{
    let n = payload.len() as u32;
    let bytes = frame_of(payload) + rest;
    lemma_prefix_round_trip(n);
    assert(bytes.subrange(0, 4) =~= be32(n).subrange(0, 4));
    lemma_value_of_prefix(bytes, be32(n));
    assert(be32_value(bytes) == n);
    assert(bytes.subrange(4, 4 + n) =~= payload);
    assert(bytes.subrange(4 + payload.len() as int, bytes.len() as int) =~= rest);
}

/// Bytes that decode to one frame and nothing more are the frame of the
/// payload that they decode to.
pub proof fn lemma_whole_frame(bytes: Seq<u8>)
    requires
        spec_decode_frame(bytes) is Some,
        spec_decode_frame(bytes)->Some_0.1 == bytes.len(),
    ensures
        bytes == frame_of(spec_decode_frame(bytes)->Some_0.0),
        spec_decode_frame(bytes)->Some_0.0.len() <= u32::MAX,
{
    let header = bytes.subrange(0, 4);
    lemma_value_round_trip(header);
    assert(header.subrange(0, 4) =~= bytes.subrange(0, 4));
    lemma_value_of_prefix(header, bytes);
    let payload = spec_decode_frame(bytes)->Some_0.0;
    assert(bytes =~= frame_of(payload));
}

/// A receiver that holds no whole message and takes no more than is
/// missing hands out a payload exactly when what it holds is that
/// payload's frame, no byte more.
pub proof fn lemma_accept_completes_exactly(pending: Seq<u8>, chunk: Seq<u8>)
    requires
        spec_decode_frame(pending) is None,
        chunk.len() <= spec_missing(pending),
    ensures
        match spec_accept(pending, chunk) {
            Ok((rest, Some(payload))) => {
                &&& rest.len() == 0
                &&& payload.len() <= u32::MAX
                &&& pending + chunk == frame_of(payload)
            },
            Ok((rest, None)) => rest == pending + chunk && spec_decode_frame(rest) is None,
            Err(_) => false,
        },
{
    let all = pending + chunk;
    lemma_value_bounds(all);
    lemma_value_bounds(pending);
    if spec_decode_frame(all) is Some {
        if pending.len() >= 4 {
            assert(all.subrange(0, 4) =~= pending.subrange(0, 4));
            lemma_value_of_prefix(all, pending);
        }
        assert(all.len() == 4 + be32_value(all));
        lemma_whole_frame(all);
    }
}

/// The portions in which the bytes of a message arrive do not matter:
/// taking `a` and then `b` gives what taking both at once gives, and `a`
/// alone completes nothing while bytes are still missing.
pub proof fn lemma_accept_in_portions(pending: Seq<u8>, a: Seq<u8>, b: Seq<u8>)
    requires
        spec_decode_frame(pending) is None,
        a.len() + b.len() <= spec_missing(pending),
        b.len() > 0,
    ensures
        spec_accept(pending, a) == Ok::<(Seq<u8>, Option<Seq<u8>>), ProtocolError>(
            (pending + a, None),
        ),
        spec_decode_frame(pending + a) is None,
        spec_missing(pending + a) == spec_missing(pending) - a.len(),
        spec_accept(pending + a, b) == spec_accept(pending, a + b),
{
    let mid = pending + a;
    lemma_value_bounds(pending);
    lemma_value_bounds(mid);
    lemma_accept_completes_exactly(pending, a);
    if pending.len() >= 4 {
        assert(mid.subrange(0, 4) =~= pending.subrange(0, 4));
        lemma_value_of_prefix(mid, pending);
    }
    if spec_decode_frame(mid) is Some {
        lemma_whole_frame_is_exact(pending, a);
    }
    assert(mid + b =~= pending + (a + b));
}

proof fn lemma_whole_frame_is_exact(pending: Seq<u8>, chunk: Seq<u8>)
    requires
        spec_decode_frame(pending) is None,
        chunk.len() <= spec_missing(pending),
        spec_decode_frame(pending + chunk) is Some,
    ensures
        chunk.len() == spec_missing(pending),
{
    let all = pending + chunk;
    lemma_value_bounds(all);
    lemma_value_bounds(pending);
    if pending.len() >= 4 {
        assert(all.subrange(0, 4) =~= pending.subrange(0, 4));
        lemma_value_of_prefix(all, pending);
    }
}

/// The frames of a sequence with one more payload at its end are the
/// frames of the sequence followed by the frame of that payload.
pub proof fn lemma_frames_of_push(payloads: Seq<Seq<u8>>, last: Seq<u8>)
    ensures
        frames_of(payloads.push(last)) == frames_of(payloads) + frame_of(last),
    decreases payloads.len(),
{
    let all = payloads.push(last);
    if payloads.len() == 0 {
        assert(all.subrange(1, all.len() as int) =~= Seq::<Seq<u8>>::empty());
        assert(frames_of(all.subrange(1, all.len() as int)) =~= Seq::<u8>::empty());
        assert(frames_of(all) =~= frame_of(last));
        assert(frames_of(payloads) + frame_of(last) =~= frame_of(last));
    } else {
        let others = payloads.subrange(1, payloads.len() as int);
        lemma_frames_of_push(others, last);
        assert(all.subrange(1, all.len() as int) =~= others.push(last));
        assert(frames_of(all) =~= frame_of(payloads[0]) + (frames_of(others) + frame_of(last)));
        assert(frames_of(payloads) + frame_of(last) =~= frame_of(payloads[0]) + (frames_of(
            others,
        ) + frame_of(last)));
    }
}

/// Frames sent one after the other are received one after the other:
/// reading as many frames as were written gives the same payloads in the
/// same order, none missing, none twice, and leaves what followed them.
pub proof fn lemma_frames_keep_order(payloads: Seq<Seq<u8>>, rest: Seq<u8>)
    requires
        forall|i: int| 0 <= i < payloads.len() ==> (#[trigger] payloads[i]).len() <= u32::MAX,
    ensures
        spec_decode_frames(frames_of(payloads) + rest, payloads.len()) == Some((payloads, rest)),
    decreases payloads.len(),
{
    if payloads.len() == 0 {
        assert(frames_of(payloads) + rest =~= rest);
        assert(payloads =~= Seq::<Seq<u8>>::empty());
    } else {
        let first = payloads[0];
        let others = payloads.subrange(1, payloads.len() as int);
        let tail = frames_of(others) + rest;
        let bytes = frames_of(payloads) + rest;
        assert(bytes =~= frame_of(first) + tail);
        lemma_frame_round_trip(first, tail);
        assert forall|i: int| 0 <= i < others.len() implies (#[trigger] others[i]).len()
            <= u32::MAX by {
            assert(others[i] == payloads[i + 1]);
        }
        lemma_frames_keep_order(others, rest);
        assert(seq![first] + others =~= payloads);
    }
}

} // verus!
