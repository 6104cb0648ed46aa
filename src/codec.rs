//! MQTT framing: the fixed header byte, the remaining length in its 1 to 4
//! byte variable-length form, and the body. Splitting a byte stream into
//! frames and building a frame are inverse to each other.

use vstd::prelude::*;

verus! {

/// The largest remaining length MQTT can express.
pub const MAX_REMAINING_LENGTH: u32 = 268_435_455;

/// What a remaining-length field decodes to.
#[derive(Clone, Copy, Debug, PartialEq, Eq, Structural)]
pub enum RemainingLength {
    /// More bytes are needed.
    Incomplete,
    /// Four bytes all ask for a fifth: not MQTT.
    Malformed,
    /// The length and the number of bytes it took.
    Value(u32, usize),
}

/// The remaining length at the start of `b`.
pub open spec fn spec_decode_rl(b: Seq<u8>) -> RemainingLength {
    if b.len() < 1 {
        RemainingLength::Incomplete
    } else if b[0] < 128 {
        RemainingLength::Value(b[0] as u32, 1)
    } else if b.len() < 2 {
        RemainingLength::Incomplete
    } else if b[1] < 128 {
        RemainingLength::Value((b[0] - 128 + 128 * b[1]) as u32, 2)
    } else if b.len() < 3 {
        RemainingLength::Incomplete
    } else if b[2] < 128 {
        RemainingLength::Value((b[0] - 128 + 128 * (b[1] - 128) + 16384 * b[2]) as u32, 3)
    } else if b.len() < 4 {
        RemainingLength::Incomplete
    } else if b[3] < 128 {
        RemainingLength::Value(
            (b[0] - 128 + 128 * (b[1] - 128) + 16384 * (b[2] - 128) + 2097152 * b[3]) as u32,
            4,
        )
    } else {
        RemainingLength::Malformed
    }
}

/// Decodes the remaining length that starts at `start` in `buf`.
pub fn decode_remaining_length(buf: &Vec<u8>, start: usize) -> (r: RemainingLength)
    requires
        start <= buf@.len(),
    ensures
        r == spec_decode_rl(buf@.subrange(start as int, buf@.len() as int)),
{
    let ghost b = buf@.subrange(start as int, buf@.len() as int);
    let n = buf.len() - start;
    if n < 1 {
        return RemainingLength::Incomplete;
    }
    let b0 = buf[start];
    if b0 < 128 {
        return RemainingLength::Value(b0 as u32, 1);
    }
    if n < 2 {
        return RemainingLength::Incomplete;
    }
    let b1 = buf[start + 1];
    if b1 < 128 {
        return RemainingLength::Value((b0 as u32 - 128) + 128 * (b1 as u32), 2);
    }
    if n < 3 {
        return RemainingLength::Incomplete;
    }
    let b2 = buf[start + 2];
    if b2 < 128 {
        return RemainingLength::Value((b0 as u32 - 128) + 128 * (b1 as u32 - 128) + 16384 * (b2 as u32), 3);
    }
    if n < 4 {
        return RemainingLength::Incomplete;
    }
    let b3 = buf[start + 3];
    if b3 < 128 {
        return RemainingLength::Value(
            (b0 as u32 - 128) + 128 * (b1 as u32 - 128) + 16384 * (b2 as u32 - 128) + 2097152 * (b3 as u32),
            4,
        );
    }
    RemainingLength::Malformed
}

/// The bytes of a remaining length: seven bits each, least significant
/// first, the high bit set on all but the last.
pub open spec fn spec_encode_rl(len: u32) -> Seq<u8> {
    if len < 128 {
        seq![len as u8]
    } else if len < 16384 {
        seq![(len % 128 + 128) as u8, (len / 128) as u8]
    } else if len < 2097152 {
        seq![(len % 128 + 128) as u8, ((len / 128) % 128 + 128) as u8, (len / 16384) as u8]
    } else {
        seq![
            (len % 128 + 128) as u8,
            ((len / 128) % 128 + 128) as u8,
            ((len / 16384) % 128 + 128) as u8,
            (len / 2097152) as u8,
        ]
    }
}

/// Decoding an encoded remaining length gives it back, with the number of
/// bytes it took, whatever follows it.
pub proof fn lemma_remaining_length_round_trip(len: u32, rest: Seq<u8>)
    requires
        len <= MAX_REMAINING_LENGTH,
    ensures
        1 <= spec_encode_rl(len).len() <= 4,
        spec_decode_rl(spec_encode_rl(len) + rest) == RemainingLength::Value(
            len,
            spec_encode_rl(len).len() as usize,
        ),
{
    let e = spec_encode_rl(len);
    let b = e + rest;
    if len < 128 {
        assert(b[0] == e[0]);
    } else if len < 16384 {
        assert(len == len % 128 + 128 * (len / 128)) by (nonlinear_arith);
        assert(b[0] == e[0] && b[1] == e[1]);
    } else if len < 2097152 {
        assert(len == len % 128 + 128 * ((len / 128) % 128) + 16384 * (len / 16384)) by (nonlinear_arith)
            requires len >= 0;
        assert(b[0] == e[0] && b[1] == e[1] && b[2] == e[2]);
    } else {
        assert(len == len % 128 + 128 * ((len / 128) % 128) + 16384 * ((len / 16384) % 128) + 2097152 * (len / 2097152)) by (nonlinear_arith)
            requires len >= 0;
        assert(len / 2097152 < 128) by (nonlinear_arith)
            requires len <= 268_435_455;
        assert(b[0] == e[0] && b[1] == e[1] && b[2] == e[2] && b[3] == e[3]);
    }
}

/// Encodes a remaining length in as few bytes as it takes.
pub fn encode_remaining_length(len: u32) -> (r: Vec<u8>)
    requires
        len <= MAX_REMAINING_LENGTH,
    ensures
        r@ == spec_encode_rl(len),
{
    let mut r: Vec<u8> = Vec::new();
    if len < 128 {
        r.push(len as u8);
    } else if len < 16384 {
        r.push((len % 128) as u8 + 128);
        r.push((len / 128) as u8);
    } else if len < 2097152 {
        r.push((len % 128) as u8 + 128);
        r.push(((len / 128) % 128) as u8 + 128);
        r.push((len / 16384) as u8);
    } else {
        proof {
            assert(len / 2097152 < 128) by (nonlinear_arith)
                requires len <= 268_435_455;
        }
        r.push((len % 128) as u8 + 128);
        r.push(((len / 128) % 128) as u8 + 128);
        r.push(((len / 16384) % 128) as u8 + 128);
        r.push((len / 2097152) as u8);
    }
    proof {
        assert(r@ =~= spec_encode_rl(len));
    }
    r
}

/// Where a frame lies at the start of a buffer.
#[derive(Clone, Copy, Debug, PartialEq, Eq, Structural)]
pub enum FrameSplit {
    /// More bytes are needed.
    Incomplete,
    /// The remaining length is not MQTT.
    Malformed,
    /// A whole frame: its header byte, where its body starts, and its length.
    Frame { header: u8, body_start: usize, total: usize },
}

/// The frame at the start of `buf`.
pub open spec fn spec_split(buf: Seq<u8>) -> FrameSplit {
    if buf.len() == 0 {
        FrameSplit::Incomplete
    } else {
        match spec_decode_rl(buf.subrange(1, buf.len() as int)) {
            RemainingLength::Incomplete => FrameSplit::Incomplete,
            RemainingLength::Malformed => FrameSplit::Malformed,
            RemainingLength::Value(v, k) => if buf.len() < 1 + k + v {
                FrameSplit::Incomplete
            } else {
                FrameSplit::Frame { header: buf[0], body_start: (1 + k) as usize, total: (1 + k + v) as usize }
            },
        }
    }
}

/// Finds the frame at the start of a buffer.
pub fn split_frame(buf: &Vec<u8>) -> (r: FrameSplit)
    ensures
        r == spec_split(buf@),
{
    if buf.len() == 0 {
        return FrameSplit::Incomplete;
    }
    match decode_remaining_length(buf, 1) {
        RemainingLength::Incomplete => FrameSplit::Incomplete,
        RemainingLength::Malformed => FrameSplit::Malformed,
        RemainingLength::Value(v, k) => {
            proof {
                assert(k <= 4);
            }
            if buf.len() - 1 - k < v as usize {
                FrameSplit::Incomplete
            } else {
                FrameSplit::Frame { header: buf[0], body_start: 1 + k, total: 1 + k + v as usize }
            }
        },
    }
}

/// The bytes of a frame.
pub open spec fn spec_frame(header: u8, body: Seq<u8>) -> Seq<u8> {
    seq![header] + spec_encode_rl(body.len() as u32) + body
}

/// Builds a frame from its header byte and body.
pub fn encode_frame(header: u8, body: &Vec<u8>) -> (r: Vec<u8>)
    requires
        body@.len() <= MAX_REMAINING_LENGTH,
    ensures
        r@ == spec_frame(header, body@),
{
    let mut r: Vec<u8> = Vec::new();
    r.push(header);
    let mut rl = encode_remaining_length(body.len() as u32);
    r.append(&mut rl);
    let mut i: usize = 0;
    let ghost head = r@;
    while i < body.len()
        invariant
            i <= body@.len(),
            r@ == head + body@.take(i as int),
        decreases body@.len() - i,
    {
        r.push(body[i]);
        proof {
            assert(body@.take(i as int + 1) =~= body@.take(i as int).push(body@[i as int]));
        }
        i = i + 1;
    }
    proof {
        assert(body@.take(body@.len() as int) =~= body@);
        assert(head =~= seq![header] + spec_encode_rl(body@.len() as u32));
    }
    r
}

/// Splitting a built frame gives back its header and exactly its body, for
/// every body within the size bound, whatever bytes follow the frame.
pub proof fn lemma_frame_round_trip(header: u8, body: Seq<u8>, rest: Seq<u8>)
    requires
        body.len() <= MAX_REMAINING_LENGTH,
    ensures
        ({
            let buf = spec_frame(header, body) + rest;
            let k = spec_encode_rl(body.len() as u32).len() as int;
            &&& spec_split(buf) == (FrameSplit::Frame {
                header,
                body_start: (1 + k) as usize,
                total: (1 + k + body.len()) as usize,
            })
            &&& buf.subrange(1 + k, 1 + k + body.len() as int) == body
        }),
{
    let e = spec_encode_rl(body.len() as u32);
    let buf = spec_frame(header, body) + rest;
    lemma_remaining_length_round_trip(body.len() as u32, body + rest);
    assert(buf.subrange(1, buf.len() as int) =~= e + (body + rest));
    assert(buf.subrange(1 + e.len() as int, 1 + e.len() + body.len() as int) =~= body);
}

} // verus!
