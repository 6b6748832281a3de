//! The framed byte stream: variable-length integers, length-prefixed
//! frames, and the compression header that wraps a frame's body once
//! the compression threshold has been negotiated.

use vstd::prelude::*;

verus! {

/// The canonical variable-length encoding of an unsigned integer:
/// seven bits per byte, least significant group first, high bit set on
/// every byte but the last.
pub open spec fn spec_varint(n: int) -> Seq<u8>
    decreases n,
{
    if n < 0x80 {
        seq![n as u8]
    } else {
        seq![(n % 0x80 + 0x80) as u8] + spec_varint(n / 0x80)
    }
}

/// What reading a variable-length integer from a byte sequence gives.
pub enum VarIntRead {
    /// A value, and how many bytes it took.
    Value { value: u32, consumed: usize },
    /// The bytes run out before the last group.
    Partial,
    /// More than five groups: no 32-bit value is encoded this way.
    Malformed,
}

/// Reading a variable-length integer starting at `start`, with `acc`
/// already holding the groups below `shift`.
pub open spec fn spec_read_varint_from(bytes: Seq<u8>, start: int, shift: int, acc: u32) -> VarIntRead
    decreases 35 - shift,
{
    if !(0 <= shift <= 28) {
        VarIntRead::Malformed
    } else if start >= bytes.len() {
        VarIntRead::Partial
    } else {
        let b = bytes[start];
        let val = acc | (((b & 0x7f) as u32) << shift as u32);
        if b < 0x80 {
            VarIntRead::Value { value: val, consumed: (start + 1) as usize }
        } else if shift >= 28 {
            VarIntRead::Malformed
        } else {
            spec_read_varint_from(bytes, start + 1, shift + 7, val)
        }
    }
}

/// Reading a variable-length integer at the head of a byte sequence.
pub open spec fn spec_read_varint(bytes: Seq<u8>) -> VarIntRead {
    spec_read_varint_from(bytes, 0, 0, 0)
}

/// Append the canonical encoding of `value` to a byte buffer.
pub fn encode_var_u32(value: u32, out: &mut Vec<u8>)
    ensures
        final(out)@ =~= old(out)@ + spec_varint(value as int),
    decreases value,
{
    if value < 0x80 {
        out.push(value as u8);
        proof {
            assert(spec_varint(value as int) =~= seq![value as u8]);
        }
    } else {
        proof {
            assert((value & 0x7f | 0x80) == value % 0x80 + 0x80 && value % 0x80 + 0x80 < 0x100
                && value >> 7 == value / 0x80 && value >> 7 < value) by (bit_vector)
                requires
                    value >= 0x80,
            ;
        }
        out.push((value & 0x7f | 0x80) as u8);
        encode_var_u32(value >> 7, out);
        proof {
            assert(out@ =~= old(out)@ + spec_varint(value as int));
        }
    }
}

/// Read a variable-length integer from the head of a byte slice.
pub fn read_var_u32(bytes: &Vec<u8>) -> (r: VarIntRead)
    ensures
        r == spec_read_varint(bytes@),
{
    let mut start: usize = 0;
    let mut shift: u32 = 0;
    let mut acc: u32 = 0;
    loop
        invariant
            0 <= shift <= 28,
            shift == 7 * start,
            start <= bytes@.len(),
            spec_read_varint(bytes@) == spec_read_varint_from(
                bytes@,
                start as int,
                shift as int,
                acc,
            ),
        decreases 35 - shift,
    {
        if start >= bytes.len() {
            return VarIntRead::Partial;
        }
        let b = bytes[start];
        let val = acc | (((b & 0x7f) as u32) << shift);
        if b < 0x80 {
            return VarIntRead::Value { value: val, consumed: start + 1 };
        }
        if shift >= 28 {
            return VarIntRead::Malformed;
        }
        start = start + 1;
        shift = shift + 7;
        acc = val;
    }
}

/// The canonical encoding decodes to the value it encodes, whatever
/// follows it, as long as it starts below the five-group limit.
pub proof fn lemma_varint_round_trip(n: u32, rest: Seq<u8>)
    ensures
        spec_read_varint(spec_varint(n as int) + rest) == (VarIntRead::Value {
            value: n,
            consumed: spec_varint(n as int).len() as usize,
        }),
{
    assert(0u32 < (1u32 << 0u32) && n == (0u32 | (n << 0u32))) by (bit_vector);
    lemma_varint_round_trip_from(n, rest, 0, 0, 0);
    lemma_varint_len(n as int);
    let enc = spec_varint(n as int);
    assert(enc + rest =~= Seq::new(0, |i: int| 0u8) + enc + rest);
}

/// How many bytes the canonical encoding of a 32-bit value takes.
pub proof fn lemma_varint_len(n: int)
    requires
        0 <= n < 0x1_0000_0000,
    ensures
        spec_varint(n).len() == (if n < 0x80 {
            1int
        } else if n < 0x4000 {
            2int
        } else if n < 0x20_0000 {
            3int
        } else if n < 0x1000_0000 {
            4int
        } else {
            5int
        }),
    decreases n,
{
    if n >= 0x80 {
        lemma_varint_len(n / 0x80);
    }
}

/// Generalisation of the round trip over a partially read prefix.
proof fn lemma_varint_round_trip_from(n: u32, rest: Seq<u8>, start: int, shift: u32, acc: u32)
    requires
        shift <= 28,
        shift % 7 == 0,
        n < (1u32 << ((32 - shift) as u32)) || shift == 0,
        acc < (1u32 << shift),
        start >= 0,
    ensures
        ({
            let enc = spec_varint(n as int);
            forall|bytes: Seq<u8>| bytes =~= Seq::new(start as nat, |i: int| 0u8) + enc + rest
                ==> #[trigger] spec_read_varint_from(bytes, start, shift as int, acc) == (
                VarIntRead::Value {
                    value: (acc | (n << shift as u32)) as u32,
                    consumed: (start + enc.len()) as usize,
                }
            )
        }),
    decreases 35 - shift,
{
    let enc = spec_varint(n as int);
    assert forall|bytes: Seq<u8>| bytes =~= Seq::new(start as nat, |i: int| 0u8) + enc + rest
        implies #[trigger] spec_read_varint_from(bytes, start, shift as int, acc) == (VarIntRead::Value {
        value: (acc | (n << shift as u32)) as u32,
        consumed: (start + enc.len()) as usize,
    }) by {
        let b = bytes[start];
        if n < 0x80 {
            assert(enc =~= seq![n as u8]);
            assert(b == n as u8);
            assert(b < 0x80 && (b & 0x7f) as u32 == n) by (bit_vector)
                requires
                    b == n as u8 && n < 0x80,
            ;
        } else {
            assert(b == (n % 0x80 + 0x80) as u8);
            assert(b >= 0x80 && ((b & 0x7f) as u32) == n % 0x80 && (n >> 7) == n / 0x80)
                by (bit_vector)
                requires
                    b == (n % 0x80 + 0x80) as u8 && n >= 0x80,
            ;
            assert(shift < 28) by (bit_vector)
                requires
                    (n < (1u32 << ((32 - shift) as u32)) || shift == 0) && n >= 0x80 && shift <= 28
                        && shift % 7 == 0,
            ;
            let acc2 = (acc | (((b & 0x7f) as u32) << shift as u32)) as u32;
            let n2 = (n >> 7) as u32;
            let shift7: u32 = (shift + 7) as u32;
            assert(n2 < (1u32 << ((32 - shift7) as u32)) && acc2 < (1u32 << shift7) && (acc2 | (n2
                << shift7)) == (acc | (n << shift))) by (bit_vector)
                requires
                    shift < 28 && shift % 7 == 0 && shift7 == shift + 7 && (n < (1u32 << ((32
                        - shift) as u32)) || shift == 0) && acc < (1u32 << shift) && n >= 0x80
                        && n2 == (n >> 7) as u32 && acc2 == (acc | ((((n % 0x80 + 0x80) as u8
                        & 0x7f) as u32) << shift)) as u32,
            ;
            lemma_varint_round_trip_from(n2, rest, start + 1, shift7, acc2);
            let bytes2 = Seq::new((start + 1) as nat, |i: int| 0u8) + spec_varint(n2 as int)
                + rest;
            assert(forall|k: int| start + 1 <= k < bytes.len() ==> #[trigger] bytes[k] == bytes2[k]);
            assert(spec_read_varint_from(bytes, start + 1, shift as int + 7, acc2)
                == spec_read_varint_from(bytes2, start + 1, shift as int + 7, acc2)) by {
                lemma_read_varint_ignores_prefix(bytes, bytes2, start + 1, shift as int + 7, acc2);
            }
        }
    }
}


/// A successful read consumes at least one byte and never more than
/// are buffered.
pub proof fn lemma_read_varint_bounds(bytes: Seq<u8>, start: int, shift: int, acc: u32)
    requires
        0 <= start,
        bytes.len() <= usize::MAX,
    ensures
        spec_read_varint_from(bytes, start, shift, acc) matches VarIntRead::Value {
            consumed,
            ..
        } ==> start < consumed <= bytes.len(),
    decreases 35 - shift,
{
    if 0 <= shift <= 28 && start < bytes.len() {
        let b = bytes[start];
        if b >= 0x80 && shift < 28 {
            lemma_read_varint_bounds(bytes, start + 1, shift + 7, (acc | (((b & 0x7f) as u32)
                << shift as u32)) as u32);
        }
    }
}

/// How a connection's byte stream is packed: raw frames, or frames
/// whose bodies carry a compression header once the negotiated
/// threshold is active.
#[derive(Clone, Copy, PartialEq, Eq, Structural, Debug)]
pub enum CompressionMode {
    /// No compression negotiated yet.
    Plain,
    /// Bodies at or above the threshold travel deflated; smaller ones
    /// carry a zero marker and travel as they are.
    ZLib { threshold: usize },
}

/// What scanning the head of the byte queue for a frame gives.
pub enum FrameScan {
    /// A whole frame is buffered: `header` length-prefix bytes, then
    /// `len` body bytes.
    Frame { header: usize, len: usize },
    /// Only part of a frame is buffered; try again after more bytes.
    Partial,
    /// The length prefix itself is not a well-formed integer.
    Malformed,
}

/// Scanning the head of a byte sequence for a length-prefixed frame.
pub open spec fn spec_scan_frame(bytes: Seq<u8>) -> FrameScan {
    match spec_read_varint(bytes) {
        VarIntRead::Value { value, consumed } => {
            if consumed + value <= bytes.len() {
                FrameScan::Frame { header: consumed, len: value as usize }
            } else {
                FrameScan::Partial
            }
        },
        VarIntRead::Partial => FrameScan::Partial,
        VarIntRead::Malformed => FrameScan::Malformed,
    }
}

/// Look for a whole frame at the head of the byte queue.
pub fn scan_frame(queue: &Vec<u8>) -> (r: FrameScan)
    ensures
        r == spec_scan_frame(queue@),
{
    let _queue_len = queue.len();
    proof {
        lemma_read_varint_bounds(queue@, 0, 0, 0);
    }
    match read_var_u32(queue) {
        VarIntRead::Value { value, consumed } => {
            if value as usize <= queue.len() - consumed {
                FrameScan::Frame { header: consumed, len: value as usize }
            } else {
                FrameScan::Partial
            }
        },
        VarIntRead::Partial => FrameScan::Partial,
        VarIntRead::Malformed => FrameScan::Malformed,
    }
}

/// Take one whole frame off the head of the byte queue: its body is
/// returned and the header and body leave the queue; with no whole
/// well-formed frame buffered, nothing changes.
pub fn take_frame(queue: &mut Vec<u8>) -> (r: Option<Vec<u8>>)
    ensures
        match spec_scan_frame(old(queue)@) {
            FrameScan::Frame { header, len } => {
                &&& r matches Some(body)
                &&& body@ =~= old(queue)@.subrange(header as int, header + len)
                &&& final(queue)@ =~= old(queue)@.skip(header + len)
            },
            _ => r is None && final(queue)@ == old(queue)@,
        },
{
    let _queue_len = queue.len();
    let scan = scan_frame(queue);
    proof {
        lemma_read_varint_bounds(queue@, 0, 0, 0);
    }
    match scan {
        FrameScan::Frame { header, len } => {
            proof {
                assert(header + len <= queue@.len());
            }
            let mut body: Vec<u8> = Vec::new();
            let mut i: usize = 0;
            while i < len
                invariant
                    queue@.len() <= usize::MAX,
                    header + len <= queue@.len(),
                    i <= len,
                    body@ =~= queue@.subrange(header as int, header + i),
                decreases len - i,
            {
                body.push(queue[header + i]);
                proof {
                    assert(body@ =~= queue@.subrange(header as int, header + i + 1));
                }
                i = i + 1;
            }
            let mut remaining: Vec<u8> = Vec::new();
            let mut j: usize = header + len;
            while j < queue.len()
                invariant
                    header + len <= j <= queue@.len(),
                    remaining@ =~= queue@.subrange(header + len, j as int),
                decreases queue@.len() - j,
            {
                remaining.push(queue[j]);
                proof {
                    assert(remaining@ =~= queue@.subrange(header + len, j + 1));
                }
                j = j + 1;
            }
            proof {
                assert(remaining@ =~= queue@.skip(header + len));
            }
            *queue = remaining;
            Some(body)
        },
        _ => None,
    }
}

/// A frame body once the compression header has been undone.
pub enum BodyDecode {
    /// The plain packet bytes.
    Ready { data: Vec<u8> },
    /// The body is deflated: the declared plain length, and the
    /// compressed bytes for an external inflater.
    NeedsInflate { expected_len: u32, data: Vec<u8> },
    /// The compression header is not a well-formed integer.
    Malformed,
}

/// Undo the compression header of a frame body: without compression
/// the body is the packet; with it, a zero marker precedes a plain
/// packet and anything else declares a deflated one.
pub fn decode_body(mode: &CompressionMode, body: Vec<u8>) -> (r: BodyDecode)
    ensures
        match mode {
            CompressionMode::Plain => r matches BodyDecode::Ready { data } && data@ == body@,
            CompressionMode::ZLib { .. } => match spec_read_varint(body@) {
                VarIntRead::Value { value, consumed } => {
                    if value == 0 {
                        r matches BodyDecode::Ready { data } && data@ =~= body@.skip(
                            consumed as int,
                        )
                    } else {
                        r matches BodyDecode::NeedsInflate { expected_len, data } && expected_len
                            == value && data@ =~= body@.skip(consumed as int)
                    }
                },
                _ => r is Malformed,
            },
        },
{
    match mode {
        CompressionMode::Plain => BodyDecode::Ready { data: body },
        CompressionMode::ZLib { .. } => {
            let _body_len = body.len();
            match read_var_u32(&body) {
                VarIntRead::Value { value, consumed } => {
                    proof {
                        lemma_read_varint_bounds(body@, 0, 0, 0);
                    }
                    let mut data: Vec<u8> = Vec::new();
                    let mut i: usize = consumed;
                    while i < body.len()
                        invariant
                            consumed <= i <= body@.len(),
                            data@ =~= body@.subrange(consumed as int, i as int),
                        decreases body@.len() - i,
                    {
                        data.push(body[i]);
                        proof {
                            assert(data@ =~= body@.subrange(consumed as int, i + 1));
                        }
                        i = i + 1;
                    }
                    proof {
                        assert(data@ =~= body@.skip(consumed as int));
                    }
                    if value == 0 {
                        BodyDecode::Ready { data }
                    } else {
                        BodyDecode::NeedsInflate { expected_len: value, data }
                    }
                },
                VarIntRead::Partial => BodyDecode::Malformed,
                VarIntRead::Malformed => BodyDecode::Malformed,
            }
        },
    }
}

/// The bytes one outbound packet body puts on the wire: the body
/// behind a length prefix, with a zero compression marker once the
/// threshold is active (bodies below the threshold only; larger ones
/// belong to an external deflater).
pub open spec fn spec_encode_frame(mode: CompressionMode, body: Seq<u8>) -> Seq<u8> {
    match mode {
        CompressionMode::Plain => spec_varint(body.len() as int) + body,
        CompressionMode::ZLib { .. } => spec_varint(body.len() as int + 1) + seq![0u8] + body,
    }
}

/// Frame one outbound packet body.
pub fn encode_frame(mode: &CompressionMode, body: &Vec<u8>) -> (r: Vec<u8>)
    requires
        body@.len() + 1 < 0x1_0000_0000,
        mode matches CompressionMode::ZLib { threshold } ==> body@.len() < *threshold,
    ensures
        r@ =~= spec_encode_frame(*mode, body@),
{
    let mut out: Vec<u8> = Vec::new();
    match mode {
        CompressionMode::Plain => {
            encode_var_u32(body.len() as u32, &mut out);
        },
        CompressionMode::ZLib { .. } => {
            encode_var_u32(body.len() as u32 + 1, &mut out);
            out.push(0u8);
        },
    }
    let mut i: usize = 0;
    let ghost prefix = out@;
    while i < body.len()
        invariant
            i <= body@.len(),
            out@ =~= prefix + body@.take(i as int),
        decreases body@.len() - i,
    {
        out.push(body[i]);
        proof {
            assert(out@ =~= prefix + body@.take(i + 1));
        }
        i = i + 1;
    }
    proof {
        assert(body@.take(body@.len() as int) =~= body@);
    }
    out
}

/// A framed body is recovered intact by the frame scanner, whatever
/// bytes follow it on the stream.
pub proof fn lemma_frame_round_trip(mode: CompressionMode, body: Seq<u8>, rest: Seq<u8>)
    requires
        body.len() + 1 < 0x1_0000_0000,
    ensures
        ({
            let framed = spec_encode_frame(mode, body);
            let header = spec_varint(spec_inner_len(mode, body) as int).len();
            spec_scan_frame(framed + rest) == (FrameScan::Frame {
                header: header as usize,
                len: spec_inner_len(mode, body),
            }) && (framed + rest).subrange(header as int, header + spec_inner_len(mode, body))
                =~= framed.skip(header as int)
        }),
{
    let inner_len = spec_inner_len(mode, body);
    let framed = spec_encode_frame(mode, body);
    let tail = match mode {
        CompressionMode::Plain => body,
        CompressionMode::ZLib { .. } => seq![0u8] + body,
    };
    assert(framed =~= spec_varint(inner_len as int) + tail);
    lemma_varint_round_trip(inner_len as u32, tail + rest);
    lemma_varint_len(inner_len as int);
    assert(framed + rest =~= spec_varint(inner_len as int) + (tail + rest));
}

/// Body length on the wire, compression marker included.
pub open spec fn spec_inner_len(mode: CompressionMode, body: Seq<u8>) -> usize {
    match mode {
        CompressionMode::Plain => body.len() as usize,
        CompressionMode::ZLib { .. } => (body.len() + 1) as usize,
    }
}

/// The bytes an outbound body at or above the compression threshold
/// puts on the wire, once an external deflater has compressed it: the
/// plain length and the deflated bytes behind a length prefix.
pub open spec fn spec_encode_frame_deflated(plain_len: u32, deflated: Seq<u8>) -> Seq<u8> {
    spec_varint(spec_varint(plain_len as int).len() + deflated.len() as int) + spec_varint(
        plain_len as int,
    ) + deflated
}

/// Frame one outbound packet body that an external deflater has
/// already compressed. `plain_len` is the body's length before
/// compression; the threshold decision and the deflation itself live
/// with the caller, only the framing is done here.
pub fn encode_frame_deflated(plain_len: u32, deflated: &Vec<u8>) -> (r: Vec<u8>)
    requires
        deflated@.len() + 5 < 0x1_0000_0000,
    ensures
        r@ =~= spec_encode_frame_deflated(plain_len, deflated@),
{
    let mut header: Vec<u8> = Vec::new();
    encode_var_u32(plain_len, &mut header);
    proof {
        lemma_varint_len(plain_len as int);
    }
    let mut out: Vec<u8> = Vec::new();
    encode_var_u32((header.len() + deflated.len()) as u32, &mut out);
    let ghost prefix = out@;
    let mut i: usize = 0;
    while i < header.len()
        invariant
            i <= header@.len(),
            out@ =~= prefix + header@.take(i as int),
        decreases header@.len() - i,
    {
        out.push(header[i]);
        proof {
            assert(out@ =~= prefix + header@.take(i + 1));
        }
        i = i + 1;
    }
    proof {
        assert(header@.take(header@.len() as int) =~= header@);
    }
    let ghost mid = out@;
    let mut j: usize = 0;
    while j < deflated.len()
        invariant
            j <= deflated@.len(),
            out@ =~= mid + deflated@.take(j as int),
        decreases deflated@.len() - j,
    {
        out.push(deflated[j]);
        proof {
            assert(out@ =~= mid + deflated@.take(j + 1));
        }
        j = j + 1;
    }
    proof {
        assert(deflated@.take(deflated@.len() as int) =~= deflated@);
    }
    out
}

/// A full outbound-inbound round trip: a framed body is found by the
/// scanner, and undoing the compression header gives back exactly the
/// packet bytes, whatever follows on the stream.
pub proof fn lemma_codec_round_trip(mode: CompressionMode, body: Seq<u8>, rest: Seq<u8>)
    requires
        body.len() + 1 < 0x1_0000_0000,
    ensures
        ({
            let framed = spec_encode_frame(mode, body);
            let header = spec_varint(spec_inner_len(mode, body) as int).len();
            let inner = (framed + rest).subrange(header as int, header + spec_inner_len(
                mode,
                body,
            ));
            &&& spec_scan_frame(framed + rest) == (FrameScan::Frame {
                header: header as usize,
                len: spec_inner_len(mode, body),
            })
            &&& match mode {
                CompressionMode::Plain => inner =~= body,
                CompressionMode::ZLib { .. } => spec_read_varint(inner) == (VarIntRead::Value {
                    value: 0,
                    consumed: 1,
                }) && inner.skip(1) =~= body,
            }
        }),
{
    lemma_frame_round_trip(mode, body, rest);
    let framed = spec_encode_frame(mode, body);
    let header = spec_varint(spec_inner_len(mode, body) as int).len();
    let inner = (framed + rest).subrange(header as int, header + spec_inner_len(mode, body));
    match mode {
        CompressionMode::Plain => {
            assert(inner =~= body);
        },
        CompressionMode::ZLib { .. } => {
            assert(inner =~= seq![0u8] + body);
            lemma_varint_round_trip(0, body);
            assert(spec_varint(0) =~= seq![0u8]);
            assert(inner.skip(1) =~= body);
        },
    }
}

/// Reading from a position only looks at the bytes from there on.
proof fn lemma_read_varint_ignores_prefix(b1: Seq<u8>, b2: Seq<u8>, start: int, shift: int, acc: u32)
    requires
        b1.len() == b2.len(),
        0 <= start,
        forall|k: int| start <= k < b1.len() ==> #[trigger] b1[k] == b2[k],
    ensures
        spec_read_varint_from(b1, start, shift, acc) == spec_read_varint_from(
            b2,
            start,
            shift,
            acc,
        ),
    decreases 35 - shift,
{
    if 0 <= shift <= 28 && start < b1.len() {
        let b = b1[start];
        if b >= 0x80 && shift < 28 {
            lemma_read_varint_ignores_prefix(b1, b2, start + 1, shift + 7, (acc | (((b & 0x7f) as u32)
                << shift as u32)) as u32);
        }
    }
}

} // verus!
