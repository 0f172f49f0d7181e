//! Framing for the video broadcast that rides on the relay.
//!
//! The relay accepts at most 65535 bytes in a message, and an H264 keyframe
//! can exceed that. Access units are cut into chunks that carry enough header
//! to be put back together; a receiver that misses any chunk of a frame throws
//! the whole frame away.
//!
//! Chunk layout: `VERSION`, flags, `seq` (u32 LE), `index` (u16 LE),
//! `count` (u16 LE), then the payload.

use vstd::prelude::*;

verus! {

/// Bytes of payload per chunk, leaving a wide margin below the relay's
/// ceiling for its own framing and the address.
pub const MAX_CHUNK_PAYLOAD: usize = 60_000;

/// Wire format version, so a console can refuse a stream it does not
/// understand instead of rendering noise.
pub const VERSION: u8 = 1;

/// Header bytes ahead of each chunk's payload.
pub const HEADER_LEN: usize = 10;

/// Flag bit set on every chunk of an IDR frame.
pub const FLAG_KEYFRAME: u8 = 1;

/// One chunk's header, as parsed off the wire.
#[derive(Debug, Clone, Copy, PartialEq, Eq, Structural)]
pub struct ChunkHeader {
    /// Which access unit this belongs to. Wraps.
    pub seq: u32,
    pub index: u16,
    pub count: u16,
    /// Whether the frame this chunk belongs to is an IDR.
    pub keyframe: bool,
}

/// Little-endian bytes of a `u16`.
pub open spec fn le_u16(x: u16) -> Seq<u8> {
    seq![(x % 256) as u8, (x / 256) as u8]
}

/// Little-endian bytes of a `u32`.
pub open spec fn le_u32(x: u32) -> Seq<u8> {
    seq![
        (x % 256) as u8,
        ((x / 256) % 256) as u8,
        ((x / 65536) % 256) as u8,
        (x / 16777216) as u8,
    ]
}

/// The `u16` whose little-endian bytes are `lo`, `hi`.
pub open spec fn from_le_u16(lo: u8, hi: u8) -> u16 {
    (lo + 256 * hi) as u16
}

/// The `u32` whose little-endian bytes are `b0` .. `b3`.
pub open spec fn from_le_u32(b0: u8, b1: u8, b2: u8, b3: u8) -> u32 {
    (b0 + 256 * b1 + 65536 * b2 + 16777216 * b3) as u32
}

/// The flags byte of a chunk.
pub open spec fn flags_byte(keyframe: bool) -> u8 {
    if keyframe { FLAG_KEYFRAME } else { 0 }
}

/// The header bytes that precede a chunk's payload.
pub open spec fn header_bytes(h: ChunkHeader) -> Seq<u8> {
    seq![VERSION, flags_byte(h.keyframe)] + le_u32(h.seq) + le_u16(h.index) + le_u16(h.count)
}

/// How many chunks an access unit of `len` bytes needs.
pub open spec fn chunk_count(len: nat) -> nat {
    if len % (MAX_CHUNK_PAYLOAD as nat) == 0 {
        len / (MAX_CHUNK_PAYLOAD as nat)
    } else {
        len / (MAX_CHUNK_PAYLOAD as nat) + 1
    }
}

/// The payload of chunk `i` of an access unit.
pub open spec fn chunk_payload(access_unit: Seq<u8>, i: int) -> Seq<u8> {
    let start = i * MAX_CHUNK_PAYLOAD;
    let end = if start + MAX_CHUNK_PAYLOAD <= access_unit.len() {
        start + MAX_CHUNK_PAYLOAD
    } else {
        access_unit.len() as int
    };
    access_unit.subrange(start, end)
}

/// Whether `fragment` sends anything for an access unit of `len` bytes: it
/// must be non-empty and its chunk count must fit the 16-bit counter.
pub open spec fn is_sendable(len: nat) -> bool {
    len > 0 && chunk_count(len) <= u16::MAX
}

/// The chunks `fragment` produces.
pub open spec fn spec_fragment(seq: u32, keyframe: bool, access_unit: Seq<u8>) -> Seq<Seq<u8>> {
    let count = chunk_count(access_unit.len());
    if !is_sendable(access_unit.len()) {
        Seq::empty()
    } else {
        Seq::new(
            count,
            |i: int|
                header_bytes(
                    ChunkHeader { seq, index: i as u16, count: count as u16, keyframe },
                ) + chunk_payload(access_unit, i),
        )
    }
}

/// What `parse` makes of a chunk: its header and payload, or `None` for
/// anything too short, of an unknown version, or self-contradictory.
pub open spec fn spec_parse(chunk: Seq<u8>) -> Option<(ChunkHeader, Seq<u8>)> {
    if chunk.len() < HEADER_LEN || chunk[0] != VERSION {
        None
    } else {
        let header = ChunkHeader {
            seq: from_le_u32(chunk[2], chunk[3], chunk[4], chunk[5]),
            index: from_le_u16(chunk[6], chunk[7]),
            count: from_le_u16(chunk[8], chunk[9]),
            keyframe: chunk[1] & FLAG_KEYFRAME != 0,
        };
        if header.count == 0 || header.index >= header.count {
            None
        } else {
            Some((header, chunk.subrange(HEADER_LEN as int, chunk.len() as int)))
        }
    }
}

fn push_le_u16(out: &mut Vec<u8>, x: u16)
    ensures
        final(out)@ == old(out)@ + le_u16(x),
{
    out.push((x % 256) as u8);
    out.push((x / 256) as u8);
    assert(final(out)@ =~= old(out)@ + le_u16(x));
}

fn push_le_u32(out: &mut Vec<u8>, x: u32)
    ensures
        final(out)@ == old(out)@ + le_u32(x),
{
    out.push((x % 256) as u8);
    out.push(((x / 256) % 256) as u8);
    out.push(((x / 65536) % 256) as u8);
    out.push((x / 16777216) as u8);
    assert(final(out)@ =~= old(out)@ + le_u32(x));
}

/// Cut one access unit into chunks that fit the relay's message ceiling.
///
/// An empty access unit yields no chunks, and so does one needing more chunks
/// than the 16-bit counter can name, which could not be reassembled.
pub fn fragment(seq: u32, keyframe: bool, access_unit: &[u8]) -> (chunks: Vec<Vec<u8>>)
    ensures
        chunks@.len() == spec_fragment(seq, keyframe, access_unit@).len(),
        forall|i: int|
            0 <= i < chunks@.len() ==> #[trigger] chunks@[i]@ == spec_fragment(
                seq,
                keyframe,
                access_unit@,
            )[i],
{
    let len = access_unit.len();
    let mut chunks: Vec<Vec<u8>> = Vec::new();
    if len == 0 {
        return chunks;
    }
    let count: usize = if len % MAX_CHUNK_PAYLOAD == 0 {
        len / MAX_CHUNK_PAYLOAD
    } else {
        len / MAX_CHUNK_PAYLOAD + 1
    };
    if count > 65535 {
        return chunks;
    }
    let ghost spec_chunks = spec_fragment(seq, keyframe, access_unit@);
    let mut index: usize = 0;
    while index < count
        invariant
            count == chunk_count(len as nat),
            len == access_unit@.len(),
            is_sendable(len as nat),
            spec_chunks == spec_fragment(seq, keyframe, access_unit@),
            index <= count,
            chunks@.len() == index,
            forall|i: int| 0 <= i < index ==> #[trigger] chunks@[i]@ == spec_chunks[i],
        decreases count - index,
    {
        let start: usize = index * MAX_CHUNK_PAYLOAD;
        let end: usize = if len - start <= MAX_CHUNK_PAYLOAD {
            len
        } else {
            start + MAX_CHUNK_PAYLOAD
        };
        let mut chunk: Vec<u8> = Vec::new();
        chunk.push(VERSION);
        chunk.push(if keyframe { FLAG_KEYFRAME } else { 0 });
        push_le_u32(&mut chunk, seq);
        push_le_u16(&mut chunk, index as u16);
        push_le_u16(&mut chunk, count as u16);
        let ghost header = chunk@;
        let mut j: usize = start;
        while j < end
            invariant
                start <= j <= end <= access_unit@.len(),
                chunk@ == header + access_unit@.subrange(start as int, j as int),
            decreases end - j,
        {
            chunk.push(access_unit[j]);
            j += 1;
            assert(chunk@ =~= header + access_unit@.subrange(start as int, j as int));
        }
        assert(chunk@ =~= spec_chunks[index as int]);
        chunks.push(chunk);
        index += 1;
    }
    chunks
}


/// Read a chunk's header and borrow its payload. `None` for anything too
/// short, of an unknown version, or self-contradictory.
pub fn parse(chunk: &[u8]) -> (parsed: Option<(ChunkHeader, &[u8])>)
    ensures
        parsed is Some <==> spec_parse(chunk@) is Some,
        parsed matches Some((header, payload)) ==> spec_parse(chunk@) == Some((header, payload@)),
{
    if chunk.len() < HEADER_LEN || chunk[0] != VERSION {
        return None;
    }
    let seq: u32 = chunk[2] as u32 + 256 * chunk[3] as u32 + 65536 * chunk[4] as u32
        + 16777216 * chunk[5] as u32;
    let index: u16 = chunk[6] as u16 + 256 * chunk[7] as u16;
    let count: u16 = chunk[8] as u16 + 256 * chunk[9] as u16;
    let header = ChunkHeader { seq, index, count, keyframe: chunk[1] & FLAG_KEYFRAME != 0 };
    if header.count == 0 || header.index >= header.count {
        return None;
    }
    Some((header, &chunk[HEADER_LEN..chunk.len()]))
}

/// The payload `parse` finds in each chunk, or nothing for a chunk it rejects.
pub open spec fn parsed_payloads(chunks: Seq<Seq<u8>>) -> Seq<Seq<u8>> {
    chunks.map_values(
        |c: Seq<u8>|
            match spec_parse(c) {
                Some((_, payload)) => payload,
                None => Seq::<u8>::empty(),
            },
    )
}

/// What a receiver rebuilds from a frame's chunks: their payloads in order.
pub open spec fn reassemble(chunks: Seq<Seq<u8>>) -> Seq<u8> {
    parsed_payloads(chunks).flatten()
}

proof fn lemma_le_u16(x: u16)
    ensures
        from_le_u16(le_u16(x)[0], le_u16(x)[1]) == x,
{
}

proof fn lemma_le_u32(x: u32)
    ensures
        from_le_u32(le_u32(x)[0], le_u32(x)[1], le_u32(x)[2], le_u32(x)[3]) == x,
{
}

proof fn lemma_flags(keyframe: bool)
    ensures
        (flags_byte(keyframe) & FLAG_KEYFRAME != 0) == keyframe,
{
    assert(1u8 & 1u8 != 0) by (bit_vector);
    assert(0u8 & 1u8 == 0) by (bit_vector);
}

/// The header written ahead of a payload is read back unchanged, and the
/// payload after it is returned as it was, whenever the header names a chunk
/// inside its frame.
pub proof fn lemma_parse_header(h: ChunkHeader, payload: Seq<u8>)
    requires
        h.count > 0,
        h.index < h.count,
    ensures
        spec_parse(header_bytes(h) + payload) == Some((h, payload)),
{
    let chunk = header_bytes(h) + payload;
    lemma_le_u16(h.index);
    lemma_le_u16(h.count);
    lemma_le_u32(h.seq);
    lemma_flags(h.keyframe);
    assert(chunk.subrange(HEADER_LEN as int, chunk.len() as int) =~= payload);
}

proof fn lemma_flatten_from(access_unit: Seq<u8>, i: int)
    requires
        is_sendable(access_unit.len()),
        0 <= i <= chunk_count(access_unit.len()),
    ensures
        Seq::new(
            (chunk_count(access_unit.len()) - i) as nat,
            |j: int| chunk_payload(access_unit, i + j),
        ).flatten() =~= access_unit.subrange(
            if i * MAX_CHUNK_PAYLOAD <= access_unit.len() {
                i * MAX_CHUNK_PAYLOAD
            } else {
                access_unit.len() as int
            },
            access_unit.len() as int,
        ),
    decreases chunk_count(access_unit.len()) - i,
{
    let count = chunk_count(access_unit.len());
    let rest = Seq::new((count - i) as nat, |j: int| chunk_payload(access_unit, i + j));
    if i < count {
        lemma_flatten_from(access_unit, i + 1);
        let next = Seq::new((count - (i + 1)) as nat, |j: int| chunk_payload(access_unit, i + 1 + j));
        assert(rest.drop_first() =~= next);
    } else {
        assert(rest =~= Seq::<Seq<u8>>::empty());
    }
}

/// Every chunk is a header for its place in the frame followed by its slice of
/// the access unit, and `parse` reads each one back as exactly that.
pub proof fn lemma_fragment_chunks_parse(seq: u32, keyframe: bool, access_unit: Seq<u8>, i: int)
    requires
        is_sendable(access_unit.len()),
        0 <= i < chunk_count(access_unit.len()),
    ensures
        spec_parse(spec_fragment(seq, keyframe, access_unit)[i]) == Some(
            (
                ChunkHeader {
                    seq,
                    index: i as u16,
                    count: chunk_count(access_unit.len()) as u16,
                    keyframe,
                },
                chunk_payload(access_unit, i),
            ),
        ),
        spec_fragment(seq, keyframe, access_unit)[i].len() <= HEADER_LEN + MAX_CHUNK_PAYLOAD,
{
    let count = chunk_count(access_unit.len());
    let h = ChunkHeader { seq, index: i as u16, count: count as u16, keyframe };
    lemma_parse_header(h, chunk_payload(access_unit, i));
}

/// A receiver that gets every chunk of a frame rebuilds the access unit
/// byte for byte, and no chunk exceeds the relay's message budget.
pub proof fn lemma_fragment_reassembles(seq: u32, keyframe: bool, access_unit: Seq<u8>)
    requires
        is_sendable(access_unit.len()),
    ensures
        reassemble(spec_fragment(seq, keyframe, access_unit)) == access_unit,
        forall|i: int|
            0 <= i < spec_fragment(seq, keyframe, access_unit).len() ==> (
            #[trigger] spec_fragment(seq, keyframe, access_unit)[i]).len() <= HEADER_LEN
                + MAX_CHUNK_PAYLOAD,
{
    let chunks = spec_fragment(seq, keyframe, access_unit);
    let count = chunk_count(access_unit.len());
    let payloads = Seq::new(count, |j: int| chunk_payload(access_unit, j));
    assert forall|i: int| 0 <= i < count implies #[trigger] parsed_payloads(chunks)[i]
        == payloads[i] && chunks[i].len() <= HEADER_LEN + MAX_CHUNK_PAYLOAD by {
        lemma_fragment_chunks_parse(seq, keyframe, access_unit, i);
    }
    assert(parsed_payloads(chunks) =~= payloads);
    lemma_flatten_from(access_unit, 0);
    assert(Seq::new((count - 0) as nat, |j: int| chunk_payload(access_unit, 0 + j)) =~= payloads);
    assert(access_unit.subrange(0, access_unit.len() as int) =~= access_unit);
}

} // verus!
