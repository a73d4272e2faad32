use vstd::prelude::*;
use vstd::slice::slice_subrange;

verus! {

/// First byte of a full-colour chunk.
pub const QOI_OP_RGB_HEADER: u8 = 0b11111110;
/// First byte of a full-colour chunk with alpha.
pub const QOI_OP_RGBA_HEADER: u8 = 0b11111111;
/// Two-bit tag of a cache reference.
pub const QOI_OP_INDEX_HEADER: usize = 0b00;
/// Two-bit tag of a small per-channel difference.
pub const QOI_OP_DIFF_HEADER: usize = 0b01;
/// Two-bit tag of a green-relative difference.
pub const QOI_OP_LUMA_HEADER: usize = 0b10;
/// Two-bit tag of a run of the previous pixel.
pub const QOI_OP_RUN_HEADER: usize = 0b11;

/// Why a byte stream could not be decoded.
#[derive(Debug, Clone, Copy, PartialEq, Eq, Structural)]
pub enum FormatError {
    /// The first four bytes are not `qoif`.
    BadSignature,
    /// The input ends inside a header field or a chunk.
    Truncated,
    /// No chunk kind matches at the current position.
    UnknownChunkTag,
    /// The chunk stream runs out before the end marker.
    MissingTrailer,
}

/// Image metadata; channels and colorspace are passed through unchecked.
#[derive(Debug, Clone, Copy, PartialEq, Eq, Structural)]
pub struct QOIHeader {
    pub width: u32,
    pub height: u32,
    pub channels: u8,
    pub colorspace: u8,
}

/// Full colour; alpha comes from the previous pixel.
#[derive(Debug, Clone, Copy, PartialEq, Eq, Structural)]
pub struct RGBChunk {
    pub r: u8,
    pub g: u8,
    pub b: u8,
}

/// Full colour and alpha.
#[derive(Debug, Clone, Copy, PartialEq, Eq, Structural)]
pub struct RGBAChunk {
    pub r: u8,
    pub g: u8,
    pub b: u8,
    pub a: u8,
}

/// A reference to a cache slot.
#[derive(Debug, Clone, Copy, PartialEq, Eq, Structural)]
pub struct IndexChunk {
    pub index: u8,
}

/// Raw two-bit fields; each delta is the field minus 2.
#[derive(Debug, Clone, Copy, PartialEq, Eq, Structural)]
pub struct DiffChunk {
    pub dr: u8,
    pub dg: u8,
    pub db: u8,
}

/// Raw fields: `diff_g` is six bits (minus 32), the other two four bits (minus 8).
#[derive(Debug, Clone, Copy, PartialEq, Eq, Structural)]
pub struct LumaChunk {
    pub diff_g: u8,
    pub dr_minus_dg: u8,
    pub db_minus_dg: u8,
}

/// Raw six-bit field; the run repeats the previous pixel `run + 1` times.
#[derive(Debug, Clone, Copy, PartialEq, Eq, Structural)]
pub struct RunChunk {
    pub run: u8,
}

/// One decoded chunk, holding its raw fields.
#[derive(Debug, Clone, Copy, PartialEq, Eq, Structural)]
pub enum CHUNK {
    RGBChunk(RGBChunk),
    RGBAChunk(RGBAChunk),
    IndexChunk(IndexChunk),
    DiffChunk(DiffChunk),
    LumaChunk(LumaChunk),
    RunChunk(RunChunk),
}

/// A chunk whose fields lie in the ranges that their bit widths allow.
pub open spec fn chunk_wf(c: CHUNK) -> bool {
    match c {
        CHUNK::RGBChunk(_) => true,
        CHUNK::RGBAChunk(_) => true,
        CHUNK::IndexChunk(ch) => ch.index < 64,
        CHUNK::DiffChunk(ch) => ch.dr < 4 && ch.dg < 4 && ch.db < 4,
        CHUNK::LumaChunk(ch) => ch.diff_g < 64 && ch.dr_minus_dg < 16 && ch.db_minus_dg < 16,
        CHUNK::RunChunk(ch) => ch.run < 62,
    }
}

pub open spec fn chunks_wf(cs: Seq<CHUNK>) -> bool {
    forall|i: int| 0 <= i < cs.len() ==> #[trigger] chunk_wf(cs[i])
}

/// What a parser returned, with the unread input as a sequence.
pub open spec fn parse_view<T>(r: Result<(&[u8], T), FormatError>) -> Result<(Seq<u8>, T), FormatError> {
    match r {
        Ok((rest, v)) => Ok((rest@, v)),
        Err(e) => Err(e),
    }
}

/// The four signature bytes, ASCII `qoif`.
pub open spec fn signature_spec() -> Seq<u8> {
    seq![0x71u8, 0x6Fu8, 0x69u8, 0x66u8]
}

/// The big-endian 32-bit integer in `s[i..i + 4]`.
pub open spec fn be_u32_at(s: Seq<u8>, i: int) -> u32 {
    (s[i] * 0x1000000 + s[i + 1] * 0x10000 + s[i + 2] * 0x100 + s[i + 3]) as u32
}

pub open spec fn header_spec(s: Seq<u8>) -> Result<(Seq<u8>, QOIHeader), FormatError> {
    if s.len() < 4 {
        Err(FormatError::Truncated)
    } else if s.take(4) != signature_spec() {
        Err(FormatError::BadSignature)
    } else if s.len() < 14 {
        Err(FormatError::Truncated)
    } else {
        Ok(
            (
                s.skip(14),
                QOIHeader {
                    width: be_u32_at(s, 4),
                    height: be_u32_at(s, 8),
                    channels: s[12],
                    colorspace: s[13],
                },
            ),
        )
    }
}

/// The two-bit tag in the high bits of a byte.
pub open spec fn tag_of(b: u8) -> u8 {
    b / 64
}

pub open spec fn rgb_spec(s: Seq<u8>) -> Result<(Seq<u8>, CHUNK), FormatError> {
    if s.len() == 0 {
        Err(FormatError::Truncated)
    } else if s[0] != QOI_OP_RGB_HEADER {
        Err(FormatError::UnknownChunkTag)
    } else if s.len() < 4 {
        Err(FormatError::Truncated)
    } else {
        Ok((s.skip(4), CHUNK::RGBChunk(RGBChunk { r: s[1], g: s[2], b: s[3] })))
    }
}

pub open spec fn rgba_spec(s: Seq<u8>) -> Result<(Seq<u8>, CHUNK), FormatError> {
    if s.len() == 0 {
        Err(FormatError::Truncated)
    } else if s[0] != QOI_OP_RGBA_HEADER {
        Err(FormatError::UnknownChunkTag)
    } else if s.len() < 5 {
        Err(FormatError::Truncated)
    } else {
        Ok((s.skip(5), CHUNK::RGBAChunk(RGBAChunk { r: s[1], g: s[2], b: s[3], a: s[4] })))
    }
}

pub open spec fn index_spec(s: Seq<u8>) -> Result<(Seq<u8>, CHUNK), FormatError> {
    if s.len() == 0 {
        Err(FormatError::Truncated)
    } else if tag_of(s[0]) != QOI_OP_INDEX_HEADER {
        Err(FormatError::UnknownChunkTag)
    } else {
        Ok((s.skip(1), CHUNK::IndexChunk(IndexChunk { index: s[0] % 64 })))
    }
}

pub open spec fn diff_spec(s: Seq<u8>) -> Result<(Seq<u8>, CHUNK), FormatError> {
    if s.len() == 0 {
        Err(FormatError::Truncated)
    } else if tag_of(s[0]) != QOI_OP_DIFF_HEADER {
        Err(FormatError::UnknownChunkTag)
    } else {
        Ok(
            (
                s.skip(1),
                CHUNK::DiffChunk(DiffChunk { dr: (s[0] / 16) % 4, dg: (s[0] / 4) % 4, db: s[0] % 4 }),
            ),
        )
    }
}

pub open spec fn luma_spec(s: Seq<u8>) -> Result<(Seq<u8>, CHUNK), FormatError> {
    if s.len() == 0 {
        Err(FormatError::Truncated)
    } else if tag_of(s[0]) != QOI_OP_LUMA_HEADER {
        Err(FormatError::UnknownChunkTag)
    } else if s.len() < 2 {
        Err(FormatError::Truncated)
    } else {
        Ok(
            (
                s.skip(2),
                CHUNK::LumaChunk(
                    LumaChunk { diff_g: s[0] % 64, dr_minus_dg: s[1] / 16, db_minus_dg: s[1] % 16 },
                ),
            ),
        )
    }
}

/// A run byte; the two values whose bytes are the full-colour tags are no runs.
pub open spec fn run_spec(s: Seq<u8>) -> Result<(Seq<u8>, CHUNK), FormatError> {
    if s.len() == 0 {
        Err(FormatError::Truncated)
    } else if tag_of(s[0]) != QOI_OP_RUN_HEADER || s[0] == QOI_OP_RGB_HEADER || s[0]
        == QOI_OP_RGBA_HEADER {
        Err(FormatError::UnknownChunkTag)
    } else {
        Ok((s.skip(1), CHUNK::RunChunk(RunChunk { run: s[0] % 64 })))
    }
}

/// One chunk at the start of `s`. The first byte alone selects the kind:
/// tags `01`, `00` and `10` name a difference, a cache reference and a
/// green-relative difference; under tag `11` the bytes `0xFE` and `0xFF` name
/// the full-colour chunks and every other byte a run.
pub open spec fn chunk_spec(s: Seq<u8>) -> Result<(Seq<u8>, CHUNK), FormatError> {
    if s.len() == 0 {
        Err(FormatError::Truncated)
    } else if tag_of(s[0]) == QOI_OP_DIFF_HEADER {
        diff_spec(s)
    } else if tag_of(s[0]) == QOI_OP_INDEX_HEADER {
        index_spec(s)
    } else if tag_of(s[0]) == QOI_OP_LUMA_HEADER {
        luma_spec(s)
    } else if s[0] == QOI_OP_RGB_HEADER {
        rgb_spec(s)
    } else if s[0] == QOI_OP_RGBA_HEADER {
        rgba_spec(s)
    } else {
        run_spec(s)
    }
}

/// Reads the 14-byte header: signature, width, height, channels, colorspace.
pub fn parse_header(input: &[u8]) -> (r: Result<(&[u8], QOIHeader), FormatError>)
    ensures
        parse_view(r) == header_spec(input@),
{
    if input.len() < 4 {
        return Err(FormatError::Truncated);
    }
    if !(input[0] == 0x71 && input[1] == 0x6F && input[2] == 0x69 && input[3] == 0x66) {
        proof {
            if input@.take(4) == signature_spec() {
                assert(input@.take(4)[0] == input@[0]);
                assert(input@.take(4)[1] == input@[1]);
                assert(input@.take(4)[2] == input@[2]);
                assert(input@.take(4)[3] == input@[3]);
            }
        }
        return Err(FormatError::BadSignature);
    }
    assert(input@.take(4) =~= signature_spec());
    if input.len() < 14 {
        return Err(FormatError::Truncated);
    }
    let width = read_be_u32(input, 4);
    let height = read_be_u32(input, 8);
    let header = QOIHeader { width, height, channels: input[12], colorspace: input[13] };
    let rest = slice_subrange(input, 14, input.len());
    assert(rest@ =~= input@.skip(14));
    Ok((rest, header))
}

fn read_be_u32(input: &[u8], i: usize) -> (r: u32)
    requires
        i + 4 <= input@.len(),
    ensures
        r == be_u32_at(input@, i as int),
{
    (input[i] as u32) * 0x1000000 + (input[i + 1] as u32) * 0x10000 + (input[i + 2] as u32) * 0x100
        + (input[i + 3] as u32)
}

/// Reads a full-colour chunk: `0xFE` then red, green and blue.
pub fn parse_rgb(input: &[u8]) -> (r: Result<(&[u8], CHUNK), FormatError>)
    ensures
        parse_view(r) == rgb_spec(input@),
{
    if input.len() == 0 {
        return Err(FormatError::Truncated);
    }
    if input[0] != QOI_OP_RGB_HEADER {
        return Err(FormatError::UnknownChunkTag);
    }
    if input.len() < 4 {
        return Err(FormatError::Truncated);
    }
    let chunk = RGBChunk { r: input[1], g: input[2], b: input[3] };
    let rest = slice_subrange(input, 4, input.len());
    assert(rest@ =~= input@.skip(4));
    Ok((rest, CHUNK::RGBChunk(chunk)))
}

/// Reads a full-colour chunk with alpha: `0xFF` then red, green, blue and alpha.
pub fn parse_rgba(input: &[u8]) -> (r: Result<(&[u8], CHUNK), FormatError>)
    ensures
        parse_view(r) == rgba_spec(input@),
{
    if input.len() == 0 {
        return Err(FormatError::Truncated);
    }
    if input[0] != QOI_OP_RGBA_HEADER {
        return Err(FormatError::UnknownChunkTag);
    }
    if input.len() < 5 {
        return Err(FormatError::Truncated);
    }
    let chunk = RGBAChunk { r: input[1], g: input[2], b: input[3], a: input[4] };
    let rest = slice_subrange(input, 5, input.len());
    assert(rest@ =~= input@.skip(5));
    Ok((rest, CHUNK::RGBAChunk(chunk)))
}

/// Reads a cache reference: tag `00` and a six-bit slot number.
pub fn parse_index(input: &[u8]) -> (r: Result<(&[u8], CHUNK), FormatError>)
    ensures
        parse_view(r) == index_spec(input@),
{
    if input.len() == 0 {
        return Err(FormatError::Truncated);
    }
    let byte = input[0];
    if (byte / 64) as usize != QOI_OP_INDEX_HEADER {
        return Err(FormatError::UnknownChunkTag);
    }
    let chunk = IndexChunk { index: byte % 64 };
    let rest = slice_subrange(input, 1, input.len());
    assert(rest@ =~= input@.skip(1));
    Ok((rest, CHUNK::IndexChunk(chunk)))
}

/// Reads a small difference: tag `01` and three two-bit fields.
pub fn parse_diff(input: &[u8]) -> (r: Result<(&[u8], CHUNK), FormatError>)
    ensures
        parse_view(r) == diff_spec(input@),
{
    if input.len() == 0 {
        return Err(FormatError::Truncated);
    }
    let byte = input[0];
    if (byte / 64) as usize != QOI_OP_DIFF_HEADER {
        return Err(FormatError::UnknownChunkTag);
    }
    let chunk = DiffChunk { dr: (byte / 16) % 4, dg: (byte / 4) % 4, db: byte % 4 };
    let rest = slice_subrange(input, 1, input.len());
    assert(rest@ =~= input@.skip(1));
    Ok((rest, CHUNK::DiffChunk(chunk)))
}

/// Reads a green-relative difference: tag `10`, a six-bit green field, then
/// two four-bit fields in the next byte.
pub fn parse_luma(input: &[u8]) -> (r: Result<(&[u8], CHUNK), FormatError>)
    ensures
        parse_view(r) == luma_spec(input@),
{
    if input.len() == 0 {
        return Err(FormatError::Truncated);
    }
    let first = input[0];
    if (first / 64) as usize != QOI_OP_LUMA_HEADER {
        return Err(FormatError::UnknownChunkTag);
    }
    if input.len() < 2 {
        return Err(FormatError::Truncated);
    }
    let second = input[1];
    let chunk = LumaChunk { diff_g: first % 64, dr_minus_dg: second / 16, db_minus_dg: second % 16 };
    let rest = slice_subrange(input, 2, input.len());
    assert(rest@ =~= input@.skip(2));
    Ok((rest, CHUNK::LumaChunk(chunk)))
}

/// Reads a run: tag `11` and a six-bit length field, refusing the two bytes
/// that belong to the full-colour chunks.
pub fn parse_run(input: &[u8]) -> (r: Result<(&[u8], CHUNK), FormatError>)
    ensures
        parse_view(r) == run_spec(input@),
{
    if input.len() == 0 {
        return Err(FormatError::Truncated);
    }
    let byte = input[0];
    if (byte / 64) as usize != QOI_OP_RUN_HEADER || byte == QOI_OP_RGB_HEADER || byte
        == QOI_OP_RGBA_HEADER {
        return Err(FormatError::UnknownChunkTag);
    }
    let chunk = RunChunk { run: byte % 64 };
    let rest = slice_subrange(input, 1, input.len());
    assert(rest@ =~= input@.skip(1));
    Ok((rest, CHUNK::RunChunk(chunk)))
}

/// Reads one chunk, trying the kinds in a fixed order and taking the first
/// whose tag matches.
pub fn parse_chunks(input: &[u8]) -> (r: Result<(&[u8], CHUNK), FormatError>)
    ensures
        parse_view(r) == chunk_spec(input@),
        r matches Ok((_, c)) ==> chunk_wf(c),
{
    let r = parse_diff(input);
    if !matches!(r, Err(FormatError::UnknownChunkTag)) {
        return r;
    }
    let r = parse_index(input);
    if !matches!(r, Err(FormatError::UnknownChunkTag)) {
        return r;
    }
    let r = parse_luma(input);
    if !matches!(r, Err(FormatError::UnknownChunkTag)) {
        return r;
    }
    let r = parse_rgb(input);
    if !matches!(r, Err(FormatError::UnknownChunkTag)) {
        return r;
    }
    let r = parse_rgba(input);
    if !matches!(r, Err(FormatError::UnknownChunkTag)) {
        return r;
    }
    parse_run(input)
}

} // verus!
