use vstd::prelude::*;
use vstd::slice::slice_subrange;
use crate::pixel::{CACHE_SIZE, Pixel, ReplayState, next_pixel, pixel_hash, replay, start_state};
use crate::parsechunks::{
    CHUNK, FormatError, QOIHeader, chunk_spec, signature_spec, chunk_wf, chunks_wf, header_spec, parse_chunks,
    parse_header, parse_view,
};

verus! {

/// The end marker: seven zero bytes and a one.
pub open spec fn trailer_spec() -> Seq<u8> {
    seq![0u8, 0u8, 0u8, 0u8, 0u8, 0u8, 0u8, 1u8]
}

/// `s` starts with the end marker.
pub open spec fn at_trailer(s: Seq<u8>) -> bool {
    s.len() >= 8 && s.take(8) == trailer_spec()
}

pub open spec fn end_spec(s: Seq<u8>) -> Result<(Seq<u8>, ()), FormatError> {
    if at_trailer(s) {
        Ok((s.skip(8), ()))
    } else {
        Err(FormatError::MissingTrailer)
    }
}

/// Puts `first` in front of the chunks of a successful parse.
pub open spec fn prepend(first: Seq<CHUNK>, r: Result<(Seq<u8>, Seq<CHUNK>), FormatError>) -> Result<
    (Seq<u8>, Seq<CHUNK>),
    FormatError,
> {
    match r {
        Ok((rest, cs)) => Ok((rest, first + cs)),
        Err(e) => Err(e),
    }
}

/// Chunks up to and including the end marker. At each position the marker is
/// looked for first; input that runs out before it is a missing trailer.
pub open spec fn chunk_stream_spec(s: Seq<u8>) -> Result<(Seq<u8>, Seq<CHUNK>), FormatError>
    decreases s.len(),
{
    if at_trailer(s) {
        Ok((s.skip(8), Seq::empty()))
    } else if s.len() == 0 {
        Err(FormatError::MissingTrailer)
    } else {
        match chunk_spec(s) {
            Ok((rest, c)) => prepend(seq![c], chunk_stream_spec(rest)),
            Err(e) => Err(e),
        }
    }
}

/// The header, then the chunk stream.
pub open spec fn all_chunks_spec(s: Seq<u8>) -> Result<(Seq<u8>, (QOIHeader, Seq<CHUNK>)), FormatError> {
    match header_spec(s) {
        Ok((rest, h)) => match chunk_stream_spec(rest) {
            Ok((rest2, cs)) => Ok((rest2, (h, cs))),
            Err(e) => Err(e),
        },
        Err(e) => Err(e),
    }
}

/// Recognises the end marker at the start of the input.
pub fn get_end(input: &[u8]) -> (r: Result<(&[u8], ()), FormatError>)
    ensures
        parse_view(r) == end_spec(input@),
{
    if input.len() < 8 {
        return Err(FormatError::MissingTrailer);
    }
    let mut i: usize = 0;
    while i < 7
        invariant
            i <= 7,
            input@.len() >= 8,
            forall|k: int| 0 <= k < i ==> input@[k] == 0,
        decreases 7 - i,
    {
        if input[i] != 0 {
            assert(input@.take(8)[i as int] != trailer_spec()[i as int]);
            return Err(FormatError::MissingTrailer);
        }
        i += 1;
    }
    if input[7] != 1 {
        assert(input@.take(8)[7] != trailer_spec()[7]);
        return Err(FormatError::MissingTrailer);
    }
    assert(input@.take(8) =~= trailer_spec());
    let rest = slice_subrange(input, 8, input.len());
    assert(rest@ =~= input@.skip(8));
    Ok((rest, ()))
}

/// Reads the header and every chunk up to the end marker.
pub fn parse_all_chunks(bytes: &[u8]) -> (r: Result<(&[u8], (QOIHeader, Vec<CHUNK>)), FormatError>)
    ensures
        match r {
            Ok((rest, (h, cs))) => all_chunks_spec(bytes@) == Ok::<
                (Seq<u8>, (QOIHeader, Seq<CHUNK>)),
                FormatError,
            >((rest@, (h, cs@))) && chunks_wf(cs@),
            Err(e) => all_chunks_spec(bytes@) == Err::<
                (Seq<u8>, (QOIHeader, Seq<CHUNK>)),
                FormatError,
            >(e),
        },
{
    let (body, header) = match parse_header(bytes) {
        Ok(v) => v,
        Err(e) => {
            return Err(e);
        },
    };
    let ghost start = body@;
    let mut cur = body;
    let mut chunks: Vec<CHUNK> = Vec::new();
    loop
        invariant
            header_spec(bytes@) == Ok::<(Seq<u8>, QOIHeader), FormatError>((start, header)),
            chunk_stream_spec(start) == prepend(chunks@, chunk_stream_spec(cur@)),
            chunks_wf(chunks@),
        decreases cur@.len(),
    {
        match get_end(cur) {
            Ok((rest, _)) => {
                assert(chunks@ + Seq::<CHUNK>::empty() =~= chunks@);
                return Ok((rest, (header, chunks)));
            },
            Err(_) => {},
        }
        if cur.len() == 0 {
            return Err(FormatError::MissingTrailer);
        }
        match parse_chunks(cur) {
            Ok((rest, c)) => {
                proof {
                    let tail = chunk_stream_spec(rest@);
                    assert(chunk_stream_spec(cur@) == prepend(seq![c], tail));
                    if let Ok((r2, cs)) = tail {
                        assert(chunks@ + (seq![c] + cs) =~= chunks@.push(c) + cs);
                    }
                }
                chunks.push(c);
                cur = rest;
                assert(chunks_wf(chunks@)) by {
                    assert forall|i: int| 0 <= i < chunks@.len() implies #[trigger] chunk_wf(
                        chunks@[i],
                    ) by {
                        if i < chunks@.len() - 1 {
                            assert(chunks@[i] == chunks@.drop_last()[i]);
                        }
                    }
                }
            },
            Err(e) => {
                return Err(e);
            },
        }
    }
}

/// The header and the decoded pixels of a whole stream; bytes after the end
/// marker are ignored, and the header's size does not bound the pixel count.
pub open spec fn decode_spec(s: Seq<u8>) -> Result<(QOIHeader, Seq<Pixel>), FormatError> {
    match all_chunks_spec(s) {
        Ok((_, (h, cs))) => Ok((h, replay(cs).pixels)),
        Err(e) => Err(e),
    }
}

/// Replays the chunks in order and returns every pixel they produce.
pub fn reconstruct(chunks: &Vec<CHUNK>) -> (pixels: Vec<Pixel>)
    requires
        chunks_wf(chunks@),
    ensures
        pixels@ == replay(chunks@).pixels,
{
    let mut cache: Vec<Pixel> = Vec::new();
    while cache.len() < CACHE_SIZE
        invariant
            cache@.len() <= CACHE_SIZE,
            forall|k: int| 0 <= k < cache@.len() ==> cache@[k] == (Pixel { r: 0, g: 0, b: 0, a: 0 }),
        decreases CACHE_SIZE - cache@.len(),
    {
        cache.push(Pixel { r: 0, g: 0, b: 0, a: 0 });
    }
    assert(cache@ =~= start_state().cache);
    let mut prev = Pixel { r: 0, g: 0, b: 0, a: 255 };
    let mut pixels: Vec<Pixel> = Vec::new();
    assert(chunks@.take(0) =~= Seq::<CHUNK>::empty());
    let mut i: usize = 0;
    while i < chunks.len()
        invariant
            i <= chunks@.len(),
            chunks_wf(chunks@),
            cache@.len() == CACHE_SIZE,
            replay(chunks@.take(i as int)) == (ReplayState { prev, cache: cache@, pixels: pixels@ }),
        decreases chunks@.len() - i,
    {
        let c = chunks[i];
        assert(chunk_wf(c));
        assert(chunks@.take(i + 1).drop_last() =~= chunks@.take(i as int));
        let ghost before = pixels@;
        let next = if let CHUNK::RunChunk(ch) = c {
            let count: u16 = ch.run as u16 + 1;
            let mut k: u16 = 0;
            while k < count
                invariant
                    k <= count,
                    pixels@ =~= before + Seq::new(k as nat, |_i: int| prev),
                decreases count - k,
            {
                pixels.push(prev);
                k += 1;
            }
            prev
        } else {
            let p = next_pixel(prev, &cache, &c);
            pixels.push(p);
            assert(pixels@ =~= before + seq![p]);
            p
        };
        let h = pixel_hash(&next);
        cache.set(h, next);
        prev = next;
        i += 1;
    }
    assert(chunks@.take(chunks@.len() as int) =~= chunks@);
    pixels
}

/// Decodes a whole stream into its header and pixels.
pub fn get_pixels(input: &[u8]) -> (r: Result<(QOIHeader, Vec<Pixel>), FormatError>)
    ensures
        match r {
            Ok((h, px)) => decode_spec(input@) == Ok::<(QOIHeader, Seq<Pixel>), FormatError>(
                (h, px@),
            ),
            Err(e) => decode_spec(input@) == Err::<(QOIHeader, Seq<Pixel>), FormatError>(e),
        },
{
    match parse_all_chunks(input) {
        Ok((_, (header, chunks))) => {
            let pixels = reconstruct(&chunks);
            Ok((header, pixels))
        },
        Err(e) => Err(e),
    }
}

/// A stream whose first four bytes are not the signature is refused as such,
/// before any chunk is read.
pub proof fn lemma_bad_signature(s: Seq<u8>)
    requires
        s.len() >= 4,
        s.take(4) != signature_spec(),
    ensures
        decode_spec(s) == Err::<(QOIHeader, Seq<Pixel>), FormatError>(FormatError::BadSignature),
{
}

/// `s` is a sequence of whole chunks with no end marker at any chunk boundary.
pub open spec fn unterminated_chunks(s: Seq<u8>) -> bool
    decreases s.len(),
{
    if s.len() == 0 {
        true
    } else if at_trailer(s) {
        false
    } else {
        match chunk_spec(s) {
            Ok((rest, _)) => unterminated_chunks(rest),
            Err(_) => false,
        }
    }
}

proof fn lemma_stream_unterminated(s: Seq<u8>)
    requires
        unterminated_chunks(s),
    ensures
        chunk_stream_spec(s) == Err::<(Seq<u8>, Seq<CHUNK>), FormatError>(FormatError::MissingTrailer),
    decreases s.len(),
{
    if s.len() > 0 {
        if let Ok((rest, _)) = chunk_spec(s) {
            lemma_stream_unterminated(rest);
        }
    }
}

/// A valid header followed by whole chunks and then the end of input, with
/// no end marker, is refused for its missing trailer.
pub proof fn lemma_missing_trailer(s: Seq<u8>)
    requires
        s.len() >= 14,
        s.take(4) == signature_spec(),
        unterminated_chunks(s.skip(14)),
    ensures
        decode_spec(s) == Err::<(QOIHeader, Seq<Pixel>), FormatError>(FormatError::MissingTrailer),
{
    lemma_stream_unterminated(s.skip(14));
}

} // verus!
