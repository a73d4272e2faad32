use vstd::prelude::*;
use crate::parsechunks::{CHUNK, chunk_wf, chunks_wf};

verus! {

/// One reconstructed pixel: four 8-bit channels.
#[derive(Debug, Clone, Copy, PartialEq, Eq, Structural)]
pub struct Pixel {
    pub r: u8,
    pub g: u8,
    pub b: u8,
    pub a: u8,
}

/// Number of slots in the rolling pixel cache.
pub const CACHE_SIZE: usize = 64;

/// The cache slot of a pixel: `(3r + 5g + 7b + 11a) mod 64`.
pub open spec fn hash_spec(p: Pixel) -> int {
    (3 * p.r + 5 * p.g + 7 * p.b + 11 * p.a) % 64
}

/// Computes the cache slot of `p`.
pub fn pixel_hash(p: &Pixel) -> (h: usize)
    ensures
        h as int == hash_spec(*p),
        h < CACHE_SIZE,
{
    let sum: usize = 3 * (p.r as usize) + 5 * (p.g as usize) + 7 * (p.b as usize) + 11 * (p.a as usize);
    sum % 64
}

/// The empty cache slot.
pub open spec fn zero_pixel() -> Pixel {
    Pixel { r: 0, g: 0, b: 0, a: 0 }
}

/// The previous pixel before anything is decoded: opaque black.
pub open spec fn start_pixel() -> Pixel {
    Pixel { r: 0, g: 0, b: 0, a: 255 }
}

/// An integer reduced to a channel value, modulo 256.
pub open spec fn wrap(x: int) -> u8 {
    (x % 256) as u8
}

/// The signed change of red that a difference chunk applies (0 for others).
pub open spec fn red_delta(c: CHUNK) -> int {
    match c {
        CHUNK::DiffChunk(ch) => ch.dr - 2,
        CHUNK::LumaChunk(ch) => (ch.diff_g - 32) + (ch.dr_minus_dg - 8),
        _ => 0,
    }
}

/// The signed change of green that a difference chunk applies (0 for others).
pub open spec fn green_delta(c: CHUNK) -> int {
    match c {
        CHUNK::DiffChunk(ch) => ch.dg - 2,
        CHUNK::LumaChunk(ch) => ch.diff_g - 32,
        _ => 0,
    }
}

/// The signed change of blue that a difference chunk applies (0 for others).
pub open spec fn blue_delta(c: CHUNK) -> int {
    match c {
        CHUNK::DiffChunk(ch) => ch.db - 2,
        CHUNK::LumaChunk(ch) => (ch.diff_g - 32) + (ch.db_minus_dg - 8),
        _ => 0,
    }
}

/// `prev` moved by the deltas of `c`, each channel wrapping modulo 256.
pub open spec fn shifted(prev: Pixel, c: CHUNK) -> Pixel {
    Pixel {
        r: wrap(prev.r + red_delta(c)),
        g: wrap(prev.g + green_delta(c)),
        b: wrap(prev.b + blue_delta(c)),
        a: prev.a,
    }
}

/// The pixels that one chunk appends, given the previous pixel and the cache.
pub open spec fn chunk_pixels(prev: Pixel, cache: Seq<Pixel>, c: CHUNK) -> Seq<Pixel> {
    match c {
        CHUNK::RGBChunk(ch) => seq![Pixel { r: ch.r, g: ch.g, b: ch.b, a: prev.a }],
        CHUNK::RGBAChunk(ch) => seq![Pixel { r: ch.r, g: ch.g, b: ch.b, a: ch.a }],
        CHUNK::IndexChunk(ch) => seq![cache[ch.index as int]],
        CHUNK::DiffChunk(_) => seq![shifted(prev, c)],
        CHUNK::LumaChunk(_) => seq![shifted(prev, c)],
        CHUNK::RunChunk(ch) => Seq::new((ch.run + 1) as nat, |_i: int| prev),
    }
}

/// The decoder's state after a prefix of the chunks.
pub struct ReplayState {
    pub prev: Pixel,
    pub cache: Seq<Pixel>,
    pub pixels: Seq<Pixel>,
}

pub open spec fn start_state() -> ReplayState {
    ReplayState { prev: start_pixel(), cache: Seq::new(64, |_i: int| zero_pixel()), pixels: Seq::empty() }
}

/// One chunk: append its pixels, make the last one the previous pixel, and
/// store that pixel once in the slot of its hash.
pub open spec fn step(st: ReplayState, c: CHUNK) -> ReplayState {
    let px = chunk_pixels(st.prev, st.cache, c);
    let p = px.last();
    ReplayState { prev: p, cache: st.cache.update(hash_spec(p), p), pixels: st.pixels + px }
}

/// The state after every chunk of `cs`, in order.
pub open spec fn replay(cs: Seq<CHUNK>) -> ReplayState
    decreases cs.len(),
{
    if cs.len() == 0 {
        start_state()
    } else {
        step(replay(cs.drop_last()), cs.last())
    }
}

proof fn lemma_wrap_period(x: int)
    ensures
        wrap(x + 256) == wrap(x),
{
}

/// `x + y` modulo 256.
fn wrap_add(x: u8, y: u16) -> (r: u8)
    requires
        y < 512,
    ensures
        r == wrap(x + y),
{
    ((x as u16 + y) % 256) as u8
}

/// The pixel that a chunk other than a run produces.
pub(crate) fn next_pixel(prev: Pixel, cache: &Vec<Pixel>, c: &CHUNK) -> (p: Pixel)
    requires
        !(c is RunChunk),
        chunk_wf(*c),
        cache@.len() == CACHE_SIZE,
    ensures
        chunk_pixels(prev, cache@, *c) == seq![p],
{
    match c {
        CHUNK::RGBChunk(ch) => Pixel { r: ch.r, g: ch.g, b: ch.b, a: prev.a },
        CHUNK::RGBAChunk(ch) => Pixel { r: ch.r, g: ch.g, b: ch.b, a: ch.a },
        CHUNK::IndexChunk(ch) => cache[ch.index as usize],
        CHUNK::DiffChunk(ch) => {
            // A bias of -2 is added as 256 - 2, which is the same modulo 256.
            proof {
                lemma_wrap_period(prev.r + ch.dr - 2);
                lemma_wrap_period(prev.g + ch.dg - 2);
                lemma_wrap_period(prev.b + ch.db - 2);
            }
            let r = wrap_add(prev.r, ch.dr as u16 + 254);
            let g = wrap_add(prev.g, ch.dg as u16 + 254);
            let b = wrap_add(prev.b, ch.db as u16 + 254);
            Pixel { r, g, b, a: prev.a }
        },
        CHUNK::LumaChunk(ch) => {
            // -32 becomes 256 - 32 for green; -32 - 8 becomes 256 - 40 for red and blue.
            proof {
                lemma_wrap_period(prev.g + ch.diff_g - 32);
                lemma_wrap_period(prev.r + (ch.diff_g - 32) + (ch.dr_minus_dg - 8));
                lemma_wrap_period(prev.b + (ch.diff_g - 32) + (ch.db_minus_dg - 8));
            }
            let g = wrap_add(prev.g, ch.diff_g as u16 + 224);
            let r = wrap_add(prev.r, ch.diff_g as u16 + ch.dr_minus_dg as u16 + 216);
            let b = wrap_add(prev.b, ch.diff_g as u16 + ch.db_minus_dg as u16 + 216);
            Pixel { r, g, b, a: prev.a }
        },
        CHUNK::RunChunk(_) => prev,
    }
}

/// The last pixel of `pixels` whose hash is `h`, or the zero pixel if none is.
pub open spec fn latest_with_hash(pixels: Seq<Pixel>, h: int) -> Pixel
    decreases pixels.len(),
{
    if pixels.len() == 0 {
        zero_pixel()
    } else if hash_spec(pixels.last()) == h {
        pixels.last()
    } else {
        latest_with_hash(pixels.drop_last(), h)
    }
}

proof fn lemma_latest_after_copies(a: Seq<Pixel>, b: Seq<Pixel>, p: Pixel, h: int)
    requires
        b.len() > 0,
        forall|i: int| 0 <= i < b.len() ==> b[i] == p,
    ensures
        latest_with_hash(a + b, h) == (if hash_spec(p) == h {
            p
        } else {
            latest_with_hash(a, h)
        }),
    decreases b.len(),
{
    assert((a + b).drop_last() =~= a + b.drop_last());
    assert((a + b).last() == p);
    if b.len() > 1 {
        lemma_latest_after_copies(a, b.drop_last(), p, h);
    } else {
        assert(a + b.drop_last() =~= a);
    }
}

/// After any sequence of chunks, every cache slot holds the most recently
/// produced pixel whose hash is that slot, or the zero pixel if no produced
/// pixel has that hash; the previous pixel is the last one produced and sits
/// in the slot of its own hash.
pub proof fn lemma_cache_consistent(cs: Seq<CHUNK>)
    requires
        chunks_wf(cs),
    ensures
        replay(cs).cache.len() == 64,
        forall|h: int|
            0 <= h < 64 ==> #[trigger] replay(cs).cache[h] == latest_with_hash(replay(cs).pixels, h),
        cs.len() > 0 ==> replay(cs).pixels.len() > 0 && replay(cs).prev == replay(cs).pixels.last(),
        cs.len() > 0 ==> replay(cs).cache[hash_spec(replay(cs).prev)] == replay(cs).prev,
    decreases cs.len(),
{
    if cs.len() > 0 {
        let init = cs.drop_last();
        assert(chunks_wf(init)) by {
            assert forall|i: int| 0 <= i < init.len() implies #[trigger] chunk_wf(init[i]) by {
                assert(init[i] == cs[i]);
            }
        }
        lemma_cache_consistent(init);
        let st = replay(init);
        let c = cs.last();
        assert(chunk_wf(cs[cs.len() - 1]));
        let px = chunk_pixels(st.prev, st.cache, c);
        let p = px.last();
        assert(forall|i: int| 0 <= i < px.len() ==> px[i] == p);
        assert forall|h: int| 0 <= h < 64 implies #[trigger] replay(cs).cache[h] == latest_with_hash(
            replay(cs).pixels,
            h,
        ) by {
            lemma_latest_after_copies(st.pixels, px, p, h);
        }
        assert(replay(cs).pixels.last() == p);
    } else {
        assert forall|h: int| 0 <= h < 64 implies #[trigger] replay(cs).cache[h] == latest_with_hash(
            replay(cs).pixels,
            h,
        ) by {}
    }
}

/// `v` is `x` brought into 0..=255 by adding or taking away 256 at most once.
pub open spec fn wrapped_once(x: int, v: u8) -> bool {
    v == (if x < 0 {
        x + 256
    } else if x > 255 {
        x - 256
    } else {
        x
    })
}

/// A difference chunk adds its signed deltas to the previous pixel; a channel
/// that would leave 0..=255 wraps modulo 256, and alpha is kept.
pub proof fn lemma_delta_wraps(prev: Pixel, cache: Seq<Pixel>, c: CHUNK)
    requires
        c is DiffChunk || c is LumaChunk,
        chunk_wf(c),
    ensures
        chunk_pixels(prev, cache, c).len() == 1,
        wrapped_once(prev.r + red_delta(c), chunk_pixels(prev, cache, c)[0].r),
        wrapped_once(prev.g + green_delta(c), chunk_pixels(prev, cache, c)[0].g),
        wrapped_once(prev.b + blue_delta(c), chunk_pixels(prev, cache, c)[0].b),
        chunk_pixels(prev, cache, c)[0].a == prev.a,
{
}

} // verus!
