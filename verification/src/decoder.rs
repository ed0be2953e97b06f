//! Walking the chain of Oodle-compressed chunks.

use vstd::prelude::*;
use vstd::slice::slice_subrange;
use vstd::string::*;

verus! {

/// An answer of the decoder to a request for `out_size` decompressed bytes
/// counts as a success when it holds exactly that many bytes.
pub open spec fn answer_fits(out: Option<Vec<u8>>, out_size: usize) -> bool {
    match out {
        Some(v) => v@.len() == out_size,
        None => false,
    }
}

/// The decoder, asked to turn `bytes` into `out_size` decompressed bytes,
/// can answer with exactly that many bytes.
pub open spec fn accepts<F: Fn(&[u8], usize) -> Option<Vec<u8>>>(decoder: &F, bytes: Seq<u8>, out_size: usize) -> bool {
    exists|s: &[u8], out: Option<Vec<u8>>|
        #[trigger] call_ensures(decoder, (s, out_size), out) && s@ == bytes && answer_fits(out, out_size)
}

/// The decoder, asked to turn `bytes` into `out_size` decompressed bytes,
/// can refuse (or answer with some other number of bytes).
pub open spec fn rejects<F: Fn(&[u8], usize) -> Option<Vec<u8>>>(decoder: &F, bytes: Seq<u8>, out_size: usize) -> bool {
    exists|s: &[u8], out: Option<Vec<u8>>|
        #[trigger] call_ensures(decoder, (s, out_size), out) && s@ == bytes && !answer_fits(out, out_size)
}

pub open spec fn search_upper(data_len: int, start: int, max_len: int) -> int {
    let rest = if data_len >= start { data_len - start } else { 0 };
    if max_len <= rest { max_len } else { rest }
}

/// The search for a chunk at `start` finds none: no bytes to try, or the
/// decoder refuses all of them (at most `max_len`).
pub open spec fn no_chunk_at<F: Fn(&[u8], usize) -> Option<Vec<u8>>>(decoder: &F, data: Seq<u8>, start: int, out_size: usize, max_len: int) -> bool {
    let upper = search_upper(data.len() as int, start, max_len);
    upper == 0 || rejects(decoder, data.subrange(start, start + upper), out_size)
}

/// The binary search over prefix lengths from `lo` to `hi`, where `ok` tells
/// which lengths decode: it halves the range, keeping the lower half when the
/// middle length decodes and the upper half past it otherwise, until one
/// length is left.
pub open spec fn bisect(ok: spec_fn(int) -> bool, lo: int, hi: int) -> int
    decreases hi - lo,
{
    if lo >= hi {
        lo
    } else {
        let mid = lo + (hi - lo) / 2;
        if ok(mid) { bisect(ok, lo, mid) } else { bisect(ok, mid + 1, hi) }
    }
}

/// `ok` agrees with every answer the decoder can give on the prefixes of
/// `data` at `start`, from 1 to `upper` bytes long.
pub open spec fn agrees<F: Fn(&[u8], usize) -> Option<Vec<u8>>>(decoder: &F, data: Seq<u8>, start: int, out_size: usize, upper: int, ok: spec_fn(int) -> bool) -> bool {
    forall|k: int| 1 <= k <= upper ==> {
        &&& (accepts(decoder, #[trigger] data.subrange(start, start + k), out_size) ==> ok(k))
        &&& (rejects(decoder, data.subrange(start, start + k), out_size) ==> !ok(k))
    }
}

/// The search for a chunk at `start` settles on `n` bytes: the decoder took
/// all the bytes it could try, took the first `n`, and refused the first
/// `n - 1` (so `n` is where refusal turns into success; for a decoder that
/// succeeds on every longer input once it succeeds, the least such length);
/// and `n` is where the binary search over the prefix lengths lands, for
/// every reading of the decoder's answers.
pub open spec fn chunk_at<F: Fn(&[u8], usize) -> Option<Vec<u8>>>(decoder: &F, data: Seq<u8>, start: int, out_size: usize, max_len: int, n: int) -> bool {
    let upper = search_upper(data.len() as int, start, max_len);
    &&& 1 <= n <= upper
    &&& accepts(decoder, data.subrange(start, start + upper), out_size)
    &&& accepts(decoder, data.subrange(start, start + n), out_size)
    &&& (n == 1 || rejects(decoder, data.subrange(start, start + n - 1), out_size))
    &&& forall|ok: spec_fn(int) -> bool|
            #[trigger] agrees(decoder, data, start, out_size, upper, ok) ==> n == bisect(ok, 1, upper)
}

/// Asks the decoder whether `input` decompresses to `out_size` bytes.
fn try_decode<F: Fn(&[u8], usize) -> Option<Vec<u8>>>(decoder: &F, input: &[u8], out_size: usize) -> (ok: bool)
    requires
        forall|s: &[u8], n: usize| call_requires(decoder, (s, n)),
    ensures
        ok ==> accepts(decoder, input@, out_size),
        !ok ==> rejects(decoder, input@, out_size),
{
    let r = decoder(input, out_size);
    match r {
        Some(v) => v.len() == out_size,
        None => false,
    }
}

/// Finds how many compressed bytes at `start` make up one chunk that
/// decompresses to `out_size` bytes: at most `max_len` bytes (and no more than
/// the data holds) are tried whole, and when they decode, a binary search
/// narrows down to the shortest prefix that still decodes. Gives nothing when
/// there are no bytes to try or the whole reach does not decode.
pub fn find_min_compressed_len<F: Fn(&[u8], usize) -> Option<Vec<u8>>>(
    data: &[u8],
    start: usize,
    out_size: usize,
    max_len: usize,
    decoder: &F,
) -> (r: Option<usize>)
    requires
        forall|s: &[u8], n: usize| call_requires(decoder, (s, n)),
    ensures
        match r {
            None => no_chunk_at(decoder, data@, start as int, out_size, max_len as int),
            Some(n) => chunk_at(decoder, data@, start as int, out_size, max_len as int, n as int),
        },
{
    let rest = if data.len() >= start { data.len() - start } else { 0 };
    let upper_bound = if max_len <= rest { max_len } else { rest };
    if upper_bound == 0 {
        return None;
    }
    if !try_decode(decoder, slice_subrange(data, start, start + upper_bound), out_size) {
        return None;
    }
    let mut lo: usize = 1;
    let mut hi: usize = upper_bound;
    while lo < hi
        invariant
            1 <= lo <= hi <= upper_bound,
            upper_bound == search_upper(data@.len() as int, start as int, max_len as int),
            start + upper_bound <= data.len(),
            forall|s: &[u8], n: usize| call_requires(decoder, (s, n)),
            accepts(decoder, data@.subrange(start as int, start + hi), out_size),
            lo == 1 || rejects(decoder, data@.subrange(start as int, start + lo - 1), out_size),
            forall|ok: spec_fn(int) -> bool|
                #[trigger] agrees(decoder, data@, start as int, out_size, upper_bound as int, ok)
                    ==> bisect(ok, lo as int, hi as int) == bisect(ok, 1, upper_bound as int),
        decreases hi - lo,
    {
        let mid = lo + (hi - lo) / 2;
        let ghost (lo0, hi0) = (lo as int, hi as int);
        let took = try_decode(decoder, slice_subrange(data, start, start + mid), out_size);
        proof {
            assert forall|ok: spec_fn(int) -> bool|
                #[trigger] agrees(decoder, data@, start as int, out_size, upper_bound as int, ok)
                implies ok(mid as int) == took by {
                let pre = data@.subrange(start as int, start + mid);
                if took {
                    assert(accepts(decoder, pre, out_size));
                } else {
                    assert(rejects(decoder, pre, out_size));
                }
            }
        }
        if took {
            hi = mid;
        } else {
            lo = mid + 1;
        }
        proof {
            assert forall|ok: spec_fn(int) -> bool|
                #[trigger] agrees(decoder, data@, start as int, out_size, upper_bound as int, ok)
                implies bisect(ok, lo as int, hi as int) == bisect(ok, 1, upper_bound as int) by {
                assert(bisect(ok, lo0, hi0) == bisect(ok, 1, upper_bound as int));
                assert(ok(mid as int) == took);
            }
        }
    }
    Some(lo)
}

/// The decompressed size of one chunk.
pub const BLOCK_SIZE: usize = 131072;

/// How many bytes forward the search for the next chunk header reaches.
pub const HEADER_SCAN_WINDOW: usize = 512;

/// The most compressed bytes one chunk is taken to span.
pub const MAX_COMPRESSED_SEARCH: usize = 300000;

/// How many smaller decompressed sizes are tried when no full chunk is found.
pub const SHRINK_COUNT: usize = 9;

/// The smaller decompressed sizes, from the largest down: 64 KiB, halving down to 256 bytes.
pub open spec fn shrink_size(j: int) -> usize {
    if j == 0 { 65536 } else if j == 1 { 32768 } else if j == 2 { 16384 } else if j == 3 { 8192 }
    else if j == 4 { 4096 } else if j == 5 { 2048 } else if j == 6 { 1024 } else if j == 7 { 512 } else { 256 }
}

fn shrink(j: usize) -> (s: usize)
    requires
        j < SHRINK_COUNT,
    ensures
        s == shrink_size(j as int),
{
    if j == 0 { 65536 } else if j == 1 { 32768 } else if j == 2 { 16384 } else if j == 3 { 8192 }
    else if j == 4 { 4096 } else if j == 5 { 2048 } else if j == 6 { 1024 } else if j == 7 { 512 } else { 256 }
}

/// Where the search for a chunk from `offset` stops looking for its header.
pub open spec fn window_end(len: int, offset: int) -> int {
    if offset + HEADER_SCAN_WINDOW <= len { offset + HEADER_SCAN_WINDOW } else { len }
}

/// How many compressed bytes a chunk found from `offset` may span.
pub open spec fn max_search(len: int, offset: int) -> int {
    if MAX_COMPRESSED_SEARCH <= len - offset { MAX_COMPRESSED_SEARCH as int } else { len - offset }
}

/// Before a chunk of a smaller size is taken at `probe` (the `j`-th size),
/// every full-size search in the window and every smaller-size search before
/// it (earlier probes, then earlier sizes at `probe`) has found nothing.
pub open spec fn shrink_preceded<F: Fn(&[u8], usize) -> Option<Vec<u8>>>(decoder: &F, data: Seq<u8>, offset: int, probe: int, j: int) -> bool {
    let ms = max_search(data.len() as int, offset);
    let we = window_end(data.len() as int, offset);
    &&& forall|q: int| offset <= q < we ==> #[trigger] no_chunk_at(decoder, data, q, BLOCK_SIZE, ms)
    &&& forall|q: int, k: int| offset <= q < probe && 0 <= k < SHRINK_COUNT
            ==> #[trigger] no_chunk_at(decoder, data, q, shrink_size(k), ms)
    &&& forall|k: int| 0 <= k < j ==> #[trigger] no_chunk_at(decoder, data, probe, shrink_size(k), ms)
}

/// The search from `offset` picks a chunk of `n` compressed bytes at `probe`,
/// decompressing to `size` bytes: it is the first success in the search order
/// (first every probe of the window at full size, then every probe with each
/// smaller size in turn).
#[verifier::opaque]
pub open spec fn picked<F: Fn(&[u8], usize) -> Option<Vec<u8>>>(decoder: &F, data: Seq<u8>, offset: int, probe: int, n: int, size: usize) -> bool {
    let ms = max_search(data.len() as int, offset);
    let we = window_end(data.len() as int, offset);
    &&& offset <= probe < we
    &&& chunk_at(decoder, data, probe, size, ms, n)
    &&& {
        ||| size == BLOCK_SIZE && (forall|q: int| offset <= q < probe ==> #[trigger] no_chunk_at(decoder, data, q, BLOCK_SIZE, ms))
        ||| exists|j: int| 0 <= j < SHRINK_COUNT && size == shrink_size(j) && #[trigger] shrink_preceded(decoder, data, offset, probe, j)
    }
}

/// The search from `offset` finds nothing, at any probe and any size.
#[verifier::opaque]
pub open spec fn nothing_found<F: Fn(&[u8], usize) -> Option<Vec<u8>>>(decoder: &F, data: Seq<u8>, offset: int) -> bool {
    let ms = max_search(data.len() as int, offset);
    let we = window_end(data.len() as int, offset);
    &&& forall|q: int| offset <= q < we ==> #[trigger] no_chunk_at(decoder, data, q, BLOCK_SIZE, ms)
    &&& forall|q: int, k: int| offset <= q < we && 0 <= k < SHRINK_COUNT
            ==> #[trigger] no_chunk_at(decoder, data, q, shrink_size(k), ms)
}

/// Searches for the next chunk from `offset`: its position, compressed length
/// and decompressed size.
fn find_chunk<F: Fn(&[u8], usize) -> Option<Vec<u8>>>(data: &[u8], offset: usize, decoder: &F) -> (r: Option<(usize, usize, usize)>)
    requires
        offset < data@.len(),
        forall|s: &[u8], n: usize| call_requires(decoder, (s, n)),
    ensures
        match r {
            Some((p, n, size)) => picked(decoder, data@, offset as int, p as int, n as int, size),
            None => nothing_found(decoder, data@, offset as int),
        },
        r matches Some((p, n, _)) ==> offset <= p && 1 <= n && p + n <= data@.len(),
{
    reveal(picked);
    reveal(nothing_found);
    let len = data.len();
    let remaining = len - offset;
    let search_len = if MAX_COMPRESSED_SEARCH <= remaining { MAX_COMPRESSED_SEARCH } else { remaining };
    let scan_end = if HEADER_SCAN_WINDOW <= len - offset { offset + HEADER_SCAN_WINDOW } else { len };
    let ghost ms = search_len as int;
    let mut probe = offset;
    while probe < scan_end
        invariant
            offset <= probe <= scan_end <= len == data@.len(),
            scan_end == window_end(len as int, offset as int),
            ms == max_search(len as int, offset as int),
            search_len == ms,
            forall|s: &[u8], n: usize| call_requires(decoder, (s, n)),
            forall|q: int| offset <= q < probe ==> #[trigger] no_chunk_at(decoder, data@, q, BLOCK_SIZE, ms),
        decreases scan_end - probe,
    {
        if let Some(n) = find_min_compressed_len(data, probe, BLOCK_SIZE, search_len, decoder) {
            proof {
                reveal(picked);
            }
            return Some((probe, n, BLOCK_SIZE));
        }
        probe = probe + 1;
    }
    probe = offset;
    while probe < scan_end
        invariant
            offset <= probe <= scan_end <= len == data@.len(),
            scan_end == window_end(len as int, offset as int),
            ms == max_search(len as int, offset as int),
            search_len == ms,
            forall|s: &[u8], n: usize| call_requires(decoder, (s, n)),
            forall|q: int| offset <= q < scan_end ==> #[trigger] no_chunk_at(decoder, data@, q, BLOCK_SIZE, ms),
            forall|q: int, k: int| offset <= q < probe && 0 <= k < SHRINK_COUNT
                ==> #[trigger] no_chunk_at(decoder, data@, q, shrink_size(k), ms),
        decreases scan_end - probe,
    {
        let mut j: usize = 0;
        while j < SHRINK_COUNT
            invariant
                offset <= probe < scan_end <= len == data@.len(),
                scan_end == window_end(len as int, offset as int),
                ms == max_search(len as int, offset as int),
                search_len == ms,
                j <= SHRINK_COUNT,
                forall|s: &[u8], n: usize| call_requires(decoder, (s, n)),
                forall|q: int| offset <= q < scan_end ==> #[trigger] no_chunk_at(decoder, data@, q, BLOCK_SIZE, ms),
                forall|q: int, k: int| offset <= q < probe && 0 <= k < SHRINK_COUNT
                    ==> #[trigger] no_chunk_at(decoder, data@, q, shrink_size(k), ms),
                forall|k: int| 0 <= k < j ==> #[trigger] no_chunk_at(decoder, data@, probe as int, shrink_size(k), ms),
            decreases SHRINK_COUNT - j,
        {
            let size = shrink(j);
            if let Some(n) = find_min_compressed_len(data, probe, size, search_len, decoder) {
                proof {
                    reveal(picked);
                    assert(shrink_preceded(decoder, data@, offset as int, probe as int, j as int));
                }
                return Some((probe, n, size));
            }
            j = j + 1;
        }
        proof {
            assert forall|q: int, k: int| offset <= q < probe + 1 && 0 <= k < SHRINK_COUNT
                implies #[trigger] no_chunk_at(decoder, data@, q, shrink_size(k), ms) by {
                if q == probe {
                    assert(no_chunk_at(decoder, data@, probe as int, shrink_size(k), ms));
                }
            }
        }
        probe = probe + 1;
    }
    proof {
        reveal(nothing_found);
    }
    None
}

/// The decoder, asked to turn `bytes` into `out_size` decompressed bytes, can
/// answer with `out`, exactly that many bytes.
pub open spec fn decodes_to<F: Fn(&[u8], usize) -> Option<Vec<u8>>>(decoder: &F, bytes: Seq<u8>, out_size: usize, out: Seq<u8>) -> bool {
    &&& out.len() == out_size
    &&& exists|s: &[u8], r: Option<Vec<u8>>|
            #[trigger] call_ensures(decoder, (s, out_size), r) && s@ == bytes && (r matches Some(v) && v@ == out)
}

/// Figures on a walk over the chunk chain.
pub struct DecodeReport {
    /// How many chunks were decoded.
    pub chunks_decoded: usize,
    /// How many decoded bytes came out.
    pub decoded_bytes: usize,
    /// How many bytes the walk was given.
    pub source_bytes: usize,
    /// Where the walk stopped in the given bytes.
    pub bytes_consumed: usize,
    /// How many given bytes lie after that point.
    pub tail_bytes_left_raw: usize,
}

/// One decoded chunk: where its compressed bytes start, how many there are,
/// the size asked for, and the decoded bytes.
pub struct ChunkStep {
    pub probe: int,
    pub len: int,
    pub out_size: usize,
    pub bytes: Seq<u8>,
}

/// Where the chunk chain starts: the first chunk's header stands at a small
/// fixed offset when there is room for it.
pub open spec fn chain_start(len: int) -> int {
    if len > 49 { 49 } else { 0 }
}

/// Where the walk stands before step `i`.
pub open spec fn offset_before(start: int, steps: Seq<ChunkStep>, i: int) -> int {
    if i == 0 { start } else { steps[i - 1].probe + steps[i - 1].len }
}

/// One step of the walk from `offset`: the search picks the chunk, and the
/// decoder turns its compressed bytes into the step's bytes.
pub open spec fn step_ok<F: Fn(&[u8], usize) -> Option<Vec<u8>>>(decoder: &F, data: Seq<u8>, offset: int, st: ChunkStep) -> bool {
    &&& offset < data.len()
    &&& picked(decoder, data, offset, st.probe, st.len, st.out_size)
    &&& decodes_to(decoder, data.subrange(st.probe, st.probe + st.len), st.out_size, st.bytes)
}

/// The decoded bytes of the steps, one after the other.
pub open spec fn steps_output(steps: Seq<ChunkStep>) -> Seq<u8>
    decreases steps.len(),
{
    if steps.len() == 0 { Seq::empty() } else { steps_output(steps.drop_last()) + steps.last().bytes }
}

/// Every step of `steps` follows from where the one before left the walk.
pub open spec fn steps_ok<F: Fn(&[u8], usize) -> Option<Vec<u8>>>(decoder: &F, data: Seq<u8>, steps: Seq<ChunkStep>) -> bool {
    forall|i: int| 0 <= i < steps.len()
        ==> step_ok(decoder, data, offset_before(chain_start(data.len() as int), steps, i), #[trigger] steps[i])
}

/// Why the walk ends at `offset`: the data has run out, the search finds no
/// chunk, or the decoder refuses the chunk that the search picked.
pub open spec fn walk_ends<F: Fn(&[u8], usize) -> Option<Vec<u8>>>(decoder: &F, data: Seq<u8>, offset: int) -> bool {
    ||| offset >= data.len()
    ||| nothing_found(decoder, data, offset)
    ||| exists|p: int, n: int, size: usize|
            #[trigger] picked(decoder, data, offset, p, n, size) && rejects(decoder, data.subrange(p, p + n), size)
}

/// A whole walk over the chunk chain: the steps taken, the bytes they decode
/// to, and where the walk ends.
pub open spec fn chain_walk<F: Fn(&[u8], usize) -> Option<Vec<u8>>>(
    decoder: &F,
    data: Seq<u8>,
    steps: Seq<ChunkStep>,
    output: Seq<u8>,
    end: int,
) -> bool {
    &&& steps_ok(decoder, data, steps)
    &&& output == steps_output(steps)
    &&& end == offset_before(chain_start(data.len() as int), steps, steps.len() as int)
    &&& walk_ends(decoder, data, end)
}

/// A walk that has taken `steps` and then takes one more step `st` from where
/// they left it is still a walk, and its output grows by the step's bytes.
proof fn lemma_steps_push<F: Fn(&[u8], usize) -> Option<Vec<u8>>>(decoder: &F, data: Seq<u8>, steps: Seq<ChunkStep>, st: ChunkStep)
    requires
        steps_ok(decoder, data, steps),
        step_ok(decoder, data, offset_before(chain_start(data.len() as int), steps, steps.len() as int), st),
    ensures
        steps_ok(decoder, data, steps.push(st)),
        steps_output(steps.push(st)) == steps_output(steps) + st.bytes,
        offset_before(chain_start(data.len() as int), steps.push(st), steps.len() + 1 as int) == st.probe + st.len,
{
    let start = chain_start(data.len() as int);
    let next = steps.push(st);
    assert(next.drop_last() =~= steps);
    assert forall|i: int| 0 <= i < next.len() implies step_ok(
        decoder,
        data,
        offset_before(start, next, i),
        #[trigger] next[i],
    ) by {
        if i < steps.len() {
            assert(next[i] == steps[i]);
            assert(offset_before(start, next, i) == offset_before(start, steps, i));
        }
    }
}

/// Walks the Oodle chunk chain inside a raw byte blob (such as the
/// `AltarSaveData` property's bytes, already taken out of the outer save
/// file), decoding every 128 KiB-block chunk it can find: it goes on until the
/// data runs out rather than assuming a fixed chunk count. `decoder` turns
/// compressed bytes into the given number of decompressed bytes, or refuses;
/// `progress` hears, after each chunk, how far into the data the walk has come
/// and how long the data is.
pub fn decode_chunk_chain<F: Fn(&[u8], usize) -> Option<Vec<u8>>, P: Fn(usize, usize)>(
    data: &[u8],
    decoder: &F,
    progress: &P,
) -> (r: (Vec<u8>, DecodeReport))
    requires
        forall|s: &[u8], n: usize| call_requires(decoder, (s, n)),
        forall|a: usize, b: usize| call_requires(progress, (a, b)),
    ensures
        exists|steps: Seq<ChunkStep>| {
            &&& #[trigger] chain_walk(decoder, data@, steps, r.0@, r.1.bytes_consumed as int)
            &&& r.1.chunks_decoded == steps.len()
        },
        r.1.decoded_bytes == r.0@.len(),
        r.1.source_bytes == data@.len(),
        r.1.bytes_consumed <= data@.len(),
        r.1.tail_bytes_left_raw == data@.len() - r.1.bytes_consumed,
        r.0@.len() % 256 == 0,
        256 * r.1.chunks_decoded <= r.0@.len() <= BLOCK_SIZE * r.1.chunks_decoded,
{
    let len = data.len();
    let mut offset: usize = if len > 49 { 49 } else { 0 };
    let mut chunk_idx: usize = 0;
    let mut output: Vec<u8> = Vec::new();
    let ghost mut steps: Seq<ChunkStep> = Seq::empty();
    loop
        invariant
            len == data@.len(),
            offset <= len,
            chunk_idx == steps.len(),
            chunk_idx <= offset,
            forall|s: &[u8], n: usize| call_requires(decoder, (s, n)),
            forall|a: usize, b: usize| call_requires(progress, (a, b)),
            steps_ok(decoder, data@, steps),
            output@ == steps_output(steps),
            offset == offset_before(chain_start(len as int), steps, steps.len() as int),
        ensures
            walk_ends(decoder, data@, offset as int),
        decreases len - offset,
    {
        if offset >= len {
            break;
        }
        let (actual_offset, compressed_len, out_size) = match find_chunk(data, offset, decoder) {
            Some(found) => found,
            None => break,
        };
        let input = slice_subrange(data, actual_offset, actual_offset + compressed_len);
        let answer = decoder(input, out_size);
        let mut decoded = match answer {
            Some(d) => d,
            None => {
                assert(rejects(decoder, input@, out_size));
                assert(picked(decoder, data@, offset as int, actual_offset as int, compressed_len as int, out_size));
                break;
            },
        };
        if decoded.len() != out_size {
            assert(rejects(decoder, input@, out_size));
            assert(picked(decoder, data@, offset as int, actual_offset as int, compressed_len as int, out_size));
            break;
        }
        let ghost step = ChunkStep {
            probe: actual_offset as int,
            len: compressed_len as int,
            out_size: out_size,
            bytes: decoded@,
        };
        proof {
            assert(decodes_to(decoder, input@, out_size, decoded@));
            lemma_steps_push(decoder, data@, steps, step);
            steps = steps.push(step);
        }
        output.append(&mut decoded);
        offset = actual_offset + compressed_len;
        chunk_idx = chunk_idx + 1;
        progress(offset, len);
    }
    let report = DecodeReport {
        chunks_decoded: chunk_idx,
        decoded_bytes: output.len(),
        source_bytes: len,
        bytes_consumed: offset,
        tail_bytes_left_raw: len - offset,
    };
    let r = (output, report);
    assert(chain_walk(decoder, data@, steps, r.0@, r.1.bytes_consumed as int));
    proof {
        lemma_output_len(steps);
        lemma_steps_sizes(decoder, data@, steps);
    }
    r
}

/// Why the `AltarSaveData` bytes could not be taken out of a save file.
pub enum ExtractError {
    /// The GVAS wrapper could not be read; the text says why.
    Unreadable(String),
    /// The wrapper holds no byte-array property.
    NoByteArray,
}

impl ExtractError {
    /// The text that tells a user what went wrong.
    pub fn message(&self) -> (s: String)
        ensures
            s@ == match self {
                ExtractError::Unreadable(e) => e@,
                ExtractError::NoByteArray => NO_BYTE_ARRAY_MESSAGE@,
            },
    {
        match self {
            ExtractError::Unreadable(e) => {
                let mut s = String::new();
                s.append(e.as_str());
                s
            },
            ExtractError::NoByteArray => {
                let mut s = String::new();
                s.append(NO_BYTE_ARRAY_MESSAGE);
                s
            },
        }
    }
}

/// What a user is told when the save's wrapper holds no byte array.
pub const NO_BYTE_ARRAY_MESSAGE: &'static str = "No byte-array property found in this save's GVAS wrapper \u{2014} is this an Oblivion Remastered .sav file?";

/// The bytes of the first byte-array property, in the file's order.
pub open spec fn first_byte_array(props: Seq<Option<Seq<u8>>>) -> Option<Seq<u8>>
    decreases props.len(),
{
    if props.len() == 0 {
        None
    } else {
        match props[0] {
            Some(b) => Some(b),
            None => first_byte_array(props.drop_first()),
        }
    }
}

/// What becomes of the parsed save wrapper `parsed`: the bytes of its first
/// byte-array property, or why there are none.
pub open spec fn altar_bytes_from(parsed: Result<Seq<Option<Seq<u8>>>, Seq<char>>) -> Result<Seq<u8>, Option<Seq<char>>> {
    match parsed {
        Err(e) => Err(Some(e)),
        Ok(props) => match first_byte_array(props) {
            Some(b) => Ok(b),
            None => Err(None),
        },
    }
}

/// The view of an optional byte vector.
pub open spec fn opt_bytes_view(b: Option<Vec<u8>>) -> Option<Seq<u8>> {
    match b {
        Some(v) => Some(v@),
        None => None,
    }
}

/// The view of a parsed save wrapper: one entry per top-level property,
/// holding the bytes of a byte-array property; or why it could not be read.
pub open spec fn parsed_view(parsed: Result<Vec<Option<Vec<u8>>>, String>) -> Result<Seq<Option<Seq<u8>>>, Seq<char>> {
    match parsed {
        Ok(v) => Ok(v@.map_values(|o: Option<Vec<u8>>| opt_bytes_view(o))),
        Err(e) => Err(e@),
    }
}

/// The view of an extraction's outcome: the bytes, or the reason the wrapper
/// could not be read (nothing when it holds no byte array).
pub open spec fn extraction_view(r: Result<Vec<u8>, ExtractError>) -> Result<Seq<u8>, Option<Seq<char>>> {
    match r {
        Ok(v) => Ok(v@),
        Err(ExtractError::Unreadable(m)) => Err(Some(m@)),
        Err(ExtractError::NoByteArray) => Err(None),
    }
}

/// Picks the `AltarSaveData` bytes out of a parsed save wrapper (one entry per
/// top-level property, holding the bytes of a byte-array property): the first
/// byte array, in the wrapper's order.
pub fn pick_altar_bytes(parsed: Result<Vec<Option<Vec<u8>>>, String>) -> (r: Result<Vec<u8>, ExtractError>)
    ensures
        extraction_view(r) == altar_bytes_from(parsed_view(parsed)),
{
    let mut props = match parsed {
        Ok(p) => p,
        Err(e) => return Err(ExtractError::Unreadable(e)),
    };
    let ghost all = props@.map_values(|o: Option<Vec<u8>>| opt_bytes_view(o));
    let ghost mut skipped: int = 0;
    assert(all.skip(0) =~= all);
    while props.len() > 0
        invariant
            0 <= skipped <= all.len(),
            props@.map_values(|o: Option<Vec<u8>>| opt_bytes_view(o)) =~= all.skip(skipped),
            first_byte_array(all) == first_byte_array(all.skip(skipped)),
            parsed matches Ok(v) && v@.map_values(|o: Option<Vec<u8>>| opt_bytes_view(o)) == all,
        decreases props.len(),
    {
        let ghost rest = all.skip(skipped);
        let item = props.remove(0);
        proof {
            assert(rest[0] == opt_bytes_view(item));
            assert(rest.drop_first() =~= all.skip(skipped + 1));
            skipped = skipped + 1;
        }
        match item {
            Some(bytes) => {
                assert(first_byte_array(rest) == Some(bytes@));
                return Ok(bytes);
            },
            None => {
                assert(first_byte_array(rest) == first_byte_array(rest.drop_first()));
            },
        }
    }
    proof {
        assert(all.skip(skipped).len() == 0);
    }
    Err(ExtractError::NoByteArray)
}

/// The save-wrapper parser, given `save`, can answer with `parsed`.
pub open spec fn parses_to<P: Fn(&[u8]) -> Result<Vec<Option<Vec<u8>>>, String>>(
    parse: &P,
    save: Seq<u8>,
    parsed: Result<Seq<Option<Seq<u8>>>, Seq<char>>,
) -> bool {
    exists|s: &[u8], o: Result<Vec<Option<Vec<u8>>>, String>|
        #[trigger] call_ensures(parse, (s,), o) && s@ == save && parsed_view(o) == parsed
}

/// Takes the raw `AltarSaveData` bytes out of the outer GVAS save file
/// `save`: `parse` reads the wrapper with the `gvas` crate's Unreal
/// tagged-property parser (one entry per top-level property, in the file's
/// order, holding the bytes of a byte-array property), and the first
/// byte-array property is taken (robust to whatever else the wrapper holds,
/// rather than assuming the save data is the last thing in it).
pub fn extract_altar_bytes<P: Fn(&[u8]) -> Result<Vec<Option<Vec<u8>>>, String>>(
    save: &[u8],
    parse: &P,
) -> (r: Result<Vec<u8>, ExtractError>)
    requires
        forall|s: &[u8]| call_requires(parse, (s,)),
    ensures
        exists|parsed: Result<Seq<Option<Seq<u8>>>, Seq<char>>|
            #[trigger] parses_to(parse, save@, parsed) && extraction_view(r) == altar_bytes_from(parsed),
{
    let parsed = parse(save);
    let r = pick_altar_bytes(parsed);
    assert(parses_to(parse, save@, parsed_view(parsed)));
    r
}

/// For a decoder that behaves like a monotone predicate `ok` on prefix
/// lengths (what it takes is `ok`, what it refuses is not, and once a prefix
/// decodes every longer one does), the length the search settles on is the
/// least length that decodes.
pub proof fn lemma_chunk_is_least_length<F: Fn(&[u8], usize) -> Option<Vec<u8>>>(
    decoder: &F,
    data: Seq<u8>,
    start: int,
    out_size: usize,
    max_len: int,
    n: int,
    ok: spec_fn(int) -> bool,
)
    requires
        0 <= start,
        chunk_at(decoder, data, start, out_size, max_len, n),
        forall|k: int| 1 <= k <= search_upper(data.len() as int, start, max_len)
            && accepts(decoder, #[trigger] data.subrange(start, start + k), out_size) ==> ok(k),
        forall|k: int| 1 <= k <= search_upper(data.len() as int, start, max_len)
            && rejects(decoder, #[trigger] data.subrange(start, start + k), out_size) ==> !ok(k),
        forall|j: int, k: int| 1 <= j <= k && #[trigger] ok(j) ==> #[trigger] ok(k),
    ensures
        ok(n),
        forall|k: int| 1 <= k < n ==> !#[trigger] ok(k),
{
    assert(accepts(decoder, data.subrange(start, start + n), out_size));
    if n > 1 {
        assert(rejects(decoder, data.subrange(start, start + (n - 1)), out_size));
        assert(!ok(n - 1));
        assert forall|k: int| 1 <= k < n implies !#[trigger] ok(k) by {
            if ok(k) {
                assert(ok(n - 1));
            }
        }
    }
}

/// For such a decoder, a search that finds nothing means that no prefix within
/// reach decodes.
pub proof fn lemma_no_chunk_means_no_length<F: Fn(&[u8], usize) -> Option<Vec<u8>>>(
    decoder: &F,
    data: Seq<u8>,
    start: int,
    out_size: usize,
    max_len: int,
    ok: spec_fn(int) -> bool,
)
    requires
        0 <= start,
        no_chunk_at(decoder, data, start, out_size, max_len),
        forall|k: int| 1 <= k <= search_upper(data.len() as int, start, max_len)
            && rejects(decoder, #[trigger] data.subrange(start, start + k), out_size) ==> !ok(k),
        forall|j: int, k: int| 1 <= j <= k && #[trigger] ok(j) ==> #[trigger] ok(k),
    ensures
        forall|k: int| 1 <= k <= search_upper(data.len() as int, start, max_len) ==> !#[trigger] ok(k),
{
    let upper = search_upper(data.len() as int, start, max_len);
    if upper > 0 {
        assert(rejects(decoder, data.subrange(start, start + upper), out_size));
        assert(!ok(upper));
        assert forall|k: int| 1 <= k <= upper implies !#[trigger] ok(k) by {
            if ok(k) {
                assert(ok(upper));
            }
        }
    }
}

/// One of the smaller chunk sizes, written out: 64 KiB halving down to 256
/// bytes.
pub open spec fn smaller_size(s: int) -> bool {
    s == 65536 || s == 32768 || s == 16384 || s == 8192 || s == 4096 || s == 2048 || s == 1024 || s == 512 || s == 256
}

/// When the search from `offset` settles on a chunk of a smaller size at
/// `probe`, no full 128 KiB block decodes at any probe of the window, and
/// no larger smaller size decodes at `probe`: the smaller sizes are tried from
/// the largest (65536) down to 256, so the chunk has the largest smaller size
/// that decodes there. And the search looked at no earlier probe that decodes
/// to a full block.
pub proof fn lemma_largest_size_first<F: Fn(&[u8], usize) -> Option<Vec<u8>>>(
    decoder: &F,
    data: Seq<u8>,
    offset: int,
    probe: int,
    n: int,
    size: usize,
)
    requires
        picked(decoder, data, offset, probe, n, size),
    ensures
        size == BLOCK_SIZE || smaller_size(size as int),
        forall|q: int| offset <= q < probe
            ==> #[trigger] no_chunk_at(decoder, data, q, BLOCK_SIZE, max_search(data.len() as int, offset)),
        size != BLOCK_SIZE ==> forall|q: int| offset <= q < window_end(data.len() as int, offset)
            ==> #[trigger] no_chunk_at(decoder, data, q, BLOCK_SIZE, max_search(data.len() as int, offset)),
        size != BLOCK_SIZE ==> forall|s: usize| smaller_size(s as int) && s > size
            ==> #[trigger] no_chunk_at(decoder, data, probe, s, max_search(data.len() as int, offset)),
{
    reveal(picked);
    let ms = max_search(data.len() as int, offset);
    if size != BLOCK_SIZE {
        let j = choose|j: int| 0 <= j < SHRINK_COUNT && size == shrink_size(j)
            && #[trigger] shrink_preceded(decoder, data, offset, probe, j);
        assert(shrink_preceded(decoder, data, offset, probe, j));
        assert forall|s: usize| smaller_size(s as int) && s > size
            implies #[trigger] no_chunk_at(decoder, data, probe, s, ms) by {
            let k: int = if s == 65536 { 0 } else if s == 32768 { 1 } else if s == 16384 { 2 } else if s == 8192 { 3 }
                else if s == 4096 { 4 } else if s == 2048 { 5 } else if s == 1024 { 6 } else if s == 512 { 7 } else { 8 };
            assert(shrink_size(k) == s);
            assert(k < j);
            assert(no_chunk_at(decoder, data, probe, shrink_size(k), ms));
        }
    }
}

/// Every chunk of a walk over the chain has the size the search order gives
/// it: a full block when one decodes at some probe of its window, and
/// otherwise the largest smaller size that decodes at its probe.
pub proof fn lemma_chain_sizes_largest_first<F: Fn(&[u8], usize) -> Option<Vec<u8>>>(
    decoder: &F,
    data: Seq<u8>,
    steps: Seq<ChunkStep>,
    output: Seq<u8>,
    end: int,
    i: int,
)
    requires
        chain_walk(decoder, data, steps, output, end),
        0 <= i < steps.len(),
    ensures
        ({
            let o = offset_before(chain_start(data.len() as int), steps, i);
            let st = steps[i];
            let ms = max_search(data.len() as int, o);
            &&& st.out_size == BLOCK_SIZE || smaller_size(st.out_size as int)
            &&& st.out_size != BLOCK_SIZE ==> forall|q: int| o <= q < window_end(data.len() as int, o)
                    ==> #[trigger] no_chunk_at(decoder, data, q, BLOCK_SIZE, ms)
            &&& st.out_size != BLOCK_SIZE ==> forall|s: usize| smaller_size(s as int) && s > st.out_size
                    ==> #[trigger] no_chunk_at(decoder, data, st.probe, s, ms)
        }),
{
    let o = offset_before(chain_start(data.len() as int), steps, i);
    assert(step_ok(decoder, data, o, steps[i]));
    lemma_largest_size_first(decoder, data, o, steps[i].probe, steps[i].len, steps[i].out_size);
}

/// The geometry of a walk over the chain, in plain numbers: the first chunk
/// is looked for from byte 49 when the data is longer than that (from byte 0
/// otherwise); each chunk starts less than 512 bytes after the end of the one
/// before; and no chunk spans more than 300000 compressed bytes.
pub proof fn lemma_chain_geometry<F: Fn(&[u8], usize) -> Option<Vec<u8>>>(
    decoder: &F,
    data: Seq<u8>,
    steps: Seq<ChunkStep>,
    output: Seq<u8>,
    end: int,
)
    requires
        chain_walk(decoder, data, steps, output, end),
    ensures
        steps.len() > 0 ==> (if data.len() > 49 { 49int } else { 0int }) <= steps[0].probe
            < (if data.len() > 49 { 49int } else { 0int }) + 512,
        forall|i: int| 0 <= i < steps.len() ==> {
            let o = offset_before(chain_start(data.len() as int), steps, i);
            &&& o <= (#[trigger] steps[i]).probe < o + 512
            &&& 1 <= steps[i].len <= 300000
        },
{
    reveal(picked);
    let start = chain_start(data.len() as int);
    assert forall|i: int| 0 <= i < steps.len() implies {
        let o = offset_before(start, steps, i);
        &&& o <= (#[trigger] steps[i]).probe < o + 512
        &&& 1 <= steps[i].len <= 300000
    } by {
        assert(step_ok(decoder, data, offset_before(start, steps, i), steps[i]));
    }
    if steps.len() > 0 {
        assert(offset_before(start, steps, 0) == start);
        assert(step_ok(decoder, data, start, steps[0]));
    }
}

/// The total length of the steps' decoded bytes.
pub open spec fn steps_decoded_len(steps: Seq<ChunkStep>) -> nat
    decreases steps.len(),
{
    if steps.len() == 0 { 0 } else { steps_decoded_len(steps.drop_last()) + steps.last().bytes.len() }
}

/// A walk over the chunk chain moves forward through the data: each chunk
/// starts at or after where the one before it ended (within the header scan
/// window), spans at least one byte, and lies inside the data; where the walk
/// ends lies inside the data; and the output holds exactly the chunks' decoded
/// bytes.
pub proof fn lemma_chain_moves_forward<F: Fn(&[u8], usize) -> Option<Vec<u8>>>(
    decoder: &F,
    data: Seq<u8>,
    steps: Seq<ChunkStep>,
    output: Seq<u8>,
    end: int,
)
    requires
        chain_walk(decoder, data, steps, output, end),
    ensures
        forall|i: int| 0 <= i < steps.len() ==> {
            let o = offset_before(chain_start(data.len() as int), steps, i);
            &&& o <= (#[trigger] steps[i]).probe < o + HEADER_SCAN_WINDOW
            &&& 1 <= steps[i].len
            &&& steps[i].probe + steps[i].len <= data.len()
            &&& chunk_size(steps[i].out_size)
            &&& steps[i].bytes.len() == steps[i].out_size
        },
        chain_start(data.len() as int) <= end <= data.len(),
        output.len() == steps_decoded_len(steps),
{
    reveal(picked);
    let start = chain_start(data.len() as int);
    assert forall|i: int| 0 <= i < steps.len() implies {
        let o = offset_before(start, steps, i);
        &&& o <= (#[trigger] steps[i]).probe < o + HEADER_SCAN_WINDOW
        &&& 1 <= steps[i].len
        &&& steps[i].probe + steps[i].len <= data.len()
        &&& chunk_size(steps[i].out_size)
        &&& steps[i].bytes.len() == steps[i].out_size
    } by {
        assert(step_ok(decoder, data, offset_before(start, steps, i), steps[i]));
    }
    lemma_chain_end_moves(decoder, data, steps, steps.len() as int);
    lemma_output_len(steps);
}

proof fn lemma_chain_end_moves<F: Fn(&[u8], usize) -> Option<Vec<u8>>>(decoder: &F, data: Seq<u8>, steps: Seq<ChunkStep>, k: int)
    requires
        steps_ok(decoder, data, steps),
        0 <= k <= steps.len(),
    ensures
        chain_start(data.len() as int) <= offset_before(chain_start(data.len() as int), steps, k) <= data.len(),
    decreases k,
{
    reveal(picked);
    if k > 0 {
        lemma_chain_end_moves(decoder, data, steps, k - 1);
        assert(step_ok(decoder, data, offset_before(chain_start(data.len() as int), steps, k - 1), steps[k - 1]));
    }
}

/// The decompressed sizes a chunk may have: a full block, or one of the
/// smaller sizes.
pub open spec fn chunk_size(size: usize) -> bool {
    size == BLOCK_SIZE || exists|j: int| 0 <= j < SHRINK_COUNT && size == #[trigger] shrink_size(j)
}

proof fn lemma_chunk_size_bounds(size: usize)
    requires
        chunk_size(size),
    ensures
        size % 256 == 0,
        256 <= size <= BLOCK_SIZE,
{
    if size != BLOCK_SIZE {
        let j = choose|j: int| 0 <= j < SHRINK_COUNT && size == #[trigger] shrink_size(j);
        assert(size == shrink_size(j));
    }
}

/// Each chunk of a walk adds between 256 bytes and a full block, a multiple
/// of 256, to the output.
proof fn lemma_steps_sizes<F: Fn(&[u8], usize) -> Option<Vec<u8>>>(decoder: &F, data: Seq<u8>, steps: Seq<ChunkStep>)
    requires
        steps_ok(decoder, data, steps),
    ensures
        steps_decoded_len(steps) % 256 == 0,
        256 * steps.len() <= steps_decoded_len(steps) <= BLOCK_SIZE * steps.len(),
    decreases steps.len(),
{
    reveal(picked);
    if steps.len() > 0 {
        let start = chain_start(data.len() as int);
        let pre = steps.drop_last();
        assert forall|i: int| 0 <= i < pre.len() implies step_ok(
            decoder,
            data,
            offset_before(start, pre, i),
            #[trigger] pre[i],
        ) by {
            assert(pre[i] == steps[i]);
            assert(offset_before(start, pre, i) == offset_before(start, steps, i));
            assert(step_ok(decoder, data, offset_before(start, steps, i), steps[i]));
        }
        lemma_steps_sizes(decoder, data, pre);
        let last = steps.last();
        let k = steps.len() - 1;
        assert(step_ok(decoder, data, offset_before(start, steps, k), steps[k]));
        assert(chunk_size(last.out_size));
        lemma_chunk_size_bounds(last.out_size);
        let a = steps_decoded_len(pre);
        let b = last.bytes.len();
        assert(b == last.out_size);
        assert((a + b) % 256 == 0) by (nonlinear_arith)
            requires
                a % 256 == 0,
                b % 256 == 0,
        ;
    }
}

proof fn lemma_output_len(steps: Seq<ChunkStep>)
    ensures
        steps_output(steps).len() == steps_decoded_len(steps),
    decreases steps.len(),
{
    if steps.len() > 0 {
        lemma_output_len(steps.drop_last());
    }
}

} // verus!
