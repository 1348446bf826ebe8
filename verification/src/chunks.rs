use vstd::prelude::*;

verus! {

/// One mebibyte: below this size a file is fetched as a single chunk.
pub const ONE_MB: u64 = 1048576u64;

/// Ten mebibytes: the largest span a chunk is given, to bound memory use.
pub const TEN_MB: u64 = 10485760u64;

/// Number of workers used when the caller names none (or names zero).
pub const DEFAULT_THREADS: u64 = 8u64;

/// An inclusive byte range `start_byte..=end_byte` of the remote file,
/// together with how many bytes of it have arrived so far.
#[derive(Debug, Clone, Copy)]
pub struct Chunk {
    pub start_byte: u64,
    pub end_byte: u64,
    pub downloaded: u64,
}

impl Chunk {
    /// A chunk covering `start_byte..=end_byte` with nothing downloaded yet.
    pub fn new(start_byte: u64, end_byte: u64) -> (chunk: Self)
        ensures
            chunk.start_byte == start_byte,
            chunk.end_byte == end_byte,
            chunk.downloaded == 0,
    {
        Chunk { start_byte, end_byte, downloaded: 0 }
    }
}

/// The worker count asked for: `None` and `Some(0)` both mean the default.
pub open spec fn thread_count_spec(threads: Option<u8>) -> u64 {
    match threads {
        Some(n) => if n == 0 { DEFAULT_THREADS } else { n as u64 },
        None => DEFAULT_THREADS,
    }
}

/// Law: a request for `k` workers gets exactly `k` whenever `k` is not
/// zero; only no count at all and a count of zero get the default of 8.
pub proof fn law_thread_count_is_the_count_asked(k: u8)
    ensures
        k != 0 ==> thread_count_spec(Some(k)) == k as u64,
        thread_count_spec(Some(0u8)) == 8,
        thread_count_spec(None) == 8,
{
}

/// The worker count to use for a download request.
pub fn resolve_thread_count(threads: Option<u8>) -> (n: u64)
    ensures
        n == thread_count_spec(threads),
        1 <= n <= 255,
        threads matches Some(k) ==> (k != 0 ==> n == k),
        threads is None || threads == Some(0u8) ==> n == 8,
{
    match threads {
        Some(0) => DEFAULT_THREADS,
        Some(count) => count as u64,
        None => DEFAULT_THREADS,
    }
}

/// How many bytes each chunk holds: the file divided evenly among the
/// workers, the whole file when it is under one mebibyte, and never more
/// than ten mebibytes.
pub open spec fn chunk_span(file_size: u64, threads: u64) -> nat
    recommends
        threads > 0,
{
    let thread_size = file_size / threads;
    if thread_size > TEN_MB {
        TEN_MB as nat
    } else if file_size < ONE_MB {
        file_size as nat
    } else {
        thread_size as nat
    }
}

/// The inclusive ranges `(start, end)` cut from position `start` onwards:
/// each holds `span` bytes, except that none passes the last byte
/// `file_size - 1`, and the next begins right after it.
pub open spec fn chunks_from(start: nat, file_size: nat, span: nat) -> Seq<(nat, nat)>
    decreases file_size - start,
{
    if start >= file_size || span == 0 {
        Seq::empty()
    } else {
        let end: nat = if start + span <= file_size {
            (start + span - 1) as nat
        } else {
            (file_size - 1) as nat
        };
        seq![(start, end)] + chunks_from(end + 1, file_size, span)
    }
}

/// The ranges a download of `file_size` bytes by `threads` workers is cut into.
pub open spec fn chunk_plan(file_size: u64, threads: u64) -> Seq<(nat, nat)> {
    chunks_from(0, file_size as nat, chunk_span(file_size, threads))
}

/// The byte ranges held by a list of chunks (their progress left aside).
pub open spec fn ranges_of(chunks: Seq<Chunk>) -> Seq<(nat, nat)> {
    chunks.map_values(|c: Chunk| (c.start_byte as nat, c.end_byte as nat))
}

/// `p` tiles the bytes `start..file_size` in pieces of `span` bytes: it is
/// empty exactly when nothing is left, its first range begins at `start` and
/// its last ends at the last byte `file_size - 1`, each range begins right
/// after the one before it and lies inside the file, each holds at most
/// `span` bytes and exactly `span` unless it is the last, and the `i`-th
/// begins at `start + i * span`.
pub open spec fn tiles(p: Seq<(nat, nat)>, start: nat, file_size: nat, span: nat) -> bool {
    &&& (p.len() == 0) <==> start >= file_size
    &&& p.len() > 0 ==> p[0].0 == start && p.last().1 + 1 == file_size
    &&& forall|i: int|
        0 <= i < p.len() ==> {
            &&& start <= #[trigger] p[i].0
            &&& p[i].0 <= p[i].1 < file_size
            &&& p[i].1 + 1 - p[i].0 <= span
            &&& p[i].0 == start + i * span
        }
    &&& forall|i: int| 0 < i < p.len() ==> #[trigger] p[i].0 == p[i - 1].1 + 1
    &&& forall|i: int| 0 <= i < p.len() - 1 ==> #[trigger] p[i].1 + 1 - p[i].0 == span
}

/// The ranges cut from any `start` tile the rest of the file.
pub proof fn lemma_chunks_from_tile(start: nat, file_size: nat, span: nat)
    requires
        span > 0,
    ensures
        tiles(chunks_from(start, file_size, span), start, file_size, span),
    decreases file_size - start,
{
    if start < file_size {
        let p = chunks_from(start, file_size, span);
        let end: nat = if start + span <= file_size {
            (start + span - 1) as nat
        } else {
            (file_size - 1) as nat
        };
        let q = chunks_from(end + 1, file_size, span);
        lemma_chunks_from_tile(end + 1, file_size, span);
        assert(p == seq![(start, end)] + q);
        assert forall|i: int| 0 <= i < p.len() implies {
            &&& start <= #[trigger] p[i].0
            &&& p[i].0 <= p[i].1 < file_size
            &&& p[i].1 + 1 - p[i].0 <= span
            &&& p[i].0 == start + i * span
        } by {
            if i > 0 {
                assert(p[i] == q[i - 1]);
                assert(q.len() > 0);
                assert(end + 1 == start + span);
                assert((end + 1) + (i - 1) * span == start + i * span) by (nonlinear_arith)
                    requires
                        end + 1 == start + span,
                ;
            }
        }
        assert forall|i: int| 0 < i < p.len() implies #[trigger] p[i].0 == p[i - 1].1 + 1 by {
            assert(p[i] == q[i - 1]);
            if i > 1 {
                assert(p[i - 1] == q[i - 2]);
            }
        }
        assert forall|i: int| 0 <= i < p.len() - 1 implies #[trigger] p[i].1 + 1 - p[i].0 == span by {
            if i > 0 {
                assert(p[i] == q[i - 1]);
            } else {
                assert(q.len() > 0);
            }
        }
        if q.len() > 0 {
            assert(p.last() == q.last());
        }
    }
}

/// With a worker count a request can give (1 to 255), every file that has
/// bytes gets a positive span, and no span passes ten mebibytes.
pub proof fn lemma_span_bounds(file_size: u64, threads: u64)
    requires
        1 <= threads <= 255,
    ensures
        file_size > 0 ==> chunk_span(file_size, threads) > 0,
        chunk_span(file_size, threads) <= TEN_MB,
        file_size >= ONE_MB ==> file_size / threads > 255,
{
    if file_size >= ONE_MB {
        assert(file_size / threads > 255) by (nonlinear_arith)
            requires
                file_size >= ONE_MB,
                1 <= threads <= 255,
        ;
    }
}

/// Law: the chunks of a download tile its bytes `0..file_size` without gap
/// or overlap. There is none for an empty file; otherwise the first starts at
/// byte 0, the last ends at the last byte `file_size - 1`, each starts right
/// after the one before it, and all but the last hold exactly the span.
pub proof fn law_plan_tiles_file(file_size: u64, threads: u64)
    requires
        1 <= threads <= 255,
    ensures
        tiles(chunk_plan(file_size, threads), 0, file_size as nat, chunk_span(file_size, threads)),
{
    lemma_span_bounds(file_size, threads);
    if file_size > 0 {
        lemma_chunks_from_tile(0, file_size as nat, chunk_span(file_size, threads));
    }
}

/// Law: no chunk holds more than ten mebibytes.
pub proof fn law_chunk_at_most_ten_mb(file_size: u64, threads: u64)
    requires
        1 <= threads <= 255,
    ensures
        forall|i: int|
            0 <= i < chunk_plan(file_size, threads).len() ==> #[trigger] chunk_plan(
                file_size,
                threads,
            )[i].1 + 1 - chunk_plan(file_size, threads)[i].0 <= TEN_MB,
{
    law_plan_tiles_file(file_size, threads);
    lemma_span_bounds(file_size, threads);
}

/// Law: a file under one mebibyte is fetched as one chunk, whatever the
/// number of workers.
pub proof fn law_small_file_is_one_chunk(file_size: u64, threads: u64)
    requires
        threads > 0,
        0 < file_size < ONE_MB,
    ensures
        chunk_plan(file_size, threads) == seq![(0nat, (file_size - 1) as nat)],
{
    assert(file_size / threads <= file_size) by (nonlinear_arith)
        requires
            threads > 0,
    ;
    let p = chunk_plan(file_size, threads);
    assert(chunks_from(file_size as nat, file_size as nat, file_size as nat) =~= Seq::empty());
    assert(p =~= seq![(0nat, (file_size - 1) as nat)]);
}

/// Law: as long as an even share of the file stays within ten mebibytes,
/// there is at most one chunk more than there are workers (the bytes left
/// over by the even division), so the workers share the chunks about evenly.
pub proof fn law_chunks_fit_workers(file_size: u64, threads: u64)
    requires
        1 <= threads <= 255,
        file_size / threads <= TEN_MB,
    ensures
        chunk_plan(file_size, threads).len() <= threads + 1,
{
    let span = chunk_span(file_size, threads);
    let p = chunk_plan(file_size, threads);
    law_plan_tiles_file(file_size, threads);
    lemma_span_bounds(file_size, threads);
    if p.len() > 0 {
        let k: int = p.len() - 1;
        assert(p[k].0 == k * span);
        assert(p[k].0 < file_size);
        if file_size < ONE_MB {
            assert(file_size / threads <= file_size) by (nonlinear_arith)
                requires
                    threads > 0,
            ;
            assert(span == file_size);
            assert(k == 0) by (nonlinear_arith)
                requires
                    k >= 0,
                    k * span < span,
            ;
        } else {
            assert(span == file_size / threads);
            assert(file_size < (threads + 1) * span) by (nonlinear_arith)
                requires
                    span == file_size / threads,
                    threads > 0,
                    span > 255,
                    threads <= 255,
            ;
            assert(k < threads + 1) by (nonlinear_arith)
                requires
                    k * span < file_size,
                    file_size < (threads + 1) * span,
                    k >= 0,
            ;
        }
    }
}

fn span_for(file_size: u64, threads: u64) -> (span: u64)
    requires
        threads > 0,
    ensures
        span == chunk_span(file_size, threads),
{
    let thread_size = file_size / threads;
    let mut byte_size = thread_size;
    if file_size < ONE_MB {
        byte_size = file_size;
    }
    if thread_size > TEN_MB {
        byte_size = TEN_MB;
    }
    byte_size
}

/// Cuts a download of `file_size` bytes into chunks for `threads` workers.
pub fn plan_chunks(file_size: u64, threads: u64) -> (chunks: Vec<Chunk>)
    requires
        1 <= threads <= 255,
    ensures
        ranges_of(chunks@) == chunk_plan(file_size, threads),
        forall|i: int| 0 <= i < chunks.len() ==> #[trigger] chunks@[i].downloaded == 0,
{
    let span = span_for(file_size, threads);
    proof {
        lemma_span_bounds(file_size, threads);
    }
    let ghost whole = chunks_from(0, file_size as nat, span as nat);
    let mut chunks: Vec<Chunk> = Vec::new();
    let mut start: u64 = 0;
    while start < file_size
        invariant
            start <= file_size,
            file_size > 0 ==> span > 0,
            whole == chunks_from(0, file_size as nat, span as nat),
            ranges_of(chunks@) + chunks_from(start as nat, file_size as nat, span as nat) == whole,
            forall|i: int| 0 <= i < chunks.len() ==> #[trigger] chunks@[i].downloaded == 0,
        decreases file_size - start,
    {
        let end = if file_size - start >= span {
            start + span - 1
        } else {
            file_size - 1
        };
        let ghost before = ranges_of(chunks@);
        let ghost rest = chunks_from(end as nat + 1, file_size as nat, span as nat);
        assert(chunks_from(start as nat, file_size as nat, span as nat) == seq![
            (start as nat, end as nat),
        ] + rest);
        chunks.push(Chunk::new(start, end));
        assert(ranges_of(chunks@) =~= before.push((start as nat, end as nat)));
        assert(before.push((start as nat, end as nat)) + rest =~= before + (seq![
            (start as nat, end as nat),
        ] + rest));
        start = end + 1;
    }
    chunks
}

} // verus!
