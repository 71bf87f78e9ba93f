//! Searching a large read-only sequence for a value, one chunk per task: each
//! task reports the first match in its chunk, and the caller drains the
//! reports until one of them holds a match.
use vstd::prelude::*;

verus! {

/// `k` is the first position of `target` in `data[lo..hi]`.
pub open spec fn first_at(data: Seq<u32>, target: u32, lo: int, hi: int, k: int) -> bool {
    &&& lo <= k < hi
    &&& data[k] == target
    &&& forall|j: int| lo <= j < k ==> data[j] != target
}

/// `target` occurs somewhere in `data[lo..hi]`.
pub open spec fn occurs_in(data: Seq<u32>, target: u32, lo: int, hi: int) -> bool {
    exists|k: int| lo <= k < hi && data[k] == target
}

/// The first report that holds a match, in the order the reports came.
pub open spec fn first_report(reports: Seq<Option<usize>>) -> Option<usize>
    decreases reports.len(),
{
    if reports.len() == 0 {
        None
    } else if reports[0] is Some {
        reports[0]
    } else {
        first_report(reports.drop_first())
    }
}

/// `report` is what the task of chunk `chunk` sends.
pub open spec fn reports_chunk(
    data: Seq<u32>,
    target: u32,
    chunk_size: int,
    chunk: int,
    report: Option<usize>,
) -> bool {
    let lo = chunk * chunk_size;
    let hi = (chunk + 1) * chunk_size;
    match report {
        Some(k) => first_at(data, target, lo, hi, k as int),
        None => !occurs_in(data, target, lo, hi),
    }
}

/// Some report came from chunk `c`.
pub open spec fn chunk_reported(origin: Seq<int>, c: int) -> bool {
    exists|j: int| 0 <= j < origin.len() && origin[j] == c
}

/// Each of the `n_chunks` chunks sent a report.
pub open spec fn every_chunk_reported(origin: Seq<int>, n_chunks: int) -> bool {
    forall|c: int| 0 <= c < n_chunks ==> #[trigger] chunk_reported(origin, c)
}

/// What the first report holds comes from some report, and no report holds a
/// match when there is no first one.
proof fn lemma_first_report(reports: Seq<Option<usize>>)
    ensures
        first_report(reports) matches Some(k) ==> exists|j: int|
            0 <= j < reports.len() && reports[j] == Some(k),
        first_report(reports) is None ==> forall|j: int|
            0 <= j < reports.len() ==> reports[j] is None,
    decreases reports.len(),
{
    if reports.len() > 0 && reports[0] is None {
        let rest = reports.drop_first();
        lemma_first_report(rest);
        if let Some(k) = first_report(rest) {
            let j = choose|j: int| 0 <= j < rest.len() && rest[j] == Some(k);
            assert(reports[j + 1] == Some(k));
        }
        assert forall|j: int| 0 <= j < reports.len() && first_report(rest) is None implies reports[j] is None by {
            if j > 0 {
                assert(reports[j] == rest[j - 1]);
            }
        }
    }
}

/// Draining the reports of a chunked search, in whatever order they came:
/// a match found is a position of `target` in the searched part; when every
/// chunk reported and none found it, `target` is not in the searched part;
/// and when `target` occurs at exactly one position of the searched part,
/// that position is what the drain finds.
pub proof fn lemma_drain_finds_target(
    data: Seq<u32>,
    target: u32,
    chunk_size: int,
    n_chunks: int,
    reports: Seq<Option<usize>>,
    origin: Seq<int>,
)
    requires
        chunk_size > 0,
        n_chunks >= 0,
        n_chunks * chunk_size <= data.len(),
        origin.len() == reports.len(),
        forall|j: int|
            0 <= j < reports.len() ==> 0 <= #[trigger] origin[j] < n_chunks && reports_chunk(
                data,
                target,
                chunk_size,
                origin[j],
                reports[j],
            ),
    ensures
        first_report(reports) matches Some(k) ==> k < n_chunks * chunk_size && data[k as int]
            == target,
        every_chunk_reported(origin, n_chunks)
            ==> (first_report(reports) is None <==> !occurs_in(data, target, 0, n_chunks * chunk_size)),
        forall|p: int|
            #![trigger data[p]]
            0 <= p < n_chunks * chunk_size && data[p] == target && (forall|q: int|
                0 <= q < n_chunks * chunk_size && data[q] == target ==> q == p) && every_chunk_reported(origin, n_chunks)
                ==> first_report(reports) == Some(p as usize),
{
    lemma_first_report(reports);
    if let Some(k) = first_report(reports) {
        let j = choose|j: int| 0 <= j < reports.len() && reports[j] == Some(k);
        let c = origin[j];
        assert(reports_chunk(data, target, chunk_size, c, reports[j]));
        assert((c + 1) * chunk_size <= n_chunks * chunk_size) by (nonlinear_arith)
            requires
                c < n_chunks,
                chunk_size > 0,
        ;
    }
    if every_chunk_reported(origin, n_chunks) {
        assert forall|p: int| 0 <= p < n_chunks * chunk_size && data[p] == target implies first_report(
            reports,
        ) is Some by {
            let c = p / chunk_size;
            assert(c * chunk_size <= p < (c + 1) * chunk_size && 0 <= c < n_chunks) by (nonlinear_arith)
                requires
                    c == p / chunk_size,
                    chunk_size > 0,
                    0 <= p < n_chunks * chunk_size,
            ;
            assert(chunk_reported(origin, c));
            let j = choose|j: int| 0 <= j < origin.len() && origin[j] == c;
            assert(reports_chunk(data, target, chunk_size, origin[j], reports[j]));
        }
    }
}

/// How many whole chunks of `chunk_size` items `len` items make; a shorter
/// tail is not searched.
pub fn chunk_count(len: usize, chunk_size: usize) -> (r: usize)
    requires
        chunk_size > 0,
    ensures
        r == len / chunk_size,
        r * chunk_size <= len,
{
    let r = len / chunk_size;
    assert(r * chunk_size <= len) by (nonlinear_arith)
        requires
            r == len / chunk_size,
            chunk_size > 0,
    ;
    r
}

/// The task of chunk `chunk`: the global index of the first `target` in
/// `data[chunk * chunk_size .. (chunk + 1) * chunk_size]`, if any.
pub fn find_in_chunk(data: &[u32], target: u32, chunk: usize, chunk_size: usize) -> (r: Option<
    usize,
>)
    requires
        (chunk + 1) * chunk_size <= data@.len(),
    ensures
        r matches Some(k) ==> first_at(
            data@,
            target,
            chunk * chunk_size,
            (chunk + 1) * chunk_size,
            k as int,
        ),
        r is None <==> !occurs_in(data@, target, chunk * chunk_size, (chunk + 1) * chunk_size),
{
    let n = data.len();
    assert(chunk * chunk_size + chunk_size <= n) by (nonlinear_arith)
        requires
            (chunk + 1) * chunk_size <= n,
    ;
    assert((chunk + 1) * chunk_size == chunk * chunk_size + chunk_size) by (nonlinear_arith);
    let start = chunk * chunk_size;
    let end = start + chunk_size;
    let mut k: usize = start;
    while k < end
        invariant
            start <= k <= end,
            end <= data@.len(),
            start == chunk * chunk_size,
            end == (chunk + 1) * chunk_size,
            forall|j: int| start <= j < k ==> data@[j] != target,
        decreases end - k,
    {
        if data[k] == target {
            return Some(k);
        }
        k = k + 1;
    }
    None
}

/// Drains the reports in the order they came: the first match, reported as
/// a 32-bit index (truncated, as the search's callers take it), or `None`
/// when no report holds one.
pub fn first_match(reports: &[Option<usize>]) -> (r: Option<u32>)
    ensures
        r == (match first_report(reports@) {
            Some(k) => Some(#[verifier::truncate] (k as u32)),
            None => None::<u32>,
        }),
{
    let mut i: usize = 0;
    assert(reports@.subrange(0, reports@.len() as int) == reports@);
    while i < reports.len()
        invariant
            i <= reports@.len(),
            first_report(reports@) == first_report(reports@.subrange(i as int, reports@.len() as int)),
        decreases reports.len() - i,
    {
        let ghost tail = reports@.subrange(i as int, reports@.len() as int);
        assert(tail.drop_first() == reports@.subrange(i + 1, reports@.len() as int));
        if let Some(k) = reports[i] {
            return Some(#[verifier::truncate] (k as u32));
        }
        i = i + 1;
    }
    None
}

} // verus!
