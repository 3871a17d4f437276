//! Statistics of one column, folded over the row groups of a file.
//!
//! Counts and sizes are summed. The distinct count is the sum of what the
//! chunks report, an estimate and no true count of distinct values. Minimum
//! and maximum are chosen by the byte order of the raw values and decoded once
//! at the end; for signed numbers with negative values that order is not the
//! numeric one.

use vstd::prelude::*;
use vstd::slice::slice_to_vec;
use crate::decode::{decode_value, decoded_text, PhysicalType};
use crate::footer::{groups_cover, ColumnChunkMeta, RowGroupMeta};
use crate::text::{bytes_less, lemma_bytes_less_total, lemma_bytes_less_transitive, slice_less};

verus! {

/// The statistics of one leaf column over the whole file.
#[derive(Debug, Clone)]
pub struct ColumnStats {
    pub min: Option<String>,
    pub max: Option<String>,
    pub nulls: u64,
    pub distinct: Option<u64>,
    pub total_compressed_size: u64,
    pub total_uncompressed_size: u64,
}

/// What a `ColumnStats` holds.
pub struct ColumnStatsView {
    pub min: Option<Seq<char>>,
    pub max: Option<Seq<char>>,
    pub nulls: nat,
    pub distinct: Option<nat>,
    pub total_compressed_size: nat,
    pub total_uncompressed_size: nat,
}

/// The text in an optional string.
pub open spec fn text_of(s: Option<String>) -> Option<Seq<char>> {
    match s {
        Some(t) => Some(t@),
        None => None,
    }
}

impl View for ColumnStats {
    type V = ColumnStatsView;

    open spec fn view(&self) -> ColumnStatsView {
        ColumnStatsView {
            min: text_of(self.min),
            max: text_of(self.max),
            nulls: self.nulls as nat,
            distinct: match self.distinct {
                Some(d) => Some(d as nat),
                None => None,
            },
            total_compressed_size: self.total_compressed_size as nat,
            total_uncompressed_size: self.total_uncompressed_size as nat,
        }
    }
}

/// The chunks of column `col`, one per row group.
pub open spec fn column_chunks(groups: Seq<RowGroupMeta>, col: int) -> Seq<ColumnChunkMeta> {
    Seq::new(groups.len(), |g: int| groups[g].columns@[col])
}

/// The null count that a chunk reports, zero where it reports none.
pub open spec fn chunk_nulls(chunk: ColumnChunkMeta) -> nat {
    match chunk.statistics {
        Some(s) => match s.null_count {
            Some(n) => n as nat,
            None => 0,
        },
        None => 0,
    }
}

/// The distinct count that a chunk reports, if any.
pub open spec fn chunk_distinct(chunk: ColumnChunkMeta) -> Option<nat> {
    match chunk.statistics {
        Some(s) => match s.distinct_count {
            Some(d) => Some(d as nat),
            None => None,
        },
        None => None,
    }
}

/// The raw minimum that a chunk reports, if any.
pub open spec fn chunk_min(chunk: ColumnChunkMeta) -> Option<Seq<u8>> {
    match chunk.statistics {
        Some(s) => match s.min_bytes {
            Some(b) => Some(b@),
            None => None,
        },
        None => None,
    }
}

/// The raw maximum that a chunk reports, if any.
pub open spec fn chunk_max(chunk: ColumnChunkMeta) -> Option<Seq<u8>> {
    match chunk.statistics {
        Some(s) => match s.max_bytes {
            Some(b) => Some(b@),
            None => None,
        },
        None => None,
    }
}

/// The quantity summed for the null count.
pub open spec fn nulls_of() -> spec_fn(ColumnChunkMeta) -> nat {
    |c: ColumnChunkMeta| chunk_nulls(c)
}

/// The quantity summed for the distinct count: what a chunk reports, zero
/// where it reports none.
pub open spec fn distinct_of() -> spec_fn(ColumnChunkMeta) -> nat {
    |c: ColumnChunkMeta|
        match chunk_distinct(c) {
            Some(d) => d,
            None => 0,
        }
}

/// The quantity summed for the compressed size.
pub open spec fn compressed_of() -> spec_fn(ColumnChunkMeta) -> nat {
    |c: ColumnChunkMeta| c.compressed_size as nat
}

/// The quantity summed for the uncompressed size.
pub open spec fn uncompressed_of() -> spec_fn(ColumnChunkMeta) -> nat {
    |c: ColumnChunkMeta| c.uncompressed_size as nat
}

/// The sum of a quantity over chunks.
pub open spec fn sum_of(chunks: Seq<ColumnChunkMeta>, f: spec_fn(ColumnChunkMeta) -> nat) -> nat
    decreases chunks.len(),
{
    if chunks.len() == 0 {
        0
    } else {
        sum_of(chunks.drop_last(), f) + f(chunks.last())
    }
}

/// Some chunk reports a distinct count.
pub open spec fn any_distinct(chunks: Seq<ColumnChunkMeta>) -> bool {
    exists|i: int| 0 <= i < chunks.len() && chunk_distinct(#[trigger] chunks[i]) is Some
}

/// The smaller of a running minimum and a candidate. The running one stays
/// unless the candidate is strictly smaller.
pub open spec fn lesser(running: Option<Seq<u8>>, candidate: Option<Seq<u8>>) -> Option<Seq<u8>> {
    match (running, candidate) {
        (None, c) => c,
        (Some(r), None) => Some(r),
        (Some(r), Some(c)) => if bytes_less(c, r) {
            Some(c)
        } else {
            Some(r)
        },
    }
}

/// The greater of a running maximum and a candidate. The running one stays
/// unless the candidate is strictly greater.
pub open spec fn greater(running: Option<Seq<u8>>, candidate: Option<Seq<u8>>) -> Option<Seq<u8>> {
    match (running, candidate) {
        (None, c) => c,
        (Some(r), None) => Some(r),
        (Some(r), Some(c)) => if bytes_less(r, c) {
            Some(c)
        } else {
            Some(r)
        },
    }
}

/// The least raw minimum that the chunks report, in byte order.
pub open spec fn least_min(chunks: Seq<ColumnChunkMeta>) -> Option<Seq<u8>>
    decreases chunks.len(),
{
    if chunks.len() == 0 {
        None
    } else {
        lesser(least_min(chunks.drop_last()), chunk_min(chunks.last()))
    }
}

/// The greatest raw maximum that the chunks report, in byte order.
pub open spec fn greatest_max(chunks: Seq<ColumnChunkMeta>) -> Option<Seq<u8>>
    decreases chunks.len(),
{
    if chunks.len() == 0 {
        None
    } else {
        greater(greatest_max(chunks.drop_last()), chunk_max(chunks.last()))
    }
}

/// The four sums of a column fit in 64 bits.
pub open spec fn totals_fit(chunks: Seq<ColumnChunkMeta>) -> bool {
    &&& sum_of(chunks, nulls_of()) <= u64::MAX
    &&& sum_of(chunks, distinct_of()) <= u64::MAX
    &&& sum_of(chunks, compressed_of()) <= u64::MAX
    &&& sum_of(chunks, uncompressed_of()) <= u64::MAX
}

/// The statistics of a column whose chunks are given.
pub open spec fn column_stats(
    chunks: Seq<ColumnChunkMeta>,
    physical: PhysicalType,
) -> ColumnStatsView {
    ColumnStatsView {
        min: match least_min(chunks) {
            Some(b) => Some(decoded_text(b, physical, 4)),
            None => None,
        },
        max: match greatest_max(chunks) {
            Some(b) => Some(decoded_text(b, physical, 4)),
            None => None,
        },
        nulls: sum_of(chunks, nulls_of()),
        distinct: if any_distinct(chunks) {
            Some(sum_of(chunks, distinct_of()))
        } else {
            None
        },
        total_compressed_size: sum_of(chunks, compressed_of()),
        total_uncompressed_size: sum_of(chunks, uncompressed_of()),
    }
}

/// A sum over the first chunks is at most the sum over more of them.
pub proof fn lemma_sum_grows(
    chunks: Seq<ColumnChunkMeta>,
    f: spec_fn(ColumnChunkMeta) -> nat,
    i: int,
    j: int,
)
    requires
        0 <= i <= j <= chunks.len(),
    ensures
        sum_of(chunks.take(i), f) <= sum_of(chunks.take(j), f),
    decreases j - i,
{
    if i < j {
        lemma_sum_grows(chunks, f, i, j - 1);
        assert(chunks.take(j).drop_last() =~= chunks.take(j - 1));
    }
}

/// The least minimum is the minimum of some chunk, and no chunk reports a
/// minimum that comes before it in byte order.
pub proof fn lemma_least_min(chunks: Seq<ColumnChunkMeta>)
    ensures
        least_min(chunks) matches Some(m) ==> {
            &&& exists|i: int| 0 <= i < chunks.len() && chunk_min(#[trigger] chunks[i]) == Some(m)
            &&& forall|i: int|
                0 <= i < chunks.len() ==> (chunk_min(#[trigger] chunks[i]) matches Some(b)
                    ==> !bytes_less(b, m))
        },
        least_min(chunks) is None ==> forall|i: int|
            0 <= i < chunks.len() ==> chunk_min(#[trigger] chunks[i]) is None,
    decreases chunks.len(),
{
    if chunks.len() > 0 {
        let before = chunks.drop_last();
        let last = chunks.last();
        lemma_least_min(before);
        assert forall|i: int| 0 <= i < before.len() implies before[i] == chunks[i] by {}
        match least_min(chunks) {
            Some(m) => {
                match least_min(before) {
                    Some(r) => {
                        let w = choose|i: int|
                            0 <= i < before.len() && chunk_min(#[trigger] before[i]) == Some(r);
                        assert(chunks[w] == before[w]);
                        if m == r {
                            assert(chunk_min(chunks[w]) == Some(m));
                        } else {
                            assert(chunk_min(chunks[chunks.len() - 1]) == Some(m));
                        }
                    },
                    None => {
                        assert(chunk_min(chunks[chunks.len() - 1]) == Some(m));
                    },
                }
                assert forall|i: int| 0 <= i < chunks.len() implies (chunk_min(
                    #[trigger] chunks[i],
                ) matches Some(b) ==> !bytes_less(b, m)) by {
                    if let Some(b) = chunk_min(chunks[i]) {
                        lemma_bytes_less_total(b, m);
                        if i < before.len() {
                            assert(chunks[i] == before[i]);
                            let r = least_min(before)->0;
                            if m != r {
                                // The last chunk has replaced `r`, so `m` comes before `r`.
                                if bytes_less(b, m) {
                                    lemma_bytes_less_transitive(b, m, r);
                                }
                            }
                        } else {
                            assert(chunks[i] == last);
                        }
                    }
                }
            },
            None => {
                assert forall|i: int| 0 <= i < chunks.len() implies chunk_min(
                    #[trigger] chunks[i],
                ) is None by {
                    if i < before.len() {
                        assert(chunks[i] == before[i]);
                    }
                }
            },
        }
    }
}

/// The greatest maximum is the maximum of some chunk, and no chunk reports
/// a maximum that comes after it in byte order.
pub proof fn lemma_greatest_max(chunks: Seq<ColumnChunkMeta>)
    ensures
        greatest_max(chunks) matches Some(m) ==> {
            &&& exists|i: int| 0 <= i < chunks.len() && chunk_max(#[trigger] chunks[i]) == Some(m)
            &&& forall|i: int|
                0 <= i < chunks.len() ==> (chunk_max(#[trigger] chunks[i]) matches Some(b)
                    ==> !bytes_less(m, b))
        },
        greatest_max(chunks) is None ==> forall|i: int|
            0 <= i < chunks.len() ==> chunk_max(#[trigger] chunks[i]) is None,
    decreases chunks.len(),
{
    if chunks.len() > 0 {
        let before = chunks.drop_last();
        let last = chunks.last();
        lemma_greatest_max(before);
        assert forall|i: int| 0 <= i < before.len() implies before[i] == chunks[i] by {}
        match greatest_max(chunks) {
            Some(m) => {
                match greatest_max(before) {
                    Some(r) => {
                        let w = choose|i: int|
                            0 <= i < before.len() && chunk_max(#[trigger] before[i]) == Some(r);
                        assert(chunks[w] == before[w]);
                        if m == r {
                            assert(chunk_max(chunks[w]) == Some(m));
                        } else {
                            assert(chunk_max(chunks[chunks.len() - 1]) == Some(m));
                        }
                    },
                    None => {
                        assert(chunk_max(chunks[chunks.len() - 1]) == Some(m));
                    },
                }
                assert forall|i: int| 0 <= i < chunks.len() implies (chunk_max(
                    #[trigger] chunks[i],
                ) matches Some(b) ==> !bytes_less(m, b)) by {
                    if let Some(b) = chunk_max(chunks[i]) {
                        lemma_bytes_less_total(m, b);
                        if i < before.len() {
                            assert(chunks[i] == before[i]);
                            let r = greatest_max(before)->0;
                            if m != r {
                                // The last chunk has replaced `r`, so `m` comes after `r`.
                                if bytes_less(m, b) {
                                    lemma_bytes_less_transitive(r, m, b);
                                }
                            }
                        } else {
                            assert(chunks[i] == last);
                        }
                    }
                }
            },
            None => {
                assert forall|i: int| 0 <= i < chunks.len() implies chunk_max(
                    #[trigger] chunks[i],
                ) is None by {
                    if i < before.len() {
                        assert(chunks[i] == before[i]);
                    }
                }
            },
        }
    }
}

fn copy_bytes(bytes: &Vec<u8>) -> (out: Vec<u8>)
    ensures
        out@ == bytes@,
{
    slice_to_vec(bytes.as_slice())
}

/// Folds the statistics of column `col_idx` over all row groups, or gives
/// nothing where a sum does not fit in 64 bits.
pub fn try_aggregate_column_stats(
    groups: &Vec<RowGroupMeta>,
    col_idx: usize,
    physical: PhysicalType,
) -> (r: Option<ColumnStats>)
    requires
        groups_cover(groups@, col_idx as nat + 1),
    ensures
        r is Some <==> totals_fit(column_chunks(groups@, col_idx as int)),
        r matches Some(stats) ==> stats@ == column_stats(
            column_chunks(groups@, col_idx as int),
            physical,
        ),
{
    let ghost chunks = column_chunks(groups@, col_idx as int);
    let mut min_bytes: Option<Vec<u8>> = None;
    let mut max_bytes: Option<Vec<u8>> = None;
    let mut nulls: u64 = 0;
    let mut distinct: u64 = 0;
    let mut has_distinct: bool = false;
    let mut compressed: u64 = 0;
    let mut uncompressed: u64 = 0;
    let mut g: usize = 0;
    proof {
        assert(chunks.take(0) =~= Seq::<ColumnChunkMeta>::empty());
    }
    while g < groups.len()
        invariant
            g <= groups@.len(),
            groups_cover(groups@, col_idx as nat + 1),
            chunks == column_chunks(groups@, col_idx as int),
            nulls == sum_of(chunks.take(g as int), nulls_of()),
            distinct == sum_of(chunks.take(g as int), distinct_of()),
            has_distinct == any_distinct(chunks.take(g as int)),
            compressed == sum_of(chunks.take(g as int), compressed_of()),
            uncompressed == sum_of(chunks.take(g as int), uncompressed_of()),
            match min_bytes {
                Some(b) => Some(b@),
                None => None,
            } == least_min(chunks.take(g as int)),
            match max_bytes {
                Some(b) => Some(b@),
                None => None,
            } == greatest_max(chunks.take(g as int)),
        decreases groups@.len() - g,
    {
        let chunk = &groups[g].columns[col_idx];
        proof {
            assert(chunks.take(g + 1).drop_last() =~= chunks.take(g as int));
            assert(chunks.take(g + 1).last() == *chunk);
            lemma_sum_grows(chunks, nulls_of(), g + 1, chunks.len() as int);
            lemma_sum_grows(chunks, distinct_of(), g + 1, chunks.len() as int);
            lemma_sum_grows(chunks, compressed_of(), g + 1, chunks.len() as int);
            lemma_sum_grows(chunks, uncompressed_of(), g + 1, chunks.len() as int);
            assert(chunks.take(chunks.len() as int) =~= chunks);
            let before = chunks.take(g as int);
            let after = chunks.take(g + 1);
            if any_distinct(before) {
                let i = choose|i: int|
                    0 <= i < before.len() && chunk_distinct(#[trigger] before[i]) is Some;
                assert(after[i] == before[i]);
            }
            if chunk_distinct(*chunk) is Some {
                assert(chunk_distinct(after[g as int]) is Some);
            }
            if any_distinct(after) {
                let i = choose|i: int|
                    0 <= i < after.len() && chunk_distinct(#[trigger] after[i]) is Some;
                if i < g {
                    assert(before[i] == after[i]);
                }
            }
        }
        if let Some(stats) = &chunk.statistics {
            if let Some(n) = stats.null_count {
                match nulls.checked_add(n) {
                    Some(sum) => {
                        nulls = sum;
                    },
                    None => {
                        return None;
                    },
                }
            }
            if let Some(d) = stats.distinct_count {
                match distinct.checked_add(d) {
                    Some(sum) => {
                        distinct = sum;
                    },
                    None => {
                        return None;
                    },
                }
                has_distinct = true;
            }
            if let Some(candidate) = &stats.min_bytes {
                let replace: bool = match &min_bytes {
                    Some(running) => slice_less(candidate.as_slice(), running.as_slice()),
                    None => true,
                };
                if replace {
                    min_bytes = Some(copy_bytes(candidate));
                }
            }
            if let Some(candidate) = &stats.max_bytes {
                let replace: bool = match &max_bytes {
                    Some(running) => slice_less(running.as_slice(), candidate.as_slice()),
                    None => true,
                };
                if replace {
                    max_bytes = Some(copy_bytes(candidate));
                }
            }
        }
        match compressed.checked_add(chunk.compressed_size) {
            Some(sum) => {
                compressed = sum;
            },
            None => {
                return None;
            },
        }
        match uncompressed.checked_add(chunk.uncompressed_size) {
            Some(sum) => {
                uncompressed = sum;
            },
            None => {
                return None;
            },
        }
        g = g + 1;
    }
    proof {
        assert(chunks.take(g as int) =~= chunks);
    }
    let min: Option<String> = match &min_bytes {
        Some(b) => Some(decode_value(b.as_slice(), physical)),
        None => None,
    };
    let max: Option<String> = match &max_bytes {
        Some(b) => Some(decode_value(b.as_slice(), physical)),
        None => None,
    };
    Some(
        ColumnStats {
            min,
            max,
            nulls,
            distinct: if has_distinct {
                Some(distinct)
            } else {
                None
            },
            total_compressed_size: compressed,
            total_uncompressed_size: uncompressed,
        },
    )
}

/// Folds the statistics of column `col_idx` over all row groups.
pub fn aggregate_column_stats(
    groups: &Vec<RowGroupMeta>,
    col_idx: usize,
    physical: PhysicalType,
) -> (stats: ColumnStats)
    requires
        groups_cover(groups@, col_idx as nat + 1),
        totals_fit(column_chunks(groups@, col_idx as int)),
    ensures
        stats@ == column_stats(column_chunks(groups@, col_idx as int), physical),
{
    match try_aggregate_column_stats(groups, col_idx, physical) {
        Some(stats) => stats,
        None => unreached(),
    }
}

} // verus!
