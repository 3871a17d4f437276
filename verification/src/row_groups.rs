//! What is shown of the row groups of a file: per row group its sizes, and
//! per column chunk its place, its sizes and its pages.

use vstd::prelude::*;
use crate::dictionary::PageKind;
use crate::double::{nearest, quotient, Double};

verus! {

/// One page of a column chunk.
pub struct PageInfo {
    pub page_type: String,
    pub size: usize,
    pub rows: usize,
    pub encoding: String,
}

/// The pages of a column chunk.
pub struct RowGroupPageInfo {
    pub page_infos: Vec<PageInfo>,
}

/// One page of a column chunk, as the page table lists it.
pub struct PageStats {
    pub page_type: String,
    pub size: usize,
    pub rows: usize,
    pub encoding: String,
}

/// The pages of a column chunk, as the page table lists them.
pub struct RowGroupPageStats {
    pub page_stats: Vec<PageStats>,
}

/// Which optional parts a column chunk has.
pub struct HasStats {
    pub has_stats: bool,
    pub has_dictionary_page: bool,
    pub has_bloom_filter: bool,
    pub has_page_encoding_stats: bool,
}

/// The statistics of one column chunk, rendered.
pub struct RowGroupColumnStats {
    pub min: Option<String>,
    pub max: Option<String>,
    pub null_count: Option<u64>,
    pub distinct_count: Option<u64>,
}

/// One column chunk of a row group.
pub struct RowGroupColumnMetadata {
    pub file_offset: i64,
    pub column_path: String,
    pub has_stats: HasStats,
    pub statistics: Option<RowGroupColumnStats>,
    pub total_compressed_size: i64,
    pub total_uncompressed_size: i64,
    pub compression_type: String,
    pub pages: RowGroupPageInfo,
}

/// One row group.
pub struct RowGroupStats {
    pub idx: usize,
    pub rows: i64,
    pub compressed_size: i64,
    pub uncompressed_size: i64,
    pub compression_ratio: String,
    pub column_metadata: Vec<RowGroupColumnMetadata>,
}

/// The row groups of a file.
pub struct RowGroups {
    pub row_groups: Vec<RowGroupStats>,
}

impl RowGroups {
    /// The number of row groups.
    pub fn num_row_groups(&self) -> (n: usize)
        ensures
            n == self.row_groups@.len(),
    {
        self.row_groups.len()
    }
}

/// The label of a kind of page.
pub open spec fn page_type_text(kind: PageKind) -> Seq<char> {
    match kind {
        PageKind::DataPage => "Data Page"@,
        PageKind::IndexPage => "Index Page"@,
        PageKind::DictionaryPage => "Dictionary Page"@,
        PageKind::DataPageV2 => "Data Page V2"@,
    }
}

/// The label of a kind of page.
pub fn page_type_label(kind: PageKind) -> (s: String)
    ensures
        s@ == page_type_text(kind),
{
    match kind {
        PageKind::DataPage => "Data Page".to_owned(),
        PageKind::IndexPage => "Index Page".to_owned(),
        PageKind::DictionaryPage => "Dictionary Page".to_owned(),
        PageKind::DataPageV2 => "Data Page V2".to_owned(),
    }
}

/// The label of an encoding, given by its tag. The common encodings have a
/// label in words; any other is shown by its tag.
pub open spec fn encoding_text(tag: Seq<char>) -> Seq<char> {
    if tag == "PLAIN"@ {
        "Plain"@
    } else if tag == "PLAIN_DICTIONARY"@ {
        "Plain Dictionary"@
    } else if tag == "RLE"@ {
        "RLE"@
    } else if tag == "DELTA_BINARY_PACKED"@ {
        "Delta Binary Packed"@
    } else if tag == "DELTA_LENGTH_BYTE_ARRAY"@ {
        "Delta Length Byte Array"@
    } else if tag == "DELTA_BYTE_ARRAY"@ {
        "Delta Byte Array"@
    } else if tag == "RLE_DICTIONARY"@ {
        "RLE Dictionary"@
    } else if tag == "BYTE_STREAM_SPLIT"@ {
        "Byte Stream Split"@
    } else {
        tag
    }
}

fn tag_is(tag: &str, name: &str) -> (r: bool)
    ensures
        r == (tag@ == name@),
{
    let a: String = tag.to_owned();
    let b: String = name.to_owned();
    a == b
}

/// The label of an encoding, given by its tag.
pub fn encoding_label(tag: &str) -> (s: String)
    ensures
        s@ == encoding_text(tag@),
{
    if tag_is(tag, "PLAIN") {
        "Plain".to_owned()
    } else if tag_is(tag, "PLAIN_DICTIONARY") {
        "Plain Dictionary".to_owned()
    } else if tag_is(tag, "RLE") {
        "RLE".to_owned()
    } else if tag_is(tag, "DELTA_BINARY_PACKED") {
        "Delta Binary Packed".to_owned()
    } else if tag_is(tag, "DELTA_LENGTH_BYTE_ARRAY") {
        "Delta Length Byte Array".to_owned()
    } else if tag_is(tag, "DELTA_BYTE_ARRAY") {
        "Delta Byte Array".to_owned()
    } else if tag_is(tag, "RLE_DICTIONARY") {
        "RLE Dictionary".to_owned()
    } else if tag_is(tag, "BYTE_STREAM_SPLIT") {
        "Byte Stream Split".to_owned()
    } else {
        tag.to_owned()
    }
}

impl PageInfo {
    /// What the page table shows of a page of the given kind, size, number
    /// of values and encoding.
    pub fn new(kind: PageKind, size: usize, rows: usize, encoding: &str) -> (info: PageInfo)
        ensures
            info.page_type@ == page_type_text(kind),
            info.size == size,
            info.rows == rows,
            info.encoding@ == encoding_text(encoding@),
    {
        PageInfo {
            page_type: page_type_label(kind),
            size,
            rows,
            encoding: encoding_label(encoding),
        }
    }
}

/// The sum of the compressed sizes of column chunks.
pub open spec fn compressed_sum(columns: Seq<RowGroupColumnMetadata>) -> int
    decreases columns.len(),
{
    if columns.len() == 0 {
        0
    } else {
        compressed_sum(columns.drop_last()) + columns.last().total_compressed_size
    }
}

/// The sum of the uncompressed sizes of column chunks.
pub open spec fn uncompressed_sum(columns: Seq<RowGroupColumnMetadata>) -> int
    decreases columns.len(),
{
    if columns.len() == 0 {
        0
    } else {
        uncompressed_sum(columns.drop_last()) + columns.last().total_uncompressed_size
    }
}

/// Summed chunk after chunk, the sizes never leave the signed 64-bit
/// numbers.
pub open spec fn sums_stay(columns: Seq<RowGroupColumnMetadata>) -> bool {
    forall|k: int|
        0 <= k <= columns.len() ==> i64::MIN <= compressed_sum(#[trigger] columns.take(k))
            <= i64::MAX && i64::MIN <= uncompressed_sum(columns.take(k)) <= i64::MAX
}

/// The double nearest to a whole number.
pub open spec fn nearest_signed(n: int) -> Double {
    nearest(
        n < 0,
        (if n < 0 {
            -n
        } else {
            n
        }) as nat,
    )
}

/// The uncompressed size over the compressed size, with two decimal
/// places.
pub open spec fn ratio_text(compressed: int, uncompressed: int) -> Seq<char> {
    quotient(nearest_signed(uncompressed), nearest_signed(compressed)).text(2)
}

/// Renders the uncompressed size over the compressed size with two decimal
/// places.
pub fn compression_ratio(compressed: i64, uncompressed: i64) -> (s: String)
    ensures
        s@ == ratio_text(compressed as int, uncompressed as int),
{
    let q = Double::from_i64(uncompressed).divide(Double::from_i64(compressed));
    proof {
        crate::double::lemma_pow2_values();
    }
    q.to_fixed(2)
}

impl RowGroupStats {
    /// A row group made of its column chunks: the sizes are the sums over
    /// the chunks. Nothing is given where a sum, on the way through the
    /// chunks, leaves the signed 64-bit numbers.
    pub fn from_columns(idx: usize, rows: i64, column_metadata: Vec<RowGroupColumnMetadata>) -> (r:
        Option<RowGroupStats>)
        ensures
            r matches Some(stats) ==> {
                &&& stats.idx == idx
                &&& stats.rows == rows
                &&& stats.column_metadata == column_metadata
                &&& stats.compressed_size == compressed_sum(column_metadata@)
                &&& stats.uncompressed_size == uncompressed_sum(column_metadata@)
                &&& stats.compression_ratio@ == ratio_text(
                    stats.compressed_size as int,
                    stats.uncompressed_size as int,
                )
            },
            r is Some <==> sums_stay(column_metadata@),
    {
        let mut compressed_size: i64 = 0;
        let mut uncompressed_size: i64 = 0;
        let mut i: usize = 0;
        proof {
            assert(column_metadata@.take(0) =~= Seq::<RowGroupColumnMetadata>::empty());
        }
        while i < column_metadata.len()
            invariant
                i <= column_metadata@.len(),
                compressed_size == compressed_sum(column_metadata@.take(i as int)),
                uncompressed_size == uncompressed_sum(column_metadata@.take(i as int)),
                forall|k: int|
                    0 <= k <= i ==> i64::MIN <= compressed_sum(#[trigger] column_metadata@.take(k))
                        <= i64::MAX && i64::MIN <= uncompressed_sum(column_metadata@.take(k))
                        <= i64::MAX,
            decreases column_metadata@.len() - i,
        {
            proof {
                assert(column_metadata@.take(i + 1).drop_last() =~= column_metadata@.take(
                    i as int,
                ));
            }
            let chunk = &column_metadata[i];
            compressed_size = match compressed_size.checked_add(chunk.total_compressed_size) {
                Some(n) => n,
                None => {
                    return None;
                },
            };
            uncompressed_size = match uncompressed_size.checked_add(
                chunk.total_uncompressed_size,
            ) {
                Some(n) => n,
                None => {
                    return None;
                },
            };
            i = i + 1;
        }
        proof {
            assert(column_metadata@.take(i as int) =~= column_metadata@);
        }
        Some(
            RowGroupStats {
                idx,
                rows,
                compressed_size,
                uncompressed_size,
                compression_ratio: compression_ratio(compressed_size, uncompressed_size),
                column_metadata,
            },
        )
    }
}

} // verus!
