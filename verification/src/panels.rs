//! What the panels say: the pairs of a name and a value that the metadata
//! panels list, and the rows of the table of pages.

use vstd::prelude::*;
use crate::metadata::FileMetadata;
use crate::row_groups::{
    ratio_text,
    compression_ratio,
    RowGroupColumnMetadata,
    RowGroupColumnStats,
    RowGroupPageInfo,
    RowGroupStats,
};
use crate::stats::text_of;
use crate::text::{decimal_digits, unsigned_to_string, views};
use crate::utils::{commas, commas_text, human_readable_bytes, human_readable_bytes_text};

verus! {

/// A name and the value shown beside it.
pub struct Pair {
    pub key: String,
    pub value: String,
}

/// What a list of pairs holds.
pub open spec fn pair_views(pairs: Seq<Pair>) -> Seq<(Seq<char>, Seq<char>)> {
    Seq::new(pairs.len(), |i: int| (pairs[i].key@, pairs[i].value@))
}

/// A signed number read as an unsigned one of 64 bits.
pub open spec fn unsigned(n: i64) -> nat {
    if n < 0 {
        (n + 0x1_0000_0000_0000_0000) as nat
    } else {
        n as nat
    }
}

fn as_unsigned(n: i64) -> (u: u64)
    ensures
        u == unsigned(n),
{
    if n < 0 {
        (n as i128 + 0x1_0000_0000_0000_0000) as u64
    } else {
        n as u64
    }
}

fn pair(key: &str, value: String) -> (p: Pair)
    ensures
        p.key@ == key@,
        p.value == value,
{
    Pair { key: key.to_owned(), value }
}

/// The lines of the panel of file metadata.
pub open spec fn file_metadata_lines(md: FileMetadata) -> Seq<(Seq<char>, Seq<char>)> {
    seq![
        ("Format version"@, md.format_version@),
        ("Created by"@, md.created_by@),
        ("Rows"@, commas_text(md.num_rows as nat)),
        ("Columns"@, decimal_digits(md.num_columns as nat)),
        ("Row groups"@, decimal_digits(md.num_row_groups as nat)),
        ("Size (raw)"@, human_readable_bytes_text(md.raw_size as nat)),
        ("Size (compressed)"@, human_readable_bytes_text(md.compressed_size as nat)),
        ("Compression ratio"@, md.compression_ratio.text(2) + "x"@),
        ("Codecs (cols)"@, md.codecs@),
        ("Encodings"@, md.encodings@),
        ("Avg row size"@, decimal_digits(md.avg_row_size as nat) + " B"@),
    ]
}

/// Lists the figures of a file for its panel.
pub fn file_metadata_pairs(md: &FileMetadata) -> (pairs: Vec<Pair>)
    requires
        md.compression_ratio.well_formed(),
    ensures
        pair_views(pairs@) == file_metadata_lines(*md),
{
    let mut pairs: Vec<Pair> = Vec::new();
    pairs.push(pair("Format version", md.format_version.clone()));
    pairs.push(pair("Created by", md.created_by.clone()));
    pairs.push(pair("Rows", commas(md.num_rows as u64)));
    pairs.push(pair("Columns", unsigned_to_string(md.num_columns as u64)));
    pairs.push(pair("Row groups", unsigned_to_string(md.num_row_groups as u64)));
    pairs.push(pair("Size (raw)", human_readable_bytes(md.raw_size)));
    pairs.push(pair("Size (compressed)", human_readable_bytes(md.compressed_size)));
    pairs.push(pair("Compression ratio", md.compression_ratio_text()));
    pairs.push(pair("Codecs (cols)", md.codecs.clone()));
    pairs.push(pair("Encodings", md.encodings.clone()));
    let mut avg = unsigned_to_string(md.avg_row_size);
    avg.append(" B");
    pairs.push(pair("Avg row size", avg));
    proof {
        assert(pair_views(pairs@) =~= file_metadata_lines(*md));
    }
    pairs
}

/// The ratio of a column chunk as it is shown, or a note where nothing is
/// compressed.
pub open spec fn chunk_ratio_text(compressed: i64, uncompressed: i64) -> Seq<char> {
    if compressed > 0 {
        ratio_text(compressed as int, uncompressed as int) + "x"@
    } else {
        "N/A"@
    }
}

/// The lines of the panel of a column chunk.
pub open spec fn column_metadata_lines(c: RowGroupColumnMetadata) -> Seq<(Seq<char>, Seq<char>)> {
    seq![
        ("File Offset (B)"@, commas_text(unsigned(c.file_offset))),
        ("Compressed Size"@, human_readable_bytes_text(unsigned(c.total_compressed_size))),
        ("Uncompressed Size"@, human_readable_bytes_text(unsigned(c.total_uncompressed_size))),
        (
            "Compression Ratio"@,
            chunk_ratio_text(c.total_compressed_size, c.total_uncompressed_size),
        ),
        ("Compression Type"@, c.compression_type@),
    ]
}

/// Lists the figures of a column chunk for its panel.
pub fn column_metadata_pairs(c: &RowGroupColumnMetadata) -> (pairs: Vec<Pair>)
    ensures
        pair_views(pairs@) == column_metadata_lines(*c),
{
    let ratio: String = if c.total_compressed_size > 0 {
        let mut s = compression_ratio(c.total_compressed_size, c.total_uncompressed_size);
        s.append("x");
        s
    } else {
        "N/A".to_owned()
    };
    let mut pairs: Vec<Pair> = Vec::new();
    pairs.push(pair("File Offset (B)", commas(as_unsigned(c.file_offset))));
    pairs.push(pair("Compressed Size", human_readable_bytes(as_unsigned(c.total_compressed_size))));
    pairs.push(
        pair("Uncompressed Size", human_readable_bytes(as_unsigned(c.total_uncompressed_size))),
    );
    pairs.push(pair("Compression Ratio", ratio));
    pairs.push(pair("Compression Type", c.compression_type.clone()));
    proof {
        assert(pair_views(pairs@) =~= column_metadata_lines(*c));
    }
    pairs
}

/// A count, or a note where it is not known.
pub open spec fn count_or_note(count: Option<u64>) -> Seq<char> {
    match count {
        Some(n) => decimal_digits(n as nat),
        None => "N/A"@,
    }
}

/// A text, or a note where there is none.
pub open spec fn text_or_note(text: Option<Seq<char>>) -> Seq<char> {
    match text {
        Some(t) => t,
        None => "N/A"@,
    }
}

/// The lines of the panel of a column chunk's statistics.
pub open spec fn column_statistics_lines(stats: RowGroupColumnStats) -> Seq<
    (Seq<char>, Seq<char>),
> {
    seq![
        ("Min"@, text_or_note(text_of(stats.min))),
        ("Max"@, text_or_note(text_of(stats.max))),
        ("Null Count"@, count_or_note(stats.null_count)),
        ("Distinct Count"@, count_or_note(stats.distinct_count)),
    ]
}

fn count_or_note_string(count: Option<u64>) -> (s: String)
    ensures
        s@ == count_or_note(count),
{
    match count {
        Some(n) => unsigned_to_string(n),
        None => "N/A".to_owned(),
    }
}

fn text_or_note_string(text: &Option<String>) -> (s: String)
    ensures
        s@ == text_or_note(text_of(*text)),
{
    match text {
        Some(t) => t.clone(),
        None => "N/A".to_owned(),
    }
}

/// Lists the statistics of a column chunk for their panel.
pub fn column_statistics_pairs(stats: &RowGroupColumnStats) -> (pairs: Vec<Pair>)
    ensures
        pair_views(pairs@) == column_statistics_lines(*stats),
{
    let mut pairs: Vec<Pair> = Vec::new();
    pairs.push(pair("Min", text_or_note_string(&stats.min)));
    pairs.push(pair("Max", text_or_note_string(&stats.max)));
    pairs.push(pair("Null Count", count_or_note_string(stats.null_count)));
    pairs.push(pair("Distinct Count", count_or_note_string(stats.distinct_count)));
    proof {
        assert(pair_views(pairs@) =~= column_statistics_lines(*stats));
    }
    pairs
}

/// The row of the table of pages for the page at `index`: its number,
/// counted from one, its kind, its size, its values and its encoding.
pub open spec fn page_line(pages: RowGroupPageInfo, index: int) -> Seq<Seq<char>> {
    seq![
        decimal_digits((index + 1) as nat),
        pages.page_infos@[index].page_type@,
        human_readable_bytes_text(pages.page_infos@[index].size as nat),
        commas_text(pages.page_infos@[index].rows as nat),
        pages.page_infos@[index].encoding@,
    ]
}

/// Lists the pages of a column chunk for their table.
pub fn page_rows(pages: &RowGroupPageInfo) -> (rows: Vec<Vec<String>>)
    ensures
        rows@.len() == pages.page_infos@.len(),
        forall|i: int|
            0 <= i < rows@.len() ==> views((#[trigger] rows@[i])@) == page_line(*pages, i),
{
    let mut rows: Vec<Vec<String>> = Vec::new();
    let mut i: usize = 0;
    while i < pages.page_infos.len()
        invariant
            i <= pages.page_infos@.len(),
            rows@.len() == i,
            forall|k: int| 0 <= k < i ==> views((#[trigger] rows@[k])@) == page_line(*pages, k),
        decreases pages.page_infos@.len() - i,
    {
        let page = &pages.page_infos[i];
        let mut row: Vec<String> = Vec::new();
        row.push(unsigned_to_string(i as u64 + 1));
        row.push(page.page_type.clone());
        row.push(human_readable_bytes(page.size as u64));
        row.push(commas(page.rows as u64));
        row.push(page.encoding.clone());
        proof {
            assert(views(row@) =~= page_line(*pages, i as int));
        }
        rows.push(row);
        i = i + 1;
    }
    rows
}

/// The four figures shown of a row group.
pub open spec fn row_group_lines(stats: RowGroupStats) -> Seq<(Seq<char>, Seq<char>)> {
    seq![
        ("Rows"@, commas_text(unsigned(stats.rows))),
        ("Compressed"@, human_readable_bytes_text(unsigned(stats.compressed_size))),
        ("Uncompressed"@, human_readable_bytes_text(unsigned(stats.uncompressed_size))),
        ("Ratio"@, stats.compression_ratio@),
    ]
}

/// Lists the figures of a row group for its panel.
pub fn row_group_pairs(stats: &RowGroupStats) -> (pairs: Vec<Pair>)
    ensures
        pair_views(pairs@) == row_group_lines(*stats),
{
    let mut pairs: Vec<Pair> = Vec::new();
    pairs.push(pair("Rows", commas(as_unsigned(stats.rows))));
    pairs.push(pair("Compressed", human_readable_bytes(as_unsigned(stats.compressed_size))));
    pairs.push(pair("Uncompressed", human_readable_bytes(as_unsigned(stats.uncompressed_size))));
    pairs.push(pair("Ratio", stats.compression_ratio.clone()));
    proof {
        assert(pair_views(pairs@) =~= row_group_lines(*stats));
    }
    pairs
}

} // verus!
