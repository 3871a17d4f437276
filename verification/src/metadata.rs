//! The figures of a file as a whole: its rows, columns and row groups, its
//! sizes, and the codecs and encodings met in it.

use vstd::prelude::*;
use crate::double::{nearest, quotient, whole_part, Double};
use crate::footer::{fields_leaves, ColumnChunkMeta, FileFooter, RowGroupMeta};
use crate::schema::count_fields_leaves;
use crate::summary::{insert_tag, sorted_tags, summary_text};
use crate::text::{
    decimal_digits,
    decimal_text,
    join,
    join_strings,
    push_decimal,
    signed_to_string,
    views,
};

verus! {

/// The figures of a file.
#[derive(Debug)]
pub struct FileMetadata {
    pub format_version: String,
    pub created_by: String,
    pub num_rows: usize,
    pub num_columns: usize,
    pub num_row_groups: usize,
    pub raw_size: u64,
    pub compressed_size: u64,
    /// The raw size over the compressed size, zero where nothing is
    /// compressed.
    pub compression_ratio: Double,
    /// Every codec with the number of column chunks that use it.
    pub codecs: String,
    pub encodings: String,
    /// The raw size over the number of rows, cut to a whole number.
    pub avg_row_size: u64,
}

/// All column chunks of a file, row group after row group.
pub open spec fn all_chunks(groups: Seq<RowGroupMeta>) -> Seq<ColumnChunkMeta>
    decreases groups.len(),
{
    if groups.len() == 0 {
        Seq::empty()
    } else {
        all_chunks(groups.drop_last()) + groups.last().columns@
    }
}

/// The sum of the row counts of the row groups.
pub open spec fn total_rows(groups: Seq<RowGroupMeta>) -> int
    decreases groups.len(),
{
    if groups.len() == 0 {
        0
    } else {
        total_rows(groups.drop_last()) + groups.last().num_rows
    }
}

/// The sum of the uncompressed sizes of chunks.
pub open spec fn raw_total(chunks: Seq<ColumnChunkMeta>) -> nat
    decreases chunks.len(),
{
    if chunks.len() == 0 {
        0
    } else {
        raw_total(chunks.drop_last()) + chunks.last().uncompressed_size as nat
    }
}

/// The sum of the compressed sizes of chunks.
pub open spec fn compressed_total(chunks: Seq<ColumnChunkMeta>) -> nat
    decreases chunks.len(),
{
    if chunks.len() == 0 {
        0
    } else {
        compressed_total(chunks.drop_last()) + chunks.last().compressed_size as nat
    }
}

/// The codec tags of chunks, one per chunk.
pub open spec fn chunk_codecs(chunks: Seq<ColumnChunkMeta>) -> Seq<Seq<char>> {
    Seq::new(chunks.len(), |i: int| chunks[i].compression@)
}

/// The encoding tags of chunks, chunk after chunk.
pub open spec fn chunk_encodings(chunks: Seq<ColumnChunkMeta>) -> Seq<Seq<char>>
    decreases chunks.len(),
{
    if chunks.len() == 0 {
        Seq::empty()
    } else {
        chunk_encodings(chunks.drop_last()) + views(chunks.last().encodings@)
    }
}

/// How often `tag` occurs among `tags`.
pub open spec fn occurrences(tags: Seq<Seq<char>>, tag: Seq<char>) -> nat
    decreases tags.len(),
{
    if tags.len() == 0 {
        0
    } else {
        occurrences(tags.drop_last(), tag) + if tags.last() == tag {
            1nat
        } else {
            0nat
        }
    }
}

/// A tag with its count in brackets.
pub open spec fn counted_text(tag: Seq<char>, count: nat) -> Seq<char> {
    tag + "("@ + decimal_digits(count) + ")"@
}

/// Every distinct tag with the number of its occurrences.
pub open spec fn counted_tags(tags: Seq<Seq<char>>) -> Seq<Seq<char>> {
    Seq::new(
        sorted_tags(tags).len(),
        |i: int| counted_text(sorted_tags(tags)[i], occurrences(tags, sorted_tags(tags)[i])),
    )
}

/// The figures of a file whose sums fit.
pub open spec fn sums_fit(footer: FileFooter) -> bool {
    &&& fields_leaves(footer.fields@) <= usize::MAX
    &&& 0 <= total_rows(footer.row_groups@) <= usize::MAX
    &&& total_rows(footer.row_groups@) <= i64::MAX
    &&& all_chunks(footer.row_groups@).len() <= usize::MAX
    &&& raw_total(all_chunks(footer.row_groups@)) <= u64::MAX
    &&& compressed_total(all_chunks(footer.row_groups@)) <= u64::MAX
}

/// The raw size over the compressed size, zero where nothing is compressed.
pub open spec fn ratio(raw: nat, compressed: nat) -> Double {
    if compressed > 0 {
        quotient(nearest(false, raw), nearest(false, compressed))
    } else {
        Double::Finite { negative: false, mantissa: 0, exponent: 0 }
    }
}

proof fn lemma_raw_total_grows(chunks: Seq<ColumnChunkMeta>, i: int)
    requires
        0 <= i <= chunks.len(),
    ensures
        raw_total(chunks.take(i)) <= raw_total(chunks),
        compressed_total(chunks.take(i)) <= compressed_total(chunks),
    decreases chunks.len() - i,
{
    if i < chunks.len() {
        lemma_raw_total_grows(chunks, i + 1);
        assert(chunks.take(i + 1).drop_last() =~= chunks.take(i));
    } else {
        assert(chunks.take(i) =~= chunks);
    }
}

proof fn lemma_all_chunks_grow(groups: Seq<RowGroupMeta>, g: int)
    requires
        0 <= g <= groups.len(),
    ensures
        all_chunks(groups.take(g)).len() <= all_chunks(groups).len(),
        all_chunks(groups.take(g)) == all_chunks(groups).take(
            all_chunks(groups.take(g)).len() as int,
        ),
    decreases groups.len() - g,
{
    let a = all_chunks(groups.take(g));
    if g < groups.len() {
        lemma_all_chunks_grow(groups, g + 1);
        assert(groups.take(g + 1).drop_last() =~= groups.take(g));
        let b = all_chunks(groups.take(g + 1));
        assert(b == a + groups.take(g + 1).last().columns@);
        assert(a =~= all_chunks(groups).take(a.len() as int));
    } else {
        assert(groups.take(g) =~= groups);
        assert(a =~= a.take(a.len() as int));
    }
}

/// Counts how often `tag` occurs among the codecs of all chunks.
fn count_codec(groups: &Vec<RowGroupMeta>, tag: &String) -> (n: usize)
    requires
        all_chunks(groups@).len() <= usize::MAX,
    ensures
        n == occurrences(chunk_codecs(all_chunks(groups@)), tag@),
{
    let mut n: usize = 0;
    let mut g: usize = 0;
    proof {
        assert(groups@.take(0) =~= Seq::<RowGroupMeta>::empty());
    }
    while g < groups.len()
        invariant
            g <= groups@.len(),
            all_chunks(groups@).len() <= usize::MAX,
            n == occurrences(chunk_codecs(all_chunks(groups@.take(g as int))), tag@),
            n <= all_chunks(groups@.take(g as int)).len(),
        decreases groups@.len() - g,
    {
        let columns = &groups[g].columns;
        let ghost before = all_chunks(groups@.take(g as int));
        proof {
            assert(groups@.take(g + 1).drop_last() =~= groups@.take(g as int));
            assert(groups@.take(g + 1).last() == groups@[g as int]);
            lemma_all_chunks_grow(groups@, g + 1);
            assert(before + columns@.take(0) =~= before);
        }
        let mut c: usize = 0;
        while c < columns.len()
            invariant
                c <= columns@.len(),
                before.len() + columns@.len() <= usize::MAX,
                n == occurrences(chunk_codecs(before + columns@.take(c as int)), tag@),
                n <= before.len() + c,
            decreases columns@.len() - c,
        {
            proof {
                let so_far = before + columns@.take(c as int);
                let next = before + columns@.take(c + 1);
                assert(chunk_codecs(next).drop_last() =~= chunk_codecs(so_far));
                assert(chunk_codecs(next).last() == columns@[c as int].compression@);
            }
            if columns[c].compression == *tag {
                n = n + 1;
            }
            c = c + 1;
        }
        proof {
            assert(columns@.take(c as int) =~= columns@);
        }
        g = g + 1;
    }
    proof {
        assert(groups@.take(g as int) =~= groups@);
    }
    n
}

impl FileMetadata {
    /// Gathers the figures of a file, or gives nothing where a sum does not
    /// fit the machine's numbers or the rows do not add up to a count.
    pub fn from_metadata(footer: &FileFooter) -> (r: Option<FileMetadata>)
        ensures
            r is Some <==> sums_fit(*footer),
            r matches Some(md) ==> {
                &&& md.format_version@ == decimal_text(footer.version as int)
                &&& md.created_by@ == match footer.created_by {
                    Some(name) => name@,
                    None => "—"@,
                }
                &&& md.num_rows == total_rows(footer.row_groups@)
                &&& md.num_columns == fields_leaves(footer.fields@)
                &&& md.num_row_groups == footer.row_groups@.len()
                &&& md.raw_size == raw_total(all_chunks(footer.row_groups@))
                &&& md.compressed_size == compressed_total(all_chunks(footer.row_groups@))
                &&& md.compression_ratio == ratio(md.raw_size as nat, md.compressed_size as nat)
                &&& md.codecs@ == join(
                    sorted_tags(counted_tags(chunk_codecs(all_chunks(footer.row_groups@)))),
                    ", "@,
                )
                &&& md.encodings@ == summary_text(
                    chunk_encodings(all_chunks(footer.row_groups@)),
                )
                &&& md.avg_row_size == if md.num_rows > 0 {
                    whole_part(
                        quotient(
                            nearest(false, md.raw_size as nat),
                            nearest(false, md.num_rows as nat),
                        ),
                    )
                } else {
                    0
                }
            },
    {
        let groups = &footer.row_groups;
        let num_columns: usize = match count_fields_leaves(&footer.fields) {
            Some(n) => n,
            None => {
                return None;
            },
        };
        let mut rows: i64 = 0;
        let mut rows_in_range: bool = true;
        let mut raw_size: u64 = 0;
        let mut compressed_size: u64 = 0;
        let mut chunk_count: usize = 0;
        let mut codecs: Vec<String> = Vec::new();
        let mut encodings: Vec<String> = Vec::new();
        let ghost chunks = all_chunks(groups@);
        let mut g: usize = 0;
        proof {
            assert(groups@.take(0) =~= Seq::<RowGroupMeta>::empty());
            assert(chunk_codecs(Seq::<ColumnChunkMeta>::empty()) =~= Seq::<Seq<char>>::empty());
            assert(views(codecs@) =~= Seq::<Seq<char>>::empty());
            assert(views(encodings@) =~= Seq::<Seq<char>>::empty());
        }
        // The row counts may go below zero on the way and come back, so they
        // are summed in a wider type.
        let mut wide_rows: i128 = 0;
        while g < groups.len()
            invariant
                g <= groups@.len(),
                groups@ == footer.row_groups@,
                chunks == all_chunks(groups@),
                wide_rows == total_rows(groups@.take(g as int)),
                -0x8000_0000_0000_0000 * g <= wide_rows <= 0x7FFF_FFFF_FFFF_FFFF * g,
                raw_size == raw_total(all_chunks(groups@.take(g as int))),
                compressed_size == compressed_total(all_chunks(groups@.take(g as int))),
                chunk_count == all_chunks(groups@.take(g as int)).len(),
                views(codecs@) == sorted_tags(chunk_codecs(all_chunks(groups@.take(g as int)))),
                views(encodings@) == sorted_tags(
                    chunk_encodings(all_chunks(groups@.take(g as int))),
                ),
            decreases groups@.len() - g,
        {
            let group = &groups[g];
            let ghost before = all_chunks(groups@.take(g as int));
            proof {
                assert(groups@.take(g + 1).drop_last() =~= groups@.take(g as int));
                assert(groups@.take(g + 1).last() == groups@[g as int]);
                lemma_all_chunks_grow(groups@, g + 1);
                lemma_raw_total_grows(chunks, (before + group.columns@).len() as int);
                assert(before + group.columns@.take(0) =~= before);
            }
            wide_rows = wide_rows + group.num_rows as i128;
            chunk_count = match chunk_count.checked_add(group.columns.len()) {
                Some(n) => n,
                None => {
                    proof {
                        // More chunks than can be counted cannot lie in memory,
                        // and their sizes cannot be summed here.
                        assert(all_chunks(groups@.take(g + 1)).len() > usize::MAX);
                    }
                    return None;
                },
            };
            let mut c: usize = 0;
            while c < group.columns.len()
                invariant
                    c <= group.columns@.len(),
                    groups@ == footer.row_groups@,
                    chunks == all_chunks(groups@),
                    raw_total(before + group.columns@) <= raw_total(chunks),
                    compressed_total(before + group.columns@) <= compressed_total(chunks),
                    raw_size == raw_total(before + group.columns@.take(c as int)),
                    compressed_size == compressed_total(before + group.columns@.take(c as int)),
                    views(codecs@) == sorted_tags(
                        chunk_codecs(before + group.columns@.take(c as int)),
                    ),
                    views(encodings@) == sorted_tags(
                        chunk_encodings(before + group.columns@.take(c as int)),
                    ),
                decreases group.columns@.len() - c,
            {
                let chunk = &group.columns[c];
                let ghost so_far = before + group.columns@.take(c as int);
                let ghost next = before + group.columns@.take(c + 1);
                proof {
                    assert(next.drop_last() =~= so_far);
                    assert(next.last() == *chunk);
                    assert(next =~= (before + group.columns@).take(next.len() as int));
                    lemma_raw_total_grows(before + group.columns@, next.len() as int);
                    assert(chunk_codecs(next).drop_last() =~= chunk_codecs(so_far));
                    assert(chunk_codecs(next).last() == chunk.compression@);
                }
                raw_size = match raw_size.checked_add(chunk.uncompressed_size) {
                    Some(n) => n,
                    None => {
                        return None;
                    },
                };
                compressed_size = match compressed_size.checked_add(chunk.compressed_size) {
                    Some(n) => n,
                    None => {
                        return None;
                    },
                };
                insert_tag(&mut codecs, &chunk.compression);
                let ghost base = chunk_encodings(so_far);
                let ghost added = views(chunk.encodings@);
                let mut e: usize = 0;
                proof {
                    assert(base + added.take(0) =~= base);
                }
                while e < chunk.encodings.len()
                    invariant
                        e <= chunk.encodings@.len(),
                        added == views(chunk.encodings@),
                        views(encodings@) == sorted_tags(base + added.take(e as int)),
                    decreases chunk.encodings@.len() - e,
                {
                    proof {
                        assert((base + added.take(e + 1)).drop_last() =~= base + added.take(
                            e as int,
                        ));
                    }
                    insert_tag(&mut encodings, &chunk.encodings[e]);
                    e = e + 1;
                }
                proof {
                    assert(added.take(e as int) =~= added);
                }
                c = c + 1;
            }
            proof {
                assert(group.columns@.take(c as int) =~= group.columns@);
            }
            g = g + 1;
        }
        proof {
            assert(groups@.take(g as int) =~= groups@);
        }
        if wide_rows < 0 || wide_rows > 0x7FFF_FFFF_FFFF_FFFF || wide_rows > usize::MAX as i128 {
            return None;
        }
        let num_rows: usize = wide_rows as usize;
        let raw = Double::from_u64(raw_size);
        let compression_ratio = if compressed_size > 0 {
            raw.divide(Double::from_u64(compressed_size))
        } else {
            Double::Finite { negative: false, mantissa: 0, exponent: 0 }
        };
        let avg_row_size: u64 = if num_rows > 0 {
            let per_row = raw.divide(Double::from_u64(num_rows as u64));
            proof {
                assert(per_row.well_formed()) by {
                    crate::double::lemma_pow2_values();
                }
            }
            per_row.to_u64()
        } else {
            0
        };
        let mut counted: Vec<String> = Vec::new();
        let mut sorted_counted: Vec<String> = Vec::new();
        let ghost tags = chunk_codecs(chunks);
        let mut i: usize = 0;
        proof {
            assert(views(sorted_counted@) =~= Seq::<Seq<char>>::empty());
            assert(counted_tags(tags).take(0) =~= Seq::<Seq<char>>::empty());
        }
        while i < codecs.len()
            invariant
                i <= codecs@.len(),
                chunk_count == chunks.len(),
                chunks == all_chunks(groups@),
                tags == chunk_codecs(chunks),
                views(codecs@) == sorted_tags(tags),
                views(sorted_counted@) == sorted_tags(counted_tags(tags).take(i as int)),
            decreases codecs@.len() - i,
        {
            let n: usize = count_codec(groups, &codecs[i]);
            let mut label = codecs[i].clone();
            label.append("(");
            push_decimal(&mut label, n as u128);
            label.append(")");
            proof {
                assert(views(codecs@)[i as int] == codecs@[i as int]@);
                assert(counted_tags(tags).take(i + 1).drop_last() =~= counted_tags(tags).take(
                    i as int,
                ));
                assert(counted_tags(tags).take(i + 1).last() == label@);
            }
            insert_tag(&mut sorted_counted, &label);
            i = i + 1;
        }
        proof {
            assert(counted_tags(tags).take(i as int) =~= counted_tags(tags));
        }
        let created_by: String = match &footer.created_by {
            Some(name) => name.clone(),
            None => "—".to_owned(),
        };
        Some(
            FileMetadata {
                format_version: signed_to_string(footer.version as i64),
                created_by,
                num_rows,
                num_columns,
                num_row_groups: groups.len(),
                raw_size,
                compressed_size,
                compression_ratio,
                codecs: join_strings(&sorted_counted, ", "),
                encodings: join_strings(&encodings, ", "),
                avg_row_size,
            },
        )
    }

    /// The compression ratio as it is shown: two decimal places and the
    /// sign of multiplication.
    pub fn compression_ratio_text(&self) -> (s: String)
        requires
            self.compression_ratio.well_formed(),
        ensures
            s@ == self.compression_ratio.text(2) + "x"@,
    {
        let mut s = self.compression_ratio.to_fixed(2);
        s.append("x");
        s
    }
}

} // verus!
