//! Summaries of the codecs and encodings of a column.
//!
//! A column may be written with different codecs or encodings from one row
//! group to the next. Its summary lists every tag seen in any row group once,
//! in ascending byte order, separated by a comma and a space.

use vstd::prelude::*;
use vstd::utf8::{encode_utf8, encode_utf8_decode_utf8};
use crate::footer::{groups_cover, ColumnChunkMeta, RowGroupMeta};
use crate::stats::column_chunks;
use crate::text::{
    bytes_less,
    join,
    join_strings,
    lemma_bytes_less_total,
    lemma_bytes_less_transitive,
    slice_less,
    views,
};

verus! {

/// The order of strings: the byte order of their UTF-8 encodings.
pub open spec fn text_less(a: Seq<char>, b: Seq<char>) -> bool {
    bytes_less(encode_utf8(a), encode_utf8(b))
}

/// Every item comes before every later one.
pub open spec fn strictly_sorted(s: Seq<Seq<char>>) -> bool {
    forall|i: int, j: int| 0 <= i < j < s.len() ==> text_less(#[trigger] s[i], #[trigger] s[j])
}

/// The number of leading items of `sorted` that come before `tag`.
pub open spec fn insert_position(sorted: Seq<Seq<char>>, tag: Seq<char>) -> int
    decreases sorted.len(),
{
    if sorted.len() == 0 || !text_less(sorted[0], tag) {
        0
    } else {
        1 + insert_position(sorted.drop_first(), tag)
    }
}

/// `sorted` with `tag` put in its place, unless it is there already.
pub open spec fn with_tag(sorted: Seq<Seq<char>>, tag: Seq<char>) -> Seq<Seq<char>> {
    let p = insert_position(sorted, tag);
    if p < sorted.len() && sorted[p] == tag {
        sorted
    } else {
        sorted.insert(p, tag)
    }
}

/// The distinct tags in ascending order.
pub open spec fn sorted_tags(tags: Seq<Seq<char>>) -> Seq<Seq<char>>
    decreases tags.len(),
{
    if tags.len() == 0 {
        Seq::empty()
    } else {
        with_tag(sorted_tags(tags.drop_last()), tags.last())
    }
}

/// The summary of a list of tags.
pub open spec fn summary_text(tags: Seq<Seq<char>>) -> Seq<char> {
    join(sorted_tags(tags), ", "@)
}

/// The codec tags of a column's chunks.
pub open spec fn codec_tags(chunks: Seq<ColumnChunkMeta>) -> Seq<Seq<char>> {
    Seq::new(chunks.len(), |i: int| chunks[i].compression@)
}

/// The encoding tags of a column's chunks, chunk after chunk.
pub open spec fn encoding_tags(chunks: Seq<ColumnChunkMeta>) -> Seq<Seq<char>>
    decreases chunks.len(),
{
    if chunks.len() == 0 {
        Seq::empty()
    } else {
        encoding_tags(chunks.drop_last()) + views(chunks.last().encodings@)
    }
}

proof fn lemma_insert_position(sorted: Seq<Seq<char>>, tag: Seq<char>)
    ensures
        0 <= insert_position(sorted, tag) <= sorted.len(),
        forall|i: int|
            0 <= i < insert_position(sorted, tag) ==> text_less(#[trigger] sorted[i], tag),
        insert_position(sorted, tag) < sorted.len() ==> !text_less(
            sorted[insert_position(sorted, tag)],
            tag,
        ),
    decreases sorted.len(),
{
    if sorted.len() > 0 && text_less(sorted[0], tag) {
        let rest = sorted.drop_first();
        lemma_insert_position(rest, tag);
        assert forall|i: int| 0 <= i < insert_position(sorted, tag) implies text_less(
            #[trigger] sorted[i],
            tag,
        ) by {
            if i > 0 {
                assert(sorted[i] == rest[i - 1]);
            }
        }
        if insert_position(sorted, tag) < sorted.len() {
            assert(sorted[insert_position(sorted, tag)] == rest[insert_position(rest, tag)]);
        }
    }
}

/// Of two different strings exactly one comes first.
pub proof fn lemma_text_less_total(a: Seq<char>, b: Seq<char>)
    ensures
        a != b ==> (text_less(a, b) <==> !text_less(b, a)),
        a == b ==> !text_less(a, b),
{
    lemma_bytes_less_total(encode_utf8(a), encode_utf8(b));
    encode_utf8_decode_utf8(a);
    encode_utf8_decode_utf8(b);
}

/// Putting a tag in its place keeps the order and adds nothing but the tag.
pub proof fn lemma_with_tag(sorted: Seq<Seq<char>>, tag: Seq<char>)
    requires
        strictly_sorted(sorted),
    ensures
        strictly_sorted(with_tag(sorted, tag)),
        forall|x: Seq<char>| #[trigger]
            with_tag(sorted, tag).contains(x) <==> (sorted.contains(x) || x == tag),
{
    let p = insert_position(sorted, tag);
    let out = with_tag(sorted, tag);
    lemma_insert_position(sorted, tag);
    if p < sorted.len() && sorted[p] == tag {
        assert forall|x: Seq<char>| #[trigger]
            out.contains(x) <==> (sorted.contains(x) || x == tag) by {
            if x == tag {
                assert(sorted[p] == x);
            }
        }
    } else {
        assert forall|j: int| p <= j < sorted.len() implies text_less(
            tag,
            #[trigger] sorted[j],
        ) by {
            lemma_text_less_total(sorted[p], tag);
            if j > p {
                lemma_bytes_less_transitive(
                    encode_utf8(tag),
                    encode_utf8(sorted[p]),
                    encode_utf8(sorted[j]),
                );
            }
        }
        assert forall|i: int, j: int| 0 <= i < j < out.len() implies text_less(
            #[trigger] out[i],
            #[trigger] out[j],
        ) by {
            if j < p {
                assert(out[i] == sorted[i] && out[j] == sorted[j]);
            } else if j == p {
                assert(out[i] == sorted[i]);
            } else if i < p {
                assert(out[i] == sorted[i] && out[j] == sorted[j - 1]);
            } else if i == p {
                assert(out[j] == sorted[j - 1]);
            } else {
                assert(out[i] == sorted[i - 1] && out[j] == sorted[j - 1]);
            }
        }
        assert forall|x: Seq<char>| #[trigger]
            out.contains(x) <==> (sorted.contains(x) || x == tag) by {
            if out.contains(x) {
                let k = choose|k: int| 0 <= k < out.len() && out[k] == x;
                if k < p {
                    assert(sorted[k] == x);
                } else if k > p {
                    assert(sorted[k - 1] == x);
                }
            }
            if sorted.contains(x) {
                let k = choose|k: int| 0 <= k < sorted.len() && sorted[k] == x;
                if k < p {
                    assert(out[k] == x);
                } else {
                    assert(out[k + 1] == x);
                }
            }
            if x == tag {
                assert(out[p] == x);
            }
        }
    }
}

/// The sorted tags are in strictly ascending order and are exactly the tags
/// given: every one of them, none twice.
pub proof fn lemma_sorted_tags(tags: Seq<Seq<char>>)
    ensures
        strictly_sorted(sorted_tags(tags)),
        forall|x: Seq<char>| #[trigger] sorted_tags(tags).contains(x) <==> tags.contains(x),
    decreases tags.len(),
{
    if tags.len() > 0 {
        let before = tags.drop_last();
        lemma_sorted_tags(before);
        lemma_with_tag(sorted_tags(before), tags.last());
        assert forall|x: Seq<char>| #[trigger]
            sorted_tags(tags).contains(x) <==> tags.contains(x) by {
            if tags.contains(x) {
                let k = choose|k: int| 0 <= k < tags.len() && tags[k] == x;
                if k < before.len() {
                    assert(before[k] == x);
                }
            }
            if before.contains(x) {
                let k = choose|k: int| 0 <= k < before.len() && before[k] == x;
                assert(tags[k] == x);
            }
            if x == tags.last() {
                assert(tags[tags.len() - 1] == x);
            }
        }
    }
}

/// Two lists in strictly ascending order that hold the same items are the
/// same list.
pub proof fn lemma_sorted_unique(a: Seq<Seq<char>>, b: Seq<Seq<char>>)
    requires
        strictly_sorted(a),
        strictly_sorted(b),
        forall|x: Seq<char>| a.contains(x) <==> b.contains(x),
    ensures
        a == b,
    decreases a.len(),
{
    if a.len() == 0 {
        if b.len() > 0 {
            assert(b.contains(b[0]));
            assert(a.contains(b[0]));
        }
        assert(a =~= b);
    } else {
        let top = a.last();
        assert(a.contains(top));
        assert(b.contains(top));
        let k = choose|k: int| 0 <= k < b.len() && b[k] == top;
        // Nothing in `b` comes after `top`, so `top` is its last item.
        if k < b.len() - 1 {
            let above = b[b.len() - 1];
            assert(b.contains(above));
            assert(a.contains(above));
            let j = choose|j: int| 0 <= j < a.len() && a[j] == above;
            assert(text_less(b[k], b[b.len() - 1]));
            lemma_text_less_total(top, above);
            if j < a.len() - 1 {
                assert(text_less(a[j], a[a.len() - 1]));
            }
        }
        let a0 = a.drop_last();
        let b0 = b.drop_last();
        assert forall|x: Seq<char>| a0.contains(x) <==> b0.contains(x) by {
            lemma_text_less_total(x, top);
            if a0.contains(x) {
                let i = choose|i: int| 0 <= i < a0.len() && a0[i] == x;
                assert(a[i] == x);
                assert(text_less(a[i], a[a.len() - 1]));
                assert(a.contains(x));
                assert(b.contains(x));
                let m = choose|m: int| 0 <= m < b.len() && b[m] == x;
                assert(b0[m] == x);
            }
            if b0.contains(x) {
                let i = choose|i: int| 0 <= i < b0.len() && b0[i] == x;
                assert(b[i] == x);
                assert(text_less(b[i], b[b.len() - 1]));
                assert(b.contains(x));
                assert(a.contains(x));
                let m = choose|m: int| 0 <= m < a.len() && a[m] == x;
                assert(a0[m] == x);
            }
        }
        assert forall|i: int, j: int| 0 <= i < j < a0.len() implies text_less(
            #[trigger] a0[i],
            #[trigger] a0[j],
        ) by {
            assert(a0[i] == a[i] && a0[j] == a[j]);
        }
        assert forall|i: int, j: int| 0 <= i < j < b0.len() implies text_less(
            #[trigger] b0[i],
            #[trigger] b0[j],
        ) by {
            assert(b0[i] == b[i] && b0[j] == b[j]);
        }
        lemma_sorted_unique(a0, b0);
        assert(a =~= a0.push(top));
        assert(b =~= b0.push(top));
    }
}

/// A summary depends on the tags met and not on their order or number: lists
/// that hold the same tags have the same summary.
pub proof fn lemma_summary_of_a_set(a: Seq<Seq<char>>, b: Seq<Seq<char>>)
    requires
        forall|x: Seq<char>| a.contains(x) <==> b.contains(x),
    ensures
        sorted_tags(a) == sorted_tags(b),
        summary_text(a) == summary_text(b),
{
    lemma_sorted_tags(a);
    lemma_sorted_tags(b);
    assert forall|x: Seq<char>| sorted_tags(a).contains(x) <==> sorted_tags(b).contains(x) by {
        assert(sorted_tags(a).contains(x) <==> a.contains(x));
        assert(sorted_tags(b).contains(x) <==> b.contains(x));
    }
    lemma_sorted_unique(sorted_tags(a), sorted_tags(b));
}

/// Puts `tag` in its place in a sorted list, unless it is there already.
pub fn insert_tag(sorted: &mut Vec<String>, tag: &String)
    ensures
        views(final(sorted)@) == with_tag(views(old(sorted)@), tag@),
{
    let ghost items = views(sorted@);
    let mut j: usize = 0;
    proof {
        assert(items.skip(0) =~= items);
    }
    while j < sorted.len() && slice_less(sorted[j].as_str().as_bytes(), tag.as_str().as_bytes())
        invariant
            j <= sorted@.len(),
            sorted@ == old(sorted)@,
            items == views(sorted@),
            insert_position(items, tag@) == j + insert_position(items.skip(j as int), tag@),
        decreases sorted@.len() - j,
    {
        proof {
            assert(items.skip(j as int)[0] == items[j as int]);
            assert(items.skip(j as int).drop_first() =~= items.skip(j + 1));
        }
        j = j + 1;
    }
    proof {
        if j < sorted@.len() {
            assert(items.skip(j as int)[0] == items[j as int]);
        }
    }
    let present: bool = j < sorted.len() && sorted[j] == *tag;
    if !present {
        let copy = tag.clone();
        sorted.insert(j, copy);
        proof {
            assert(views(sorted@) =~= items.insert(j as int, tag@));
        }
    }
}

/// Lists the codecs and the encodings of column `col_idx` over all row groups.
pub fn column_summary(groups: &Vec<RowGroupMeta>, col_idx: usize) -> (r: (String, String))
    requires
        groups_cover(groups@, col_idx as nat + 1),
    ensures
        r.0@ == summary_text(codec_tags(column_chunks(groups@, col_idx as int))),
        r.1@ == summary_text(encoding_tags(column_chunks(groups@, col_idx as int))),
{
    let ghost chunks = column_chunks(groups@, col_idx as int);
    let mut codecs: Vec<String> = Vec::new();
    let mut encodings: Vec<String> = Vec::new();
    let mut g: usize = 0;
    proof {
        assert(chunks.take(0) =~= Seq::<ColumnChunkMeta>::empty());
        assert(codec_tags(chunks.take(0)) =~= Seq::<Seq<char>>::empty());
        assert(views(codecs@) =~= Seq::<Seq<char>>::empty());
        assert(views(encodings@) =~= Seq::<Seq<char>>::empty());
    }
    while g < groups.len()
        invariant
            g <= groups@.len(),
            groups_cover(groups@, col_idx as nat + 1),
            chunks == column_chunks(groups@, col_idx as int),
            views(codecs@) == sorted_tags(codec_tags(chunks.take(g as int))),
            views(encodings@) == sorted_tags(encoding_tags(chunks.take(g as int))),
        decreases groups@.len() - g,
    {
        let chunk = &groups[g].columns[col_idx];
        proof {
            assert(chunks.take(g + 1).drop_last() =~= chunks.take(g as int));
            assert(chunks.take(g + 1).last() == *chunk);
            assert(codec_tags(chunks.take(g + 1)).drop_last() =~= codec_tags(
                chunks.take(g as int),
            ));
        }
        insert_tag(&mut codecs, &chunk.compression);
        let ghost base = encoding_tags(chunks.take(g as int));
        let ghost added = views(chunk.encodings@);
        let mut e: usize = 0;
        proof {
            assert(base + added.take(0) =~= base);
        }
        while e < chunk.encodings.len()
            invariant
                e <= chunk.encodings@.len(),
                added == views(chunk.encodings@),
                views(encodings@) == sorted_tags(base + added.take(e as int)),
            decreases chunk.encodings@.len() - e,
        {
            proof {
                assert((base + added.take(e + 1)).drop_last() =~= base + added.take(e as int));
            }
            insert_tag(&mut encodings, &chunk.encodings[e]);
            e = e + 1;
        }
        proof {
            assert(added.take(e as int) =~= added);
        }
        g = g + 1;
    }
    proof {
        assert(chunks.take(g as int) =~= chunks);
    }
    (join_strings(&codecs, ", "), join_strings(&encodings, ", "))
}

} // verus!
