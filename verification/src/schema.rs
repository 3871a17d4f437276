//! The schema tree of a file: one line per schema node in pre-order, the root
//! first, every leaf column with its codec and encoding summaries and its
//! statistics.

use vstd::prelude::*;
use vstd::utf8::encode_utf8;
use crate::footer::{
    fields_leaves,
    groups_cover,
    check_groups_cover,
    node_leaves,
    FileFooter,
    LogicalType,
    NodeKind,
    RowGroupMeta,
    SchemaNode,
    TimeUnit,
};
use crate::stats::{
    column_chunks,
    column_stats,
    compressed_of,
    nulls_of,
    sum_of,
    totals_fit,
    try_aggregate_column_stats,
    uncompressed_of,
    ColumnStats,
    ColumnStatsView,
};
use crate::summary::{codec_tags, column_summary, encoding_tags, summary_text};
use crate::text::{decimal_text, signed_to_string, views};

verus! {

/// What is known of a leaf column.
#[derive(Clone)]
pub struct ColumnSchemaInfo {
    pub name: String,
    pub repetition: String,
    pub physical: String,
    pub logical: String,
    pub codec: String,
    pub converted_type: String,
    pub encoding: String,
    pub dictionary_values: Option<Vec<String>>,
}

/// One line of the schema tree.
#[derive(Clone)]
pub enum SchemaInfo {
    Root { name: String, display: String },
    Primitive { name: String, display: String, info: Box<ColumnSchemaInfo>, stats: ColumnStats },
    Group { name: String, display: String, repetition: String },
}

/// The schema tree of a file.
pub struct FileSchema {
    pub columns: Vec<SchemaInfo>,
}

/// Why no schema tree could be built.
#[derive(Clone, Copy, Debug, PartialEq, Eq, Structural)]
pub enum SchemaError {
    /// A row group holds fewer column chunks than the schema has leaves, or
    /// the schema has more leaves than can be counted.
    ColumnCountMismatch,
    /// A count or a size of some column does not fit in 64 bits when summed
    /// over the row groups.
    TotalOverflow,
}

impl SchemaError {
    /// A sentence that says what went wrong.
    pub fn message(&self) -> (s: String)
        ensures
            s@ == match *self {
                SchemaError::ColumnCountMismatch =>
                    "row groups do not hold one column chunk per leaf column"@,
                SchemaError::TotalOverflow => "column totals do not fit in 64 bits"@,
            },
    {
        match self {
            SchemaError::ColumnCountMismatch =>
                "row groups do not hold one column chunk per leaf column".to_owned(),
            SchemaError::TotalOverflow => "column totals do not fit in 64 bits".to_owned(),
        }
    }
}

/// What a `ColumnSchemaInfo` holds.
pub struct ColumnSchemaInfoView {
    pub name: Seq<char>,
    pub repetition: Seq<char>,
    pub physical: Seq<char>,
    pub logical: Seq<char>,
    pub codec: Seq<char>,
    pub converted_type: Seq<char>,
    pub encoding: Seq<char>,
    pub dictionary_values: Option<Seq<Seq<char>>>,
}

/// What a `SchemaInfo` holds.
pub enum SchemaInfoView {
    Root { name: Seq<char>, display: Seq<char> },
    Primitive {
        name: Seq<char>,
        display: Seq<char>,
        info: ColumnSchemaInfoView,
        stats: ColumnStatsView,
    },
    Group { name: Seq<char>, display: Seq<char>, repetition: Seq<char> },
}

impl View for ColumnSchemaInfo {
    type V = ColumnSchemaInfoView;

    open spec fn view(&self) -> ColumnSchemaInfoView {
        ColumnSchemaInfoView {
            name: self.name@,
            repetition: self.repetition@,
            physical: self.physical@,
            logical: self.logical@,
            codec: self.codec@,
            converted_type: self.converted_type@,
            encoding: self.encoding@,
            dictionary_values: match self.dictionary_values {
                Some(v) => Some(views(v@)),
                None => None,
            },
        }
    }
}

impl View for SchemaInfo {
    type V = SchemaInfoView;

    open spec fn view(&self) -> SchemaInfoView {
        match *self {
            SchemaInfo::Root { name, display } => SchemaInfoView::Root {
                name: name@,
                display: display@,
            },
            SchemaInfo::Primitive { name, display, info, stats } => SchemaInfoView::Primitive {
                name: name@,
                display: display@,
                info: info@,
                stats: stats@,
            },
            SchemaInfo::Group { name, display, repetition } => SchemaInfoView::Group {
                name: name@,
                display: display@,
                repetition: repetition@,
            },
        }
    }
}

impl SchemaInfoView {
    /// The text of the line in the tree.
    pub open spec fn display(self) -> Seq<char> {
        match self {
            SchemaInfoView::Root { display, .. } => display,
            SchemaInfoView::Primitive { display, .. } => display,
            SchemaInfoView::Group { display, .. } => display,
        }
    }
}

/// What a list of lines holds.
pub open spec fn line_views(lines: Seq<SchemaInfo>) -> Seq<SchemaInfoView> {
    Seq::new(lines.len(), |i: int| lines[i]@)
}

impl View for FileSchema {
    type V = Seq<SchemaInfoView>;

    open spec fn view(&self) -> Seq<SchemaInfoView> {
        line_views(self.columns@)
    }
}

/// The written form of a time unit.
pub open spec fn unit_text(unit: TimeUnit) -> Seq<char> {
    match unit {
        TimeUnit::MILLIS => "millis"@,
        TimeUnit::MICROS => "micros"@,
        TimeUnit::NANOS => "nanos"@,
    }
}

/// The written form of a zone adjustment.
pub open spec fn zone_text(is_adjusted_to_u_t_c: bool) -> Seq<char> {
    if is_adjusted_to_u_t_c {
        "utc"@
    } else {
        "local"@
    }
}

/// The written form of a logical type.
pub open spec fn logical_text(logical: LogicalType) -> Seq<char> {
    match logical {
        LogicalType::Decimal { scale, precision } => "Decimal("@ + decimal_text(scale as int)
            + ","@ + decimal_text(precision as int) + ")"@,
        LogicalType::Integer { bit_width, is_signed } => "Integer("@ + decimal_text(
            bit_width as int,
        ) + ","@ + (if is_signed {
            "sign"@
        } else {
            "unsign"@
        }) + ")"@,
        LogicalType::Time { is_adjusted_to_u_t_c, unit } => "Time("@ + zone_text(
            is_adjusted_to_u_t_c,
        ) + ", "@ + unit_text(unit) + ")"@,
        LogicalType::Timestamp { is_adjusted_to_u_t_c, unit } => "Timestamp("@ + zone_text(
            is_adjusted_to_u_t_c,
        ) + ", "@ + unit_text(unit) + ")"@,
        LogicalType::Other { written } => written@,
    }
}

fn append_zone_and_unit(s: &mut String, is_adjusted_to_u_t_c: bool, unit: TimeUnit)
    ensures
        final(s)@ == old(s)@ + zone_text(is_adjusted_to_u_t_c) + ", "@ + unit_text(unit) + ")"@,
{
    if is_adjusted_to_u_t_c {
        s.append("utc");
    } else {
        s.append("local");
    }
    s.append(", ");
    match unit {
        TimeUnit::MILLIS => s.append("millis"),
        TimeUnit::MICROS => s.append("micros"),
        TimeUnit::NANOS => s.append("nanos"),
    }
    s.append(")");
}

/// Writes a logical type out.
pub fn logical_type_to_string(logical_type: &LogicalType) -> (s: String)
    ensures
        s@ == logical_text(*logical_type),
{
    match logical_type {
        LogicalType::Decimal { scale, precision } => {
            let mut s = "Decimal(".to_owned();
            let a = signed_to_string(*scale as i64);
            s.append(a.as_str());
            s.append(",");
            let b = signed_to_string(*precision as i64);
            s.append(b.as_str());
            s.append(")");
            s
        },
        LogicalType::Integer { bit_width, is_signed } => {
            let mut s = "Integer(".to_owned();
            let a = signed_to_string(*bit_width as i64);
            s.append(a.as_str());
            s.append(",");
            if *is_signed {
                s.append("sign");
            } else {
                s.append("unsign");
            }
            s.append(")");
            s
        },
        LogicalType::Time { is_adjusted_to_u_t_c, unit } => {
            let mut s = "Time(".to_owned();
            append_zone_and_unit(&mut s, *is_adjusted_to_u_t_c, *unit);
            assert(s@ =~= logical_text(*logical_type));
            s
        },
        LogicalType::Timestamp { is_adjusted_to_u_t_c, unit } => {
            let mut s = "Timestamp(".to_owned();
            append_zone_and_unit(&mut s, *is_adjusted_to_u_t_c, *unit);
            assert(s@ =~= logical_text(*logical_type));
            s
        },
        LogicalType::Other { written } => written.clone(),
    }
}

/// The branch mark in front of a name: a corner for the last field of its
/// parent, a tee for any other.
pub open spec fn connector(is_last: bool) -> Seq<char> {
    if is_last {
        "└─"@
    } else {
        "├─"@
    }
}

/// The line of a node in the tree.
pub open spec fn display_text(prefix: Seq<char>, is_last: bool, name: Seq<char>) -> Seq<char> {
    prefix + connector(is_last) + " "@ + name
}

/// The indentation of the fields of a group: a bar continues the parent's
/// branch unless the parent is the last field.
pub open spec fn child_prefix(prefix: Seq<char>, is_last: bool) -> Seq<char> {
    prefix + (if is_last {
        "   "@
    } else {
        "│  "@
    })
}

/// The first line of every tree.
pub open spec fn root_line() -> SchemaInfoView {
    SchemaInfoView::Root { name: "root"@, display: "└─ root"@ }
}

/// The written form of an optional logical type.
pub open spec fn optional_logical_text(logical: Option<LogicalType>) -> Seq<char> {
    match logical {
        Some(l) => logical_text(l),
        None => Seq::empty(),
    }
}

/// The lines of a node and of everything below it, in pre-order. `leaf` is
/// the index of the first leaf column under the node.
pub open spec fn node_lines(
    node: SchemaNode,
    prefix: Seq<char>,
    is_last: bool,
    leaf: int,
    groups: Seq<RowGroupMeta>,
) -> Seq<SchemaInfoView>
    decreases node,
{
    match node.kind {
        NodeKind::Primitive { physical, logical, converted_type } => seq![
            SchemaInfoView::Primitive {
                name: node.name@,
                display: display_text(prefix, is_last, node.name@),
                info: ColumnSchemaInfoView {
                    name: node.name@,
                    repetition: node.repetition.name_text(),
                    physical: physical.name_text(),
                    logical: optional_logical_text(logical),
                    codec: summary_text(codec_tags(column_chunks(groups, leaf))),
                    converted_type: converted_type@,
                    encoding: summary_text(encoding_tags(column_chunks(groups, leaf))),
                    dictionary_values: None,
                },
                stats: column_stats(column_chunks(groups, leaf), physical),
            },
        ],
        NodeKind::Group { fields } => seq![
            SchemaInfoView::Group {
                name: node.name@,
                display: display_text(prefix, is_last, node.name@),
                repetition: node.repetition.name_text(),
            },
        ] + fields_lines(fields@, child_prefix(prefix, is_last), leaf, groups, true),
    }
}

/// The lines of a list of fields, one after the other. The last of them is
/// drawn as the last field of its parent where `closed` holds.
pub open spec fn fields_lines(
    fields: Seq<SchemaNode>,
    prefix: Seq<char>,
    leaf: int,
    groups: Seq<RowGroupMeta>,
    closed: bool,
) -> Seq<SchemaInfoView>
    decreases fields,
{
    if fields.len() == 0 {
        Seq::empty()
    } else {
        fields_lines(fields.drop_last(), prefix, leaf, groups, false) + node_lines(
            fields.last(),
            prefix,
            closed,
            leaf + fields_leaves(fields.drop_last()),
            groups,
        )
    }
}

/// The sums of every column from `from` up to `to` fit in 64 bits.
pub open spec fn columns_fit(groups: Seq<RowGroupMeta>, from: int, to: int) -> bool {
    forall|col: int| from <= col < to ==> totals_fit(#[trigger] column_chunks(groups, col))
}

/// The number of leaf lines among `lines`.
pub open spec fn primitive_count(lines: Seq<SchemaInfoView>) -> nat
    decreases lines.len(),
{
    if lines.len() == 0 {
        0
    } else {
        primitive_count(lines.drop_last()) + if lines.last() is Primitive {
            1nat
        } else {
            0nat
        }
    }
}

/// The number of root lines among `lines`.
pub open spec fn root_count(lines: Seq<SchemaInfoView>) -> nat
    decreases lines.len(),
{
    if lines.len() == 0 {
        0
    } else {
        root_count(lines.drop_last()) + if lines.last() is Root {
            1nat
        } else {
            0nat
        }
    }
}

/// The names of the leaf lines among `lines`, in order.
pub open spec fn primitive_names(lines: Seq<SchemaInfoView>) -> Seq<Seq<char>>
    decreases lines.len(),
{
    if lines.len() == 0 {
        Seq::empty()
    } else {
        match lines.last() {
            SchemaInfoView::Primitive { name, .. } => primitive_names(lines.drop_last()).push(
                name,
            ),
            _ => primitive_names(lines.drop_last()),
        }
    }
}

/// The greatest length in bytes of a line's text, and at least `floor`.
pub open spec fn widest(lines: Seq<SchemaInfoView>, floor: nat) -> nat
    decreases lines.len(),
{
    if lines.len() == 0 {
        floor
    } else {
        let before = widest(lines.drop_last(), floor);
        let here = encode_utf8(lines.last().display()).len();
        if here > before {
            here
        } else {
            before
        }
    }
}

/// The first fields hold no more leaves than more of them.
pub proof fn lemma_fields_leaves_grow(fields: Seq<SchemaNode>, i: int, j: int)
    requires
        0 <= i <= j <= fields.len(),
    ensures
        fields_leaves(fields.take(i)) <= fields_leaves(fields.take(j)),
    decreases j - i,
{
    if i < j {
        lemma_fields_leaves_grow(fields, i, j - 1);
        assert(fields.take(j).drop_last() =~= fields.take(j - 1));
    }
}

proof fn lemma_counts_concat(a: Seq<SchemaInfoView>, b: Seq<SchemaInfoView>)
    ensures
        primitive_count(a + b) == primitive_count(a) + primitive_count(b),
        root_count(a + b) == root_count(a) + root_count(b),
    decreases b.len(),
{
    if b.len() == 0 {
        assert(a + b =~= a);
    } else {
        lemma_counts_concat(a, b.drop_last());
        assert((a + b).drop_last() =~= a + b.drop_last());
        assert((a + b).last() == b.last());
    }
}

proof fn lemma_counts_single(line: SchemaInfoView)
    ensures
        primitive_count(seq![line]) == if line is Primitive {
            1nat
        } else {
            0nat
        },
        root_count(seq![line]) == if line is Root {
            1nat
        } else {
            0nat
        },
{
    assert(seq![line].drop_last() =~= Seq::<SchemaInfoView>::empty());
    assert(seq![line].last() == line);
    assert(primitive_count(Seq::<SchemaInfoView>::empty()) == 0);
    assert(root_count(Seq::<SchemaInfoView>::empty()) == 0);
}

/// The lines of a node hold no root and one leaf line for every leaf column
/// under it.
pub proof fn lemma_node_lines_counts(
    node: SchemaNode,
    prefix: Seq<char>,
    is_last: bool,
    leaf: int,
    groups: Seq<RowGroupMeta>,
)
    ensures
        primitive_count(node_lines(node, prefix, is_last, leaf, groups)) == node_leaves(node),
        root_count(node_lines(node, prefix, is_last, leaf, groups)) == 0,
    decreases node,
{
    let lines = node_lines(node, prefix, is_last, leaf, groups);
    match node.kind {
        NodeKind::Primitive { .. } => {
            lemma_counts_single(lines[0]);
            assert(lines =~= seq![lines[0]]);
        },
        NodeKind::Group { fields } => {
            let head = seq![
                SchemaInfoView::Group {
                    name: node.name@,
                    display: display_text(prefix, is_last, node.name@),
                    repetition: node.repetition.name_text(),
                },
            ];
            let rest = fields_lines(fields@, child_prefix(prefix, is_last), leaf, groups, true);
            lemma_fields_lines_counts(fields@, child_prefix(prefix, is_last), leaf, groups, true);
            lemma_counts_concat(head, rest);
            lemma_counts_single(head[0]);
        },
    }
}

/// The lines of a list of fields hold no root and one leaf line for every
/// leaf column under them.
pub proof fn lemma_fields_lines_counts(
    fields: Seq<SchemaNode>,
    prefix: Seq<char>,
    leaf: int,
    groups: Seq<RowGroupMeta>,
    closed: bool,
)
    ensures
        primitive_count(fields_lines(fields, prefix, leaf, groups, closed)) == fields_leaves(
            fields,
        ),
        root_count(fields_lines(fields, prefix, leaf, groups, closed)) == 0,
    decreases fields,
{
    if fields.len() > 0 {
        let before = fields_lines(fields.drop_last(), prefix, leaf, groups, false);
        let last = node_lines(
            fields.last(),
            prefix,
            closed,
            leaf + fields_leaves(fields.drop_last()),
            groups,
        );
        lemma_fields_lines_counts(fields.drop_last(), prefix, leaf, groups, false);
        lemma_node_lines_counts(
            fields.last(),
            prefix,
            closed,
            leaf + fields_leaves(fields.drop_last()),
            groups,
        );
        lemma_counts_concat(before, last);
    }
}

/// The sizes and the null count on line `i` are the sums over the chunks of
/// leaf column `leaf`.
pub open spec fn line_totals_are(
    lines: Seq<SchemaInfoView>,
    i: int,
    groups: Seq<RowGroupMeta>,
    leaf: int,
) -> bool {
    lines[i] matches SchemaInfoView::Primitive { stats, .. } ==> {
        &&& stats.total_compressed_size == sum_of(column_chunks(groups, leaf), compressed_of())
        &&& stats.total_uncompressed_size == sum_of(
            column_chunks(groups, leaf),
            uncompressed_of(),
        )
        &&& stats.nulls == sum_of(column_chunks(groups, leaf), nulls_of())
    }
}

/// Every leaf line among `lines` carries the totals of the leaf column of
/// its own number: the first leaf line those of column `leaf`, the next those
/// of the column after it, and so on.
pub open spec fn leaves_in_order(
    lines: Seq<SchemaInfoView>,
    groups: Seq<RowGroupMeta>,
    leaf: int,
) -> bool {
    forall|i: int|
        0 <= i < lines.len() ==> line_totals_are(
            lines,
            i,
            groups,
            leaf + #[trigger] primitive_count(lines.take(i)),
        )
}

/// In the lines of a node the n-th leaf line carries the exact sums of the
/// n-th leaf column under the node, over all row groups.
pub proof fn lemma_node_leaves_in_order(
    node: SchemaNode,
    prefix: Seq<char>,
    is_last: bool,
    leaf: int,
    groups: Seq<RowGroupMeta>,
)
    ensures
        leaves_in_order(node_lines(node, prefix, is_last, leaf, groups), groups, leaf),
    decreases node,
{
    let lines = node_lines(node, prefix, is_last, leaf, groups);
    match node.kind {
        NodeKind::Primitive { .. } => {
            assert forall|i: int| 0 <= i < lines.len() implies line_totals_are(
                lines,
                i,
                groups,
                leaf + #[trigger] primitive_count(lines.take(i)),
            ) by {
                assert(lines.take(0) =~= Seq::<SchemaInfoView>::empty());
                assert(primitive_count(Seq::<SchemaInfoView>::empty()) == 0);
            }
        },
        NodeKind::Group { fields } => {
            let head = seq![
                SchemaInfoView::Group {
                    name: node.name@,
                    display: display_text(prefix, is_last, node.name@),
                    repetition: node.repetition.name_text(),
                },
            ];
            let rest = fields_lines(fields@, child_prefix(prefix, is_last), leaf, groups, true);
            lemma_fields_leaves_in_order(
                fields@,
                child_prefix(prefix, is_last),
                leaf,
                groups,
                true,
            );
            lemma_counts_single(head[0]);
            assert forall|i: int| 0 <= i < lines.len() implies line_totals_are(
                lines,
                i,
                groups,
                leaf + #[trigger] primitive_count(lines.take(i)),
            ) by {
                if i > 0 {
                    assert(lines[i] == rest[i - 1]);
                    assert(lines.take(i) =~= head + rest.take(i - 1));
                    lemma_counts_concat(head, rest.take(i - 1));
                    assert(line_totals_are(
                        rest,
                        i - 1,
                        groups,
                        leaf + primitive_count(rest.take(i - 1)),
                    ));
                }
            }
        },
    }
}

/// In the lines of a list of fields the n-th leaf line carries the exact
/// sums of the n-th leaf column under them, over all row groups.
pub proof fn lemma_fields_leaves_in_order(
    fields: Seq<SchemaNode>,
    prefix: Seq<char>,
    leaf: int,
    groups: Seq<RowGroupMeta>,
    closed: bool,
)
    ensures
        leaves_in_order(fields_lines(fields, prefix, leaf, groups, closed), groups, leaf),
    decreases fields,
{
    let lines = fields_lines(fields, prefix, leaf, groups, closed);
    if fields.len() > 0 {
        let before = fields_lines(fields.drop_last(), prefix, leaf, groups, false);
        let below = leaf + fields_leaves(fields.drop_last());
        let last = node_lines(fields.last(), prefix, closed, below, groups);
        lemma_fields_leaves_in_order(fields.drop_last(), prefix, leaf, groups, false);
        lemma_node_leaves_in_order(fields.last(), prefix, closed, below, groups);
        lemma_fields_lines_counts(fields.drop_last(), prefix, leaf, groups, false);
        assert forall|i: int| 0 <= i < lines.len() implies line_totals_are(
            lines,
            i,
            groups,
            leaf + #[trigger] primitive_count(lines.take(i)),
        ) by {
            if i < before.len() {
                assert(lines[i] == before[i]);
                assert(lines.take(i) =~= before.take(i));
                assert(line_totals_are(
                    before,
                    i,
                    groups,
                    leaf + primitive_count(before.take(i)),
                ));
            } else {
                let j = i - before.len();
                assert(lines[i] == last[j]);
                assert(lines.take(i) =~= before + last.take(j));
                lemma_counts_concat(before, last.take(j));
                assert(line_totals_are(last, j, groups, below + primitive_count(last.take(j))));
            }
        }
    }
}

/// The schema has no more leaves than can be counted, and every row group
/// holds a column chunk for each of them.
pub open spec fn footer_consistent(footer: FileFooter) -> bool {
    &&& fields_leaves(footer.fields@) <= usize::MAX
    &&& groups_cover(footer.row_groups@, fields_leaves(footer.fields@))
}

/// Counts the leaf columns under a node.
pub fn count_node_leaves(node: &SchemaNode) -> (r: Option<usize>)
    ensures
        r is Some <==> node_leaves(*node) <= usize::MAX,
        r matches Some(n) ==> n == node_leaves(*node),
    decreases *node,
{
    match &node.kind {
        NodeKind::Primitive { .. } => Some(1),
        NodeKind::Group { fields } => {
            proof {
                assert(decreases_to!(*node => node.kind));
                assert(decreases_to!(node.kind => node.kind->fields));
            }
            count_fields_leaves(fields)
        },
    }
}

/// Counts the leaf columns under a list of fields.
pub fn count_fields_leaves(fields: &Vec<SchemaNode>) -> (r: Option<usize>)
    ensures
        r is Some <==> fields_leaves(fields@) <= usize::MAX,
        r matches Some(n) ==> n == fields_leaves(fields@),
    decreases *fields,
{
    let mut total: usize = 0;
    let mut i: usize = 0;
    proof {
        assert(fields@.take(0) =~= Seq::<SchemaNode>::empty());
    }
    while i < fields.len()
        invariant
            i <= fields@.len(),
            total == fields_leaves(fields@.take(i as int)),
        decreases fields@.len() - i,
    {
        proof {
            assert(decreases_to!(*fields => fields@));
            assert(decreases_to!(fields@ => fields@[i as int]));
            assert(fields@.take(i + 1).drop_last() =~= fields@.take(i as int));
            assert(fields@.take(i + 1).last() == fields@[i as int]);
            lemma_fields_leaves_grow(fields@, i + 1, fields@.len() as int);
            assert(fields@.take(fields@.len() as int) =~= fields@);
        }
        let below = match count_node_leaves(&fields[i]) {
            Some(n) => n,
            None => {
                return None;
            },
        };
        total = match total.checked_add(below) {
            Some(n) => n,
            None => {
                return None;
            },
        };
        i = i + 1;
    }
    proof {
        assert(fields@.take(i as int) =~= fields@);
    }
    Some(total)
}

fn display_line(prefix: &String, is_last: bool, name: &String) -> (s: String)
    ensures
        s@ == display_text(prefix@, is_last, name@),
{
    let mut s = prefix.clone();
    if is_last {
        s.append("└─");
    } else {
        s.append("├─");
    }
    s.append(" ");
    s.append(name.as_str());
    s
}

/// Appends the lines of `node` and of everything below it to `lines`.
/// `leaf_idx` counts the leaf columns met so far.
pub fn traverse(
    node: &SchemaNode,
    prefix: &String,
    is_last: bool,
    lines: &mut Vec<SchemaInfo>,
    leaf_idx: &mut usize,
    groups: &Vec<RowGroupMeta>,
) -> (r: Result<(), SchemaError>)
    requires
        *old(leaf_idx) + node_leaves(*node) <= usize::MAX,
        groups_cover(groups@, (*old(leaf_idx) + node_leaves(*node)) as nat),
    ensures
        r is Ok <==> columns_fit(
            groups@,
            *old(leaf_idx) as int,
            *old(leaf_idx) + node_leaves(*node),
        ),
        r is Ok ==> line_views(final(lines)@) == line_views(old(lines)@) + node_lines(
            *node,
            prefix@,
            is_last,
            *old(leaf_idx) as int,
            groups@,
        ),
        r is Ok ==> *final(leaf_idx) == *old(leaf_idx) + node_leaves(*node),
        r matches Err(e) ==> e == SchemaError::TotalOverflow,
    decreases *node,
{
    let display = display_line(prefix, is_last, &node.name);
    match &node.kind {
        NodeKind::Primitive { physical, logical, converted_type } => {
            let idx: usize = *leaf_idx;
            let stats = match try_aggregate_column_stats(groups, idx, *physical) {
                Some(stats) => stats,
                None => {
                    return Err(SchemaError::TotalOverflow);
                },
            };
            let (codec, encoding) = column_summary(groups, idx);
            let logical_name = match logical {
                Some(l) => logical_type_to_string(l),
                None => String::new(),
            };
            let info = ColumnSchemaInfo {
                name: node.name.clone(),
                repetition: node.repetition.name(),
                physical: physical.name(),
                logical: logical_name,
                codec,
                converted_type: converted_type.clone(),
                encoding,
                dictionary_values: None,
            };
            let line = SchemaInfo::Primitive {
                name: node.name.clone(),
                display,
                info: Box::new(info),
                stats,
            };
            proof {
                assert(line_views(lines@.push(line)) =~= line_views(lines@) + node_lines(
                    *node,
                    prefix@,
                    is_last,
                    idx as int,
                    groups@,
                ));
            }
            lines.push(line);
            *leaf_idx = idx + 1;
            Ok(())
        },
        NodeKind::Group { fields } => {
            let line = SchemaInfo::Group {
                name: node.name.clone(),
                display,
                repetition: node.repetition.name(),
            };
            let ghost head = seq![line@];
            proof {
                assert(line_views(lines@.push(line)) =~= line_views(lines@) + head);
                assert(decreases_to!(*node => node.kind));
                assert(decreases_to!(node.kind => node.kind->fields));
            }
            lines.push(line);
            let mut below = prefix.clone();
            if is_last {
                below.append("   ");
            } else {
                below.append("│  ");
            }
            let r = traverse_fields(fields, &below, lines, leaf_idx, groups);
            proof {
                if r is Ok {
                    let rest = fields_lines(
                        fields@,
                        child_prefix(prefix@, is_last),
                        *old(leaf_idx) as int,
                        groups@,
                        true,
                    );
                    assert((line_views(old(lines)@) + head) + rest =~= line_views(old(lines)@) + (
                    head + rest));
                }
            }
            r
        },
    }
}

/// Appends the lines of a list of fields to `lines`.
pub fn traverse_fields(
    fields: &Vec<SchemaNode>,
    prefix: &String,
    lines: &mut Vec<SchemaInfo>,
    leaf_idx: &mut usize,
    groups: &Vec<RowGroupMeta>,
) -> (r: Result<(), SchemaError>)
    requires
        *old(leaf_idx) + fields_leaves(fields@) <= usize::MAX,
        groups_cover(groups@, (*old(leaf_idx) + fields_leaves(fields@)) as nat),
    ensures
        r is Ok <==> columns_fit(
            groups@,
            *old(leaf_idx) as int,
            *old(leaf_idx) + fields_leaves(fields@),
        ),
        r is Ok ==> line_views(final(lines)@) == line_views(old(lines)@) + fields_lines(
            fields@,
            prefix@,
            *old(leaf_idx) as int,
            groups@,
            true,
        ),
        r is Ok ==> *final(leaf_idx) == *old(leaf_idx) + fields_leaves(fields@),
        r matches Err(e) ==> e == SchemaError::TotalOverflow,
    decreases *fields,
{
    let count: usize = fields.len();
    let ghost first = *leaf_idx as int;
    let mut i: usize = 0;
    proof {
        assert(fields@.take(0) =~= Seq::<SchemaNode>::empty());
        assert(line_views(lines@) + Seq::<SchemaInfoView>::empty() =~= line_views(lines@));
    }
    while i < count
        invariant
            i <= count == fields@.len(),
            first == *old(leaf_idx),
            first + fields_leaves(fields@) <= usize::MAX,
            groups_cover(groups@, (first + fields_leaves(fields@)) as nat),
            *leaf_idx == first + fields_leaves(fields@.take(i as int)),
            columns_fit(groups@, first, *leaf_idx as int),
            line_views(lines@) == line_views(old(lines)@) + fields_lines(
                fields@.take(i as int),
                prefix@,
                first,
                groups@,
                i == count,
            ),
        decreases count - i,
    {
        let ghost before = line_views(lines@);
        let ghost at = *leaf_idx as int;
        proof {
            assert(decreases_to!(*fields => fields@));
            assert(decreases_to!(fields@ => fields@[i as int]));
            assert(fields@.take(i + 1).drop_last() =~= fields@.take(i as int));
            assert(fields@.take(i + 1).last() == fields@[i as int]);
            lemma_fields_leaves_grow(fields@, i + 1, fields@.len() as int);
            assert(fields@.take(fields@.len() as int) =~= fields@);
        }
        match traverse(&fields[i], prefix, i == count - 1, lines, leaf_idx, groups) {
            Ok(()) => {},
            Err(e) => {
                return Err(e);
            },
        }
        proof {
            let added = node_lines(fields@[i as int], prefix@, i == count - 1, at, groups@);
            let so_far = fields_lines(fields@.take(i as int), prefix@, first, groups@, false);
            assert((line_views(old(lines)@) + so_far) + added =~= line_views(old(lines)@) + (so_far
                + added));
        }
        i = i + 1;
    }
    proof {
        assert(fields@.take(i as int) =~= fields@);
    }
    Ok(())
}

/// What stands behind a line of the tree: a leaf column with what is known
/// of it, or a group with its repetition.
#[derive(Clone)]
pub enum ColumnType {
    Primitive(ColumnSchemaInfo),
    Group(String),
}

/// A line of the tree, by its kind, its name and its text.
#[derive(Debug, Clone)]
pub enum SchemaColumnType {
    Root { name: String, display: String },
    Primitive { name: String, display: String },
    Group { name: String, display: String },
}

/// The line of the tree without what stands behind it.
pub open spec fn bare_line(line: SchemaInfoView, bare: SchemaColumnType) -> bool {
    match line {
        SchemaInfoView::Root { name, display } => bare matches SchemaColumnType::Root {
            name: n,
            display: d,
        } && n@ == name && d@ == display,
        SchemaInfoView::Primitive { name, display, .. } => bare
            matches SchemaColumnType::Primitive { name: n, display: d } && n@ == name && d@
            == display,
        SchemaInfoView::Group { name, display, .. } => bare matches SchemaColumnType::Group {
            name: n,
            display: d,
        } && n@ == name && d@ == display,
    }
}

/// What stands behind a line that is not the root.
pub open spec fn behind_line(line: SchemaInfoView, behind: ColumnType) -> bool {
    match line {
        SchemaInfoView::Root { .. } => false,
        SchemaInfoView::Primitive { info, .. } => behind matches ColumnType::Primitive(i) && i@
            == info,
        SchemaInfoView::Group { repetition, .. } => behind matches ColumnType::Group(r) && r@
            == repetition,
    }
}

/// Builds the lines of the schema tree and, beside them, the index of what
/// stands behind every line after the root: entry `i` of the index belongs to
/// line `i + 1`.
pub fn build_schema_tree_lines(footer: &FileFooter) -> (r: Result<
    (Vec<SchemaColumnType>, Vec<ColumnType>),
    SchemaError,
>)
    ensures
        r is Ok <==> footer_consistent(*footer) && columns_fit(
            footer.row_groups@,
            0,
            fields_leaves(footer.fields@) as int,
        ),
        r matches Ok(built) ==> {
            let lines = seq![root_line()] + fields_lines(
                footer.fields@,
                "   "@,
                0,
                footer.row_groups@,
                true,
            );
            &&& built.0@.len() == lines.len()
            &&& built.1@.len() == lines.len() - 1
            &&& forall|i: int| 0 <= i < lines.len() ==> bare_line(lines[i], #[trigger] built.0@[i])
            &&& forall|i: int|
                0 <= i < lines.len() - 1 ==> behind_line(lines[i + 1], #[trigger] built.1@[i])
        },
        r matches Err(e) ==> (e == SchemaError::ColumnCountMismatch <==> !footer_consistent(
            *footer,
        )),
{
    let schema = match FileSchema::from_metadata(footer) {
        Ok(schema) => schema,
        Err(e) => {
            return Err(e);
        },
    };
    let ghost rest = fields_lines(footer.fields@, "   "@, 0, footer.row_groups@, true);
    proof {
        lemma_fields_lines_counts(footer.fields@, "   "@, 0, footer.row_groups@, true);
    }
    let mut lines: Vec<SchemaColumnType> = Vec::new();
    let mut index: Vec<ColumnType> = Vec::new();
    let mut i: usize = 0;
    while i < schema.columns.len()
        invariant
            i <= schema.columns@.len(),
            rest == fields_lines(footer.fields@, "   "@, 0, footer.row_groups@, true),
            schema@ == seq![root_line()] + rest,
            root_count(rest) == 0,
            lines@.len() == i,
            index@.len() == if i == 0 {
                0
            } else {
                i - 1
            },
            forall|k: int| 0 <= k < i ==> bare_line(schema@[k], #[trigger] lines@[k]),
            forall|k: int| 0 <= k < i - 1 ==> behind_line(schema@[k + 1], #[trigger] index@[k]),
        decreases schema.columns@.len() - i,
    {
        proof {
            assert(schema@.len() == schema.columns@.len());
            assert((seq![root_line()] + rest).len() == 1 + rest.len());
            if i > 0 {
                assert(schema@[i as int] == rest[i - 1]);
                lemma_root_count_bounds(rest, i - 1);
                lemma_no_dictionary(footer.fields@, "   "@, 0, footer.row_groups@, true, i - 1);
            }
        }
        match &schema.columns[i] {
            SchemaInfo::Root { name, display } => {
                lines.push(SchemaColumnType::Root { name: name.clone(), display: display.clone() });
            },
            SchemaInfo::Primitive { name, display, info, .. } => {
                lines.push(
                    SchemaColumnType::Primitive { name: name.clone(), display: display.clone() },
                );
                let copy = ColumnSchemaInfo {
                    name: info.name.clone(),
                    repetition: info.repetition.clone(),
                    physical: info.physical.clone(),
                    logical: info.logical.clone(),
                    codec: info.codec.clone(),
                    converted_type: info.converted_type.clone(),
                    encoding: info.encoding.clone(),
                    dictionary_values: None,
                };
                index.push(ColumnType::Primitive(copy));
            },
            SchemaInfo::Group { name, display, repetition } => {
                lines.push(
                    SchemaColumnType::Group { name: name.clone(), display: display.clone() },
                );
                index.push(ColumnType::Group(repetition.clone()));
            },
        }
        i = i + 1;
    }
    Ok((lines, index))
}

/// A list of lines without roots has no root at any place.
proof fn lemma_root_count_bounds(lines: Seq<SchemaInfoView>, i: int)
    requires
        0 <= i < lines.len(),
        root_count(lines) == 0,
    ensures
        !(lines[i] is Root),
    decreases lines.len(),
{
    if i < lines.len() - 1 {
        lemma_root_count_bounds(lines.drop_last(), i);
    }
}

/// No line of a freshly built tree carries dictionary values.
proof fn lemma_no_dictionary(
    fields: Seq<SchemaNode>,
    prefix: Seq<char>,
    leaf: int,
    groups: Seq<RowGroupMeta>,
    closed: bool,
    i: int,
)
    requires
        0 <= i < fields_lines(fields, prefix, leaf, groups, closed).len(),
    ensures
        fields_lines(fields, prefix, leaf, groups, closed)[i] matches SchemaInfoView::Primitive {
            info,
            ..
        } ==> info.dictionary_values is None,
    decreases fields, 0nat,
{
    let before = fields_lines(fields.drop_last(), prefix, leaf, groups, false);
    let below = leaf + fields_leaves(fields.drop_last());
    if i < before.len() {
        lemma_no_dictionary(fields.drop_last(), prefix, leaf, groups, false, i);
    } else {
        lemma_node_no_dictionary(fields.last(), prefix, closed, below, groups, i - before.len());
    }
}

proof fn lemma_node_no_dictionary(
    node: SchemaNode,
    prefix: Seq<char>,
    is_last: bool,
    leaf: int,
    groups: Seq<RowGroupMeta>,
    i: int,
)
    requires
        0 <= i < node_lines(node, prefix, is_last, leaf, groups).len(),
    ensures
        node_lines(node, prefix, is_last, leaf, groups)[i] matches SchemaInfoView::Primitive {
            info,
            ..
        } ==> info.dictionary_values is None,
    decreases node, 1nat,
{
    match node.kind {
        NodeKind::Primitive { .. } => {},
        NodeKind::Group { fields } => {
            if i > 0 {
                lemma_no_dictionary(
                    fields@,
                    child_prefix(prefix, is_last),
                    leaf,
                    groups,
                    true,
                    i - 1,
                );
            }
        },
    }
}

impl FileSchema {
    /// Builds the schema tree of a file. The tree is built whole or not at
    /// all.
    pub fn from_metadata(footer: &FileFooter) -> (r: Result<FileSchema, SchemaError>)
        ensures
            r is Ok <==> footer_consistent(*footer) && columns_fit(
                footer.row_groups@,
                0,
                fields_leaves(footer.fields@) as int,
            ),
            r matches Ok(schema) ==> {
                &&& schema@ == seq![root_line()] + fields_lines(
                    footer.fields@,
                    "   "@,
                    0,
                    footer.row_groups@,
                    true,
                )
                &&& schema@[0] is Root
                &&& root_count(schema@) == 1
                &&& primitive_count(schema@) == fields_leaves(footer.fields@)
                &&& leaves_in_order(schema@, footer.row_groups@, 0)
            },
            r matches Err(e) ==> (e == SchemaError::ColumnCountMismatch <==> !footer_consistent(
                *footer,
            )),
    {
        let leaves: usize = match count_fields_leaves(&footer.fields) {
            Some(n) => n,
            None => {
                return Err(SchemaError::ColumnCountMismatch);
            },
        };
        if !check_groups_cover(&footer.row_groups, leaves) {
            return Err(SchemaError::ColumnCountMismatch);
        }
        let mut lines: Vec<SchemaInfo> = Vec::new();
        let root = SchemaInfo::Root { name: "root".to_owned(), display: "└─ root".to_owned() };
        lines.push(root);
        let ghost head = line_views(lines@);
        let mut leaf_idx: usize = 0;
        let indent = "   ".to_owned();
        let groups = &footer.row_groups;
        match traverse_fields(&footer.fields, &indent, &mut lines, &mut leaf_idx, groups) {
            Ok(()) => {},
            Err(e) => {
                return Err(e);
            },
        }
        proof {
            let rest = fields_lines(footer.fields@, "   "@, 0, footer.row_groups@, true);
            assert(head =~= seq![root_line()]);
            lemma_fields_lines_counts(footer.fields@, "   "@, 0, footer.row_groups@, true);
            lemma_counts_concat(head, rest);
            lemma_counts_single(root_line());
            lemma_fields_leaves_in_order(footer.fields@, "   "@, 0, footer.row_groups@, true);
            let all = head + rest;
            assert forall|i: int| 0 <= i < all.len() implies line_totals_are(
                all,
                i,
                footer.row_groups@,
                0int + #[trigger] primitive_count(all.take(i)),
            ) by {
                if i > 0 {
                    assert(all[i] == rest[i - 1]);
                    assert(all.take(i) =~= head + rest.take(i - 1));
                    lemma_counts_concat(head, rest.take(i - 1));
                    assert(line_totals_are(
                        rest,
                        i - 1,
                        footer.row_groups@,
                        0int + primitive_count(rest.take(i - 1)),
                    ));
                }
            }
        }
        Ok(FileSchema { columns: lines })
    }

    /// The name of the column or group on line `index`.
    pub fn column_group_name(&self, index: usize) -> (name: String)
        requires
            index < self.columns@.len(),
            !(self.columns@[index as int] is Root),
        ensures
            match self@[index as int] {
                SchemaInfoView::Primitive { name: n, .. } => name@ == n,
                SchemaInfoView::Group { name: n, .. } => name@ == n,
                SchemaInfoView::Root { .. } => false,
            },
    {
        match &self.columns[index] {
            SchemaInfo::Primitive { name, .. } => name.clone(),
            SchemaInfo::Group { name, .. } => name.clone(),
            SchemaInfo::Root { .. } => unreached(),
        }
    }

    /// The number of leaf columns.
    pub fn column_size(&self) -> (n: usize)
        ensures
            n == primitive_count(self@),
    {
        let mut n: usize = 0;
        let mut i: usize = 0;
        proof {
            assert(self@.take(0) =~= Seq::<SchemaInfoView>::empty());
        }
        while i < self.columns.len()
            invariant
                i <= self.columns@.len(),
                n <= i,
                n == primitive_count(self@.take(i as int)),
            decreases self.columns@.len() - i,
        {
            proof {
                assert(self@.take(i + 1).drop_last() =~= self@.take(i as int));
                assert(self@.take(i + 1).last() == self.columns@[i as int]@);
            }
            if let SchemaInfo::Primitive { .. } = &self.columns[i] {
                n = n + 1;
            }
            i = i + 1;
        }
        proof {
            assert(self@.take(i as int) =~= self@);
        }
        n
    }

    /// The width of the tree in bytes: that of its longest line, and at
    /// least 24.
    pub fn tree_width(&self) -> (w: usize)
        ensures
            w == widest(self@, 24),
    {
        let mut w: usize = 24;
        let mut i: usize = 0;
        proof {
            assert(self@.take(0) =~= Seq::<SchemaInfoView>::empty());
        }
        while i < self.columns.len()
            invariant
                i <= self.columns@.len(),
                w == widest(self@.take(i as int), 24),
            decreases self.columns@.len() - i,
        {
            proof {
                assert(self@.take(i + 1).drop_last() =~= self@.take(i as int));
                assert(self@.take(i + 1).last() == self.columns@[i as int]@);
            }
            let text: &str = match &self.columns[i] {
                SchemaInfo::Root { display, .. } => display.as_str(),
                SchemaInfo::Primitive { display, .. } => display.as_str(),
                SchemaInfo::Group { display, .. } => display.as_str(),
            };
            assert(text@ == self.columns@[i as int]@.display());
            let here: usize = text.as_bytes().len();
            if here > w {
                w = here;
            }
            i = i + 1;
        }
        proof {
            assert(self@.take(i as int) =~= self@);
        }
        w
    }

    /// The names of the leaf columns, in the order of the file.
    pub fn primitive_column_names(&self) -> (names: Vec<String>)
        ensures
            views(names@) == primitive_names(self@),
    {
        let mut names: Vec<String> = Vec::new();
        let mut i: usize = 0;
        proof {
            assert(self@.take(0) =~= Seq::<SchemaInfoView>::empty());
            assert(views(names@) =~= Seq::<Seq<char>>::empty());
        }
        while i < self.columns.len()
            invariant
                i <= self.columns@.len(),
                views(names@) == primitive_names(self@.take(i as int)),
            decreases self.columns@.len() - i,
        {
            proof {
                assert(self@.take(i + 1).drop_last() =~= self@.take(i as int));
                assert(self@.take(i + 1).last() == self.columns@[i as int]@);
            }
            if let SchemaInfo::Primitive { name, .. } = &self.columns[i] {
                let copy = name.clone();
                proof {
                    assert(views(names@.push(copy)) =~= views(names@).push(copy@));
                }
                names.push(copy);
            }
            i = i + 1;
        }
        proof {
            assert(self@.take(i as int) =~= self@);
        }
        names
    }
}

} // verus!
