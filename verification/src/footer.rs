//! The parsed footer of a file, as plain data: the nested schema and, for
//! every row group, the metadata of its column chunks.

use vstd::prelude::*;
use crate::decode::PhysicalType;

verus! {

/// How often a field occurs in its parent.
#[allow(non_camel_case_types)]
#[derive(Clone, Copy, Debug, PartialEq, Eq, Structural)]
pub enum Repetition {
    REQUIRED,
    OPTIONAL,
    REPEATED,
}

impl Repetition {
    /// The name of the repetition as the file format writes it.
    pub open spec fn name_text(self) -> Seq<char> {
        match self {
            Repetition::REQUIRED => "REQUIRED"@,
            Repetition::OPTIONAL => "OPTIONAL"@,
            Repetition::REPEATED => "REPEATED"@,
        }
    }

    /// The name of the repetition as the file format writes it.
    pub fn name(self) -> (s: String)
        ensures
            s@ == self.name_text(),
    {
        match self {
            Repetition::REQUIRED => "REQUIRED".to_owned(),
            Repetition::OPTIONAL => "OPTIONAL".to_owned(),
            Repetition::REPEATED => "REPEATED".to_owned(),
        }
    }
}

/// The resolution of a time or timestamp.
#[allow(non_camel_case_types)]
#[derive(Clone, Copy, Debug, PartialEq, Eq, Structural)]
pub enum TimeUnit {
    MILLIS,
    MICROS,
    NANOS,
}

/// The semantic annotation of a primitive column. The annotations that carry
/// parameters are held apart; any other is held by its written form.
#[derive(Clone, Debug)]
pub enum LogicalType {
    Decimal { scale: i32, precision: i32 },
    Integer { bit_width: i8, is_signed: bool },
    Time { is_adjusted_to_u_t_c: bool, unit: TimeUnit },
    Timestamp { is_adjusted_to_u_t_c: bool, unit: TimeUnit },
    Other { written: String },
}

/// What a schema node is: a leaf column or a group of fields.
pub enum NodeKind {
    Primitive { physical: PhysicalType, logical: Option<LogicalType>, converted_type: String },
    Group { fields: Vec<SchemaNode> },
}

/// A node of the nested schema.
pub struct SchemaNode {
    pub name: String,
    pub repetition: Repetition,
    pub kind: NodeKind,
}

/// The statistics that a writer may attach to a column chunk.
pub struct ChunkStatistics {
    pub null_count: Option<u64>,
    pub distinct_count: Option<u64>,
    pub min_bytes: Option<Vec<u8>>,
    pub max_bytes: Option<Vec<u8>>,
}

/// The metadata of one column chunk.
pub struct ColumnChunkMeta {
    /// The tag of the compression codec.
    pub compression: String,
    /// The tags of the encodings used in the chunk.
    pub encodings: Vec<String>,
    pub statistics: Option<ChunkStatistics>,
    pub compressed_size: u64,
    pub uncompressed_size: u64,
}

/// The metadata of one row group: one column chunk per leaf column, in the
/// order of the leaves.
pub struct RowGroupMeta {
    pub num_rows: i64,
    pub columns: Vec<ColumnChunkMeta>,
}

/// The footer of a file.
pub struct FileFooter {
    /// The version of the format that the file was written in.
    pub version: i32,
    /// The program that wrote the file, where it left its name.
    pub created_by: Option<String>,
    /// The fields of the schema's root, in declared order.
    pub fields: Vec<SchemaNode>,
    pub row_groups: Vec<RowGroupMeta>,
}

/// The number of leaf columns under a node.
pub open spec fn node_leaves(node: SchemaNode) -> nat
    decreases node,
{
    match node.kind {
        NodeKind::Primitive { .. } => 1,
        NodeKind::Group { fields } => fields_leaves(fields@),
    }
}

/// The number of leaf columns under a list of fields.
pub open spec fn fields_leaves(fields: Seq<SchemaNode>) -> nat
    decreases fields,
{
    if fields.len() == 0 {
        0
    } else {
        fields_leaves(fields.drop_last()) + node_leaves(fields.last())
    }
}

/// Every row group holds at least `leaves` column chunks.
pub open spec fn groups_cover(groups: Seq<RowGroupMeta>, leaves: nat) -> bool {
    forall|g: int| 0 <= g < groups.len() ==> leaves <= (#[trigger] groups[g]).columns@.len()
}

/// Tells whether every row group holds at least `leaves` column chunks.
pub fn check_groups_cover(groups: &Vec<RowGroupMeta>, leaves: usize) -> (ok: bool)
    ensures
        ok == groups_cover(groups@, leaves as nat),
{
    let mut g: usize = 0;
    while g < groups.len()
        invariant
            g <= groups@.len(),
            forall|k: int| 0 <= k < g ==> leaves <= (#[trigger] groups@[k]).columns@.len(),
        decreases groups@.len() - g,
    {
        if groups[g].columns.len() < leaves {
            return false;
        }
        g = g + 1;
    }
    true
}

} // verus!
