use parqeye::components::ColumnSizesButterflyChart;
use parqeye::decode::PhysicalType;
use parqeye::footer::{
    ChunkStatistics, ColumnChunkMeta, FileFooter, NodeKind, Repetition, RowGroupMeta, SchemaNode,
};
use parqeye::metadata::FileMetadata;
use parqeye::schema::{FileSchema, SchemaError, SchemaInfo};
use parqeye::stats::{aggregate_column_stats, try_aggregate_column_stats};
use parqeye::summary::{column_summary, insert_tag};

fn leaf(name: &str, physical: PhysicalType) -> SchemaNode {
    SchemaNode {
        name: name.to_string(),
        repetition: Repetition::OPTIONAL,
        kind: NodeKind::Primitive {
            physical,
            logical: None,
            converted_type: "NONE".to_string(),
        },
    }
}

fn group(name: &str, fields: Vec<SchemaNode>) -> SchemaNode {
    SchemaNode {
        name: name.to_string(),
        repetition: Repetition::REQUIRED,
        kind: NodeKind::Group { fields },
    }
}

fn chunk(codec: &str, encodings: &[&str], compressed: u64, uncompressed: u64) -> ColumnChunkMeta {
    ColumnChunkMeta {
        compression: codec.to_string(),
        encodings: encodings.iter().map(|e| e.to_string()).collect(),
        statistics: None,
        compressed_size: compressed,
        uncompressed_size: uncompressed,
    }
}

fn with_stats(
    mut c: ColumnChunkMeta,
    nulls: Option<u64>,
    distinct: Option<u64>,
    min: Option<&[u8]>,
    max: Option<&[u8]>,
) -> ColumnChunkMeta {
    c.statistics = Some(ChunkStatistics {
        null_count: nulls,
        distinct_count: distinct,
        min_bytes: min.map(|b| b.to_vec()),
        max_bytes: max.map(|b| b.to_vec()),
    });
    c
}

/// A footer shaped like the well-known file of all plain types: eight rows,
/// eleven flat columns, one row group, nothing compressed, no statistics.
fn alltypes_plain() -> FileFooter {
    let columns = [
        ("id", PhysicalType::INT32, 73),
        ("bool_col", PhysicalType::BOOLEAN, 24),
        ("tinyint_col", PhysicalType::INT32, 47),
        ("smallint_col", PhysicalType::INT32, 47),
        ("int_col", PhysicalType::INT32, 47),
        ("bigint_col", PhysicalType::INT64, 55),
        ("float_col", PhysicalType::FLOAT, 47),
        ("double_col", PhysicalType::DOUBLE, 55),
        ("date_string_col", PhysicalType::BYTE_ARRAY, 88),
        ("string_col", PhysicalType::BYTE_ARRAY, 49),
        ("timestamp_col", PhysicalType::INT96, 139),
    ];
    FileFooter {
        version: 1,
        created_by: Some(
            "impala version 1.3.0-INTERNAL (build 8a48ddb1eff84592b3fc06bc6f51ec120e1fffc9)"
                .to_string(),
        ),
        fields: columns.iter().map(|(name, physical, _)| leaf(name, *physical)).collect(),
        row_groups: vec![RowGroupMeta {
            num_rows: 8,
            columns: columns
                .iter()
                .map(|(_, _, size)| {
                    chunk("UNCOMPRESSED", &["PLAIN_DICTIONARY", "RLE", "PLAIN"], *size, *size)
                })
                .collect(),
        }],
    }
}

#[test]
fn fixture_of_eleven_flat_columns() {
    let schema = FileSchema::from_metadata(&alltypes_plain()).unwrap();
    assert_eq!(11, schema.column_size());
    assert_eq!(25, schema.tree_width());
    assert_eq!(12, schema.columns.len());
    assert!(matches!(&schema.columns[0], SchemaInfo::Root { .. }));
    let mut roots = 0;
    let mut primitives = 0;
    let mut groups = 0;
    let mut total = 0;
    for col in &schema.columns {
        match col {
            SchemaInfo::Root { name, display } => {
                roots += 1;
                assert_eq!(name, "root");
                assert_eq!(display, "└─ root");
            }
            SchemaInfo::Primitive { name, display, info, stats } => {
                primitives += 1;
                assert!(display.contains(name.as_str()));
                assert_eq!(stats.total_compressed_size, stats.total_uncompressed_size);
                assert_eq!(info.codec, "UNCOMPRESSED");
                assert_eq!(info.encoding, "PLAIN, PLAIN_DICTIONARY, RLE");
                assert_eq!(info.repetition, "OPTIONAL");
                assert_eq!(info.converted_type, "NONE");
                assert_eq!(info.logical, "");
                assert!(info.dictionary_values.is_none());
                assert_eq!(stats.min, None);
                assert_eq!(stats.max, None);
                assert_eq!(stats.nulls, 0);
                assert_eq!(stats.distinct, None);
                total += stats.total_compressed_size;
            }
            SchemaInfo::Group { .. } => groups += 1,
        }
    }
    assert_eq!((1, 11, 0), (roots, primitives, groups));
    assert_eq!(671, total);
    assert_eq!("id", schema.column_group_name(1));
    let names = schema.primitive_column_names();
    assert_eq!(
        names,
        vec![
            "id", "bool_col", "tinyint_col", "smallint_col", "int_col", "bigint_col",
            "float_col", "double_col", "date_string_col", "string_col", "timestamp_col",
        ]
    );
    match &schema.columns[1] {
        SchemaInfo::Primitive { display, info, .. } => {
            assert_eq!(display, "   ├─ id");
            assert_eq!(info.physical, "INT32");
        }
        _ => panic!("the first field is a leaf"),
    }
    match &schema.columns[11] {
        SchemaInfo::Primitive { display, info, .. } => {
            assert_eq!(display, "   └─ timestamp_col");
            assert_eq!(info.physical, "INT96");
        }
        _ => panic!("the last field is a leaf"),
    }
}

#[test]
fn a_schema_without_fields_is_just_the_root() {
    let footer = FileFooter { version: 1, created_by: None, fields: vec![], row_groups: vec![] };
    let schema = FileSchema::from_metadata(&footer).unwrap();
    assert_eq!(1, schema.columns.len());
    assert!(matches!(&schema.columns[0], SchemaInfo::Root { .. }));
    assert_eq!(0, schema.column_size());
    assert_eq!(24, schema.tree_width());
    assert!(schema.primitive_column_names().is_empty());

    let only_groups = FileFooter {
        version: 1,
        created_by: None,
        fields: vec![group("empty", vec![])],
        row_groups: vec![RowGroupMeta { num_rows: 0, columns: vec![] }],
    };
    let schema = FileSchema::from_metadata(&only_groups).unwrap();
    assert_eq!(2, schema.columns.len());
    assert_eq!(0, schema.column_size());
    assert_eq!("empty", schema.column_group_name(1));
}

#[test]
fn nested_groups_are_walked_in_pre_order() {
    let footer = FileFooter {
        version: 1,
        created_by: None,
        fields: vec![
            leaf("a", PhysicalType::INT32),
            group(
                "g",
                vec![
                    leaf("b", PhysicalType::INT64),
                    group("h", vec![leaf("c", PhysicalType::DOUBLE)]),
                    leaf("d", PhysicalType::BYTE_ARRAY),
                ],
            ),
            group("last", vec![leaf("e", PhysicalType::FLOAT)]),
        ],
        row_groups: vec![
            RowGroupMeta {
                num_rows: 1,
                columns: vec![
                    chunk("SNAPPY", &["PLAIN"], 1, 10),
                    chunk("SNAPPY", &["PLAIN"], 2, 20),
                    chunk("SNAPPY", &["PLAIN"], 3, 30),
                    chunk("SNAPPY", &["PLAIN"], 4, 40),
                    chunk("SNAPPY", &["PLAIN"], 5, 50),
                ],
            },
            RowGroupMeta {
                num_rows: 1,
                columns: vec![
                    chunk("GZIP", &["RLE"], 100, 1000),
                    chunk("SNAPPY", &["RLE", "PLAIN"], 200, 2000),
                    chunk("SNAPPY", &["PLAIN"], 300, 3000),
                    chunk("UNCOMPRESSED", &[], 400, 4000),
                    chunk("SNAPPY", &["BIT_PACKED"], 500, 5000),
                ],
            },
        ],
    };
    let schema = FileSchema::from_metadata(&footer).unwrap();
    let displays: Vec<String> = schema
        .columns
        .iter()
        .map(|c| match c {
            SchemaInfo::Root { display, .. } => display.clone(),
            SchemaInfo::Primitive { display, .. } => display.clone(),
            SchemaInfo::Group { display, .. } => display.clone(),
        })
        .collect();
    assert_eq!(
        displays,
        vec![
            "└─ root",
            "   ├─ a",
            "   ├─ g",
            "   │  ├─ b",
            "   │  ├─ h",
            "   │  │  └─ c",
            "   │  └─ d",
            "   └─ last",
            "      └─ e",
        ]
    );
    assert_eq!(5, schema.column_size());
    assert_eq!(schema.primitive_column_names(), vec!["a", "b", "c", "d", "e"]);
    assert_eq!("g", schema.column_group_name(2));
    assert_eq!("c", schema.column_group_name(5));
    let mut sizes = Vec::new();
    let mut codecs = Vec::new();
    let mut encodings = Vec::new();
    for col in &schema.columns {
        if let SchemaInfo::Primitive { info, stats, .. } = col {
            sizes.push((stats.total_compressed_size, stats.total_uncompressed_size));
            codecs.push(info.codec.clone());
            encodings.push(info.encoding.clone());
        }
        if let SchemaInfo::Group { repetition, .. } = col {
            assert_eq!(repetition, "REQUIRED");
        }
    }
    assert_eq!(sizes, vec![(101, 1010), (202, 2020), (303, 3030), (404, 4040), (505, 5050)]);
    assert_eq!(
        codecs,
        vec!["GZIP, SNAPPY", "SNAPPY", "SNAPPY", "SNAPPY, UNCOMPRESSED", "SNAPPY"]
    );
    assert_eq!(encodings, vec!["PLAIN, RLE", "PLAIN, RLE", "PLAIN", "PLAIN", "BIT_PACKED, PLAIN"]);
    let chart = ColumnSizesButterflyChart::new(&schema);
    assert_eq!(chart.max_compressed_size, 505);
    assert_eq!(chart.max_uncompressed_size, 5050);
}

#[test]
fn a_row_group_with_too_few_chunks_is_refused() {
    let footer = FileFooter {
        version: 1,
        created_by: None,
        fields: vec![leaf("a", PhysicalType::INT32), leaf("b", PhysicalType::INT32)],
        row_groups: vec![
            RowGroupMeta {
                num_rows: 1,
                columns: vec![chunk("SNAPPY", &[], 1, 1), chunk("SNAPPY", &[], 1, 1)],
            },
            RowGroupMeta { num_rows: 1, columns: vec![chunk("SNAPPY", &[], 1, 1)] },
        ],
    };
    assert_eq!(
        FileSchema::from_metadata(&footer).err(),
        Some(SchemaError::ColumnCountMismatch)
    );
    assert_eq!(
        SchemaError::ColumnCountMismatch.message(),
        "row groups do not hold one column chunk per leaf column"
    );
}

#[test]
fn totals_beyond_64_bits_are_refused() {
    let footer = FileFooter {
        version: 1,
        created_by: None,
        fields: vec![leaf("a", PhysicalType::INT32)],
        row_groups: vec![
            RowGroupMeta { num_rows: 1, columns: vec![chunk("SNAPPY", &[], u64::MAX, 1)] },
            RowGroupMeta { num_rows: 1, columns: vec![chunk("SNAPPY", &[], 1, 1)] },
        ],
    };
    assert_eq!(FileSchema::from_metadata(&footer).err(), Some(SchemaError::TotalOverflow));
    assert!(try_aggregate_column_stats(&footer.row_groups, 0, PhysicalType::INT32).is_none());
    assert_eq!(SchemaError::TotalOverflow.message(), "column totals do not fit in 64 bits");
}

#[test]
fn statistics_fold_over_row_groups() {
    let groups = vec![
        RowGroupMeta {
            num_rows: 10,
            columns: vec![with_stats(
                chunk("SNAPPY", &["PLAIN"], 100, 150),
                Some(2),
                Some(5),
                Some(&5i32.to_le_bytes()),
                Some(&9i32.to_le_bytes()),
            )],
        },
        RowGroupMeta { num_rows: 10, columns: vec![chunk("SNAPPY", &["PLAIN"], 7, 9)] },
        RowGroupMeta {
            num_rows: 10,
            columns: vec![with_stats(
                chunk("SNAPPY", &["PLAIN"], 30, 40),
                Some(3),
                None,
                Some(&3i32.to_le_bytes()),
                Some(&7i32.to_le_bytes()),
            )],
        },
        RowGroupMeta {
            num_rows: 10,
            columns: vec![with_stats(
                chunk("SNAPPY", &["PLAIN"], 1, 2),
                None,
                Some(4),
                None,
                Some(&12i32.to_le_bytes()),
            )],
        },
    ];
    let stats = aggregate_column_stats(&groups, 0, PhysicalType::INT32);
    assert_eq!(stats.nulls, 5);
    assert_eq!(stats.distinct, Some(9));
    assert_eq!(stats.total_compressed_size, 138);
    assert_eq!(stats.total_uncompressed_size, 201);
    assert_eq!(stats.min.as_deref(), Some("3"));
    assert_eq!(stats.max.as_deref(), Some("12"));
}

#[test]
fn absent_statistics_give_absent_fields() {
    let groups = vec![
        RowGroupMeta { num_rows: 1, columns: vec![chunk("SNAPPY", &[], 5, 6)] },
        RowGroupMeta {
            num_rows: 1,
            columns: vec![with_stats(chunk("SNAPPY", &[], 1, 1), None, None, None, None)],
        },
    ];
    let stats = aggregate_column_stats(&groups, 0, PhysicalType::INT64);
    assert_eq!(stats.min, None);
    assert_eq!(stats.max, None);
    assert_eq!(stats.nulls, 0);
    assert_eq!(stats.distinct, None);
    assert_eq!(stats.total_compressed_size, 6);
    assert_eq!(stats.total_uncompressed_size, 7);
    let none = aggregate_column_stats(&Vec::new(), 0, PhysicalType::INT64);
    assert_eq!(none.total_compressed_size, 0);
    assert_eq!(none.min, None);
}

#[test]
fn minimum_and_maximum_follow_the_byte_order() {
    // In byte order the bytes of -1 come after those of 1: the known limit of
    // comparing raw values.
    let groups = vec![
        RowGroupMeta {
            num_rows: 1,
            columns: vec![with_stats(
                chunk("SNAPPY", &[], 1, 1),
                None,
                None,
                Some(&(-1i32).to_le_bytes()),
                Some(&(-1i32).to_le_bytes()),
            )],
        },
        RowGroupMeta {
            num_rows: 1,
            columns: vec![with_stats(
                chunk("SNAPPY", &[], 1, 1),
                None,
                None,
                Some(&1i32.to_le_bytes()),
                Some(&1i32.to_le_bytes()),
            )],
        },
    ];
    let stats = aggregate_column_stats(&groups, 0, PhysicalType::INT32);
    assert_eq!(stats.min.as_deref(), Some("1"));
    assert_eq!(stats.max.as_deref(), Some("-1"));

    let text = vec![
        RowGroupMeta {
            num_rows: 1,
            columns: vec![with_stats(
                chunk("SNAPPY", &[], 1, 1),
                None,
                None,
                Some(b"pear"),
                Some(b"plum"),
            )],
        },
        RowGroupMeta {
            num_rows: 1,
            columns: vec![with_stats(
                chunk("SNAPPY", &[], 1, 1),
                None,
                None,
                Some(b"pea"),
                Some(b"plums"),
            )],
        },
        RowGroupMeta {
            num_rows: 1,
            columns: vec![with_stats(
                chunk("SNAPPY", &[], 1, 1),
                None,
                None,
                Some(b"peach"),
                Some(b"apple"),
            )],
        },
    ];
    let stats = aggregate_column_stats(&text, 0, PhysicalType::BYTE_ARRAY);
    assert_eq!(stats.min.as_deref(), Some("pea"));
    assert_eq!(stats.max.as_deref(), Some("plums"));
}

#[test]
fn summaries_are_sorted_and_without_repetition() {
    let groups = vec![
        RowGroupMeta {
            num_rows: 1,
            columns: vec![chunk("SNAPPY", &["RLE", "PLAIN", "RLE"], 1, 1)],
        },
        RowGroupMeta { num_rows: 1, columns: vec![chunk("GZIP", &["PLAIN"], 1, 1)] },
        RowGroupMeta {
            num_rows: 1,
            columns: vec![chunk("SNAPPY", &["DELTA_BINARY_PACKED", "PLAIN_DICTIONARY"], 1, 1)],
        },
    ];
    let (codecs, encodings) = column_summary(&groups, 0);
    assert_eq!(codecs, "GZIP, SNAPPY");
    assert_eq!(encodings, "DELTA_BINARY_PACKED, PLAIN, PLAIN_DICTIONARY, RLE");
    let (codecs, encodings) = column_summary(&Vec::new(), 0);
    assert_eq!(codecs, "");
    assert_eq!(encodings, "");

    let mut tags: Vec<String> = Vec::new();
    for tag in ["b", "a", "c", "a", "ab", "", "b"] {
        insert_tag(&mut tags, &tag.to_string());
    }
    assert_eq!(tags, vec!["", "a", "ab", "b", "c"]);
}

#[test]
fn figures_of_the_fixture() {
    let md = FileMetadata::from_metadata(&alltypes_plain()).unwrap();
    assert_eq!(8, md.num_rows);
    assert_eq!(11, md.num_columns);
    assert_eq!(1, md.num_row_groups);
    assert_eq!("1", md.format_version);
    assert_eq!(
        "impala version 1.3.0-INTERNAL (build 8a48ddb1eff84592b3fc06bc6f51ec120e1fffc9)",
        md.created_by
    );
    assert_eq!(671, md.raw_size);
    assert_eq!(671, md.compressed_size);
    assert_eq!("1.00x", md.compression_ratio_text());
    assert_eq!("UNCOMPRESSED(11)", md.codecs);
    assert_eq!("PLAIN, PLAIN_DICTIONARY, RLE", md.encodings);
    assert_eq!(83_u64, md.avg_row_size);
}

#[test]
fn figures_of_a_file_without_rows() {
    let footer = FileFooter { version: 2, created_by: None, fields: vec![], row_groups: vec![] };
    let md = FileMetadata::from_metadata(&footer).unwrap();
    assert_eq!(md.created_by, "—");
    assert_eq!(md.format_version, "2");
    assert_eq!((md.num_rows, md.num_columns, md.num_row_groups), (0, 0, 0));
    assert_eq!((md.raw_size, md.compressed_size, md.avg_row_size), (0, 0, 0));
    assert_eq!(md.compression_ratio_text(), "0.00x");
    assert_eq!(md.codecs, "");
    assert_eq!(md.encodings, "");
}

#[test]
fn codecs_are_counted_over_all_chunks() {
    let footer = FileFooter {
        version: 1,
        created_by: None,
        fields: vec![leaf("a", PhysicalType::INT32), leaf("b", PhysicalType::INT32)],
        row_groups: vec![
            RowGroupMeta {
                num_rows: 3,
                columns: vec![
                    chunk("SNAPPY", &["PLAIN"], 10, 100),
                    chunk("GZIP", &["RLE"], 20, 50),
                ],
            },
            RowGroupMeta {
                num_rows: 4,
                columns: vec![
                    chunk("SNAPPY", &["PLAIN", "RLE_DICTIONARY"], 30, 100),
                    chunk("SNAPPY", &["PLAIN"], 40, 100),
                ],
            },
        ],
    };
    let md = FileMetadata::from_metadata(&footer).unwrap();
    assert_eq!(md.codecs, "GZIP(1), SNAPPY(3)");
    assert_eq!(md.encodings, "PLAIN, RLE, RLE_DICTIONARY");
    assert_eq!((md.raw_size, md.compressed_size), (350, 100));
    assert_eq!(md.compression_ratio_text(), "3.50x");
    assert_eq!(md.num_rows, 7);
    assert_eq!(md.avg_row_size, 50);
}

#[test]
fn figures_that_do_not_fit_are_refused() {
    let footer = FileFooter {
        version: 1,
        created_by: None,
        fields: vec![leaf("a", PhysicalType::INT32)],
        row_groups: vec![
            RowGroupMeta { num_rows: 1, columns: vec![chunk("SNAPPY", &[], 1, u64::MAX)] },
            RowGroupMeta { num_rows: 1, columns: vec![chunk("SNAPPY", &[], 1, 1)] },
        ],
    };
    assert!(FileMetadata::from_metadata(&footer).is_none());
    let negative = FileFooter {
        version: 1,
        created_by: None,
        fields: vec![],
        row_groups: vec![RowGroupMeta { num_rows: -1, columns: vec![] }],
    };
    assert!(FileMetadata::from_metadata(&negative).is_none());
}

#[test]
fn rows_of_the_table() {
    let footer = FileFooter {
        version: 1,
        created_by: None,
        fields: vec![
            leaf("a", PhysicalType::INT32),
            group("g", vec![leaf("b", PhysicalType::BYTE_ARRAY)]),
        ],
        row_groups: vec![RowGroupMeta {
            num_rows: 2,
            columns: vec![
                with_stats(
                    chunk("SNAPPY", &["PLAIN"], 1024, 2048),
                    Some(3),
                    None,
                    Some(&7i32.to_le_bytes()),
                    Some(&9i32.to_le_bytes()),
                ),
                chunk("GZIP", &["RLE"], 0, 0),
            ],
        }],
    };
    let schema = FileSchema::from_metadata(&footer).unwrap();
    let rows = schema.generate_table_rows(Some(2));
    assert_eq!(rows.len(), 3);
    assert_eq!(
        rows[0].cells,
        vec!["OPTIONAL", "INT32", "1.0 KB", "2.0 KB", "2.00x", "PLAIN", "SNAPPY", "7", "9", "3"]
    );
    assert!(!rows[0].selected && !rows[0].group);
    assert_eq!(rows[1].cells, vec!["REQUIRED", "group"]);
    assert!(rows[1].group && !rows[1].selected);
    assert_eq!(
        rows[2].cells,
        vec!["OPTIONAL", "BYTE_ARRAY", "0 B", "0 B", "N/A", "RLE", "GZIP", "NULL", "NULL", "0"]
    );
    assert!(rows[2].selected);
    assert!(schema.generate_table_rows(None).iter().all(|r| !r.selected));

    let (rows, widths) = schema.generate_table_rows_with_columns(1, 0, 5);
    assert_eq!(rows.len(), 3);
    assert_eq!(rows[0].cells, vec!["OPTIONAL", "INT32", "1.0 KB", "2.0 KB", "2.00x"]);
    assert_eq!(rows[1].cells, vec!["REQUIRED", "group", "", "", ""]);
    assert!(rows[0].selected && !rows[2].selected);
    assert_eq!(widths, vec![8, 10, 6, 6, 5]);

    let (rows, widths) = schema.generate_table_rows_with_scroll(2, 8, 10, 1, 5);
    assert_eq!(rows.len(), 2);
    assert_eq!(rows[0].cells, vec!["", ""]);
    assert_eq!(rows[1].cells, vec!["NULL", "0"]);
    assert!(rows[1].selected);
    assert_eq!(widths, vec![4, 1, 0, 0, 0, 0, 0, 0, 0, 0]);

    let (rows, widths) = schema.generate_table_rows_with_scroll(0, 0, 3, 0, 1);
    assert_eq!(rows.len(), 1);
    assert_eq!(rows[0].cells, vec!["OPTIONAL", "INT32", "1.0 KB"]);
    assert!(!rows[0].selected);
    assert_eq!(widths, vec![8, 5, 6]);
    let (rows, widths) = schema.generate_table_rows_with_scroll(0, 20, 3, 9, 4);
    assert!(rows.is_empty());
    assert_eq!(widths, vec![0, 0, 0]);
}
