use parqeye::decode::PhysicalType;
use parqeye::double::Double;
use parqeye::footer::{
    ColumnChunkMeta, FileFooter, NodeKind, Repetition, RowGroupMeta, SchemaNode,
};
use parqeye::metadata::FileMetadata;
use parqeye::schema::{FileSchema, SchemaInfo};

/// The footer of a file of all plain types: eight rows, eleven flat columns,
/// one row group, nothing compressed, no statistics.
fn alltypes_footer() -> FileFooter {
    let columns = [
        ("id", PhysicalType::INT32, 73),
        ("bool_col", PhysicalType::BOOLEAN, 24),
        ("tinyint_col", PhysicalType::INT32, 47),
        ("smallint_col", PhysicalType::INT32, 47),
        ("int_col", PhysicalType::INT32, 47),
        ("bigint_col", PhysicalType::INT64, 55),
        ("float_col", PhysicalType::FLOAT, 47),
        ("double_col", PhysicalType::DOUBLE, 55),
        ("date_string_col", PhysicalType::BYTE_ARRAY, 88),
        ("string_col", PhysicalType::BYTE_ARRAY, 49),
        ("timestamp_col", PhysicalType::INT96, 139),
    ];
    FileFooter {
        version: 1,
        created_by: Some(
            "impala version 1.3.0-INTERNAL (build 8a48ddb1eff84592b3fc06bc6f51ec120e1fffc9)"
                .to_string(),
        ),
        fields: columns
            .iter()
            .map(|(name, physical, _)| SchemaNode {
                name: name.to_string(),
                repetition: Repetition::OPTIONAL,
                kind: NodeKind::Primitive {
                    physical: *physical,
                    logical: None,
                    converted_type: "NONE".to_string(),
                },
            })
            .collect(),
        row_groups: vec![RowGroupMeta {
            num_rows: 8,
            columns: columns
                .iter()
                .map(|(_, _, size)| ColumnChunkMeta {
                    compression: "UNCOMPRESSED".to_string(),
                    encodings: vec![
                        "PLAIN_DICTIONARY".to_string(),
                        "RLE".to_string(),
                        "PLAIN".to_string(),
                    ],
                    statistics: None,
                    compressed_size: *size,
                    uncompressed_size: *size,
                })
                .collect(),
        }],
    }
}

fn load_alltypes_metadata() -> FileMetadata {
    FileMetadata::from_metadata(&alltypes_footer()).unwrap()
}

fn load_alltypes_schema() -> FileSchema {
    FileSchema::from_metadata(&alltypes_footer()).unwrap()
}

fn as_float(d: Double) -> f64 {
    match d {
        Double::Finite { negative, mantissa, exponent } => {
            let magnitude = mantissa as f64 * 2f64.powi(exponent);
            if negative {
                -magnitude
            } else {
                magnitude
            }
        }
        Double::Infinite { negative: true } => f64::NEG_INFINITY,
        Double::Infinite { negative: false } => f64::INFINITY,
        Double::NotANumber => f64::NAN,
    }
}

#[test]
fn test_file_metadata_basic() {
    let file_metadata = load_alltypes_metadata();

    // alltypes_plain.parquet has 8 rows and 11 columns
    assert_eq!(8, file_metadata.num_rows);
    assert_eq!(11, file_metadata.num_columns);

    // Should have 1 row group
    assert_eq!(1, file_metadata.num_row_groups);
}

#[test]
fn test_format_version() {
    let file_metadata = load_alltypes_metadata();

    // Format version should be a non-empty string
    assert!(!file_metadata.format_version.is_empty());

    // Should be a valid parquet version
    assert_eq!("1", file_metadata.format_version);
}

#[test]
fn test_created_by() {
    let file_metadata = load_alltypes_metadata();

    let expected_created_by =
        "impala version 1.3.0-INTERNAL (build 8a48ddb1eff84592b3fc06bc6f51ec120e1fffc9)";
    // Created by should be present (not the default "—")
    assert_eq!(expected_created_by, file_metadata.created_by);
}

#[test]
fn test_size_metrics() {
    let file_metadata = load_alltypes_metadata();

    // Both sizes should be positive
    assert_eq!(671, file_metadata.raw_size);
    assert_eq!(671, file_metadata.compressed_size);

    // Raw size should be == compressed size for this file
    assert_eq!(file_metadata.raw_size, file_metadata.compressed_size);
}

#[test]
fn test_compression_ratio() {
    let file_metadata = load_alltypes_metadata();

    // Compression ratio should be == 1.0 for this file
    assert_eq!(1.0, as_float(file_metadata.compression_ratio));
}

#[test]
fn test_codecs() {
    let file_metadata = load_alltypes_metadata();

    // Codecs string should not be empty
    assert!(!file_metadata.codecs.is_empty());

    // Should contain at least one codec name
    // Common codecs: UNCOMPRESSED, SNAPPY, GZIP, etc.
    assert_eq!("UNCOMPRESSED(11)", file_metadata.codecs);
}

#[test]
fn test_encodings() {
    let file_metadata = load_alltypes_metadata();

    // Encodings string should not be empty
    assert!(!file_metadata.encodings.is_empty());

    // Should contain at least one encoding type
    // Common encodings: PLAIN, RLE, DELTA_BINARY_PACKED, etc.
    assert!(
        file_metadata.encodings.contains("PLAIN")
            && file_metadata.encodings.contains("RLE")
            && file_metadata.encodings.contains("PLAIN_DICTIONARY")
    );
}

#[test]
fn test_avg_row_size() {
    let file_metadata = load_alltypes_metadata();

    // Average row size should be positive
    assert_eq!(83_u64, file_metadata.avg_row_size);
}

#[test]
fn test_from_metadata_error_handling() {
    // Test that from_metadata gives the figures of a valid file
    let result = FileMetadata::from_metadata(&alltypes_footer());
    assert!(result.is_some());
}

#[test]
fn test_file_alltypes_plain_basic() {
    let file_schema = load_alltypes_schema();

    // Test basic metrics
    assert_eq!(11, file_schema.column_size());
    assert_eq!(25, file_schema.tree_width());

    // Should have root + 11 primitive columns = 12 total
    assert!(file_schema.columns.len() >= 12);
}

#[test]
fn test_primitive_column_names() {
    let file_schema = load_alltypes_schema();
    let names = file_schema.primitive_column_names();

    // alltypes_plain.parquet has these columns
    assert_eq!(11, names.len());
    assert!(names.contains(&"id".to_string()));
    assert!(names.contains(&"bool_col".to_string()));
    assert!(names.contains(&"tinyint_col".to_string()));
    assert!(names.contains(&"smallint_col".to_string()));
    assert!(names.contains(&"int_col".to_string()));
    assert!(names.contains(&"bigint_col".to_string()));
    assert!(names.contains(&"float_col".to_string()));
    assert!(names.contains(&"double_col".to_string()));
    assert!(names.contains(&"date_string_col".to_string()));
    assert!(names.contains(&"string_col".to_string()));
    assert!(names.contains(&"timestamp_col".to_string()));
}

#[test]
fn test_column_group_name() {
    let file_schema = load_alltypes_schema();

    // First column after root should be 'id'
    assert_eq!("id", file_schema.column_group_name(1));

    // Get a few more column names
    let names = file_schema.primitive_column_names();
    assert!(!names.is_empty());
}

#[test]
fn test_column_stats() {
    let file_schema = load_alltypes_schema();

    // Find the 'id' column and check its stats
    for col in &file_schema.columns {
        if let SchemaInfo::Primitive { name, stats, .. } = col {
            if name == "id" {
                // alltypes_plain has 8 rows with id from 0 to 7
                assert_eq!(stats.min, None);
                assert_eq!(stats.max, None);
                assert_eq!(stats.nulls, 0);

                // Should have compression stats
                assert!(stats.total_compressed_size > 0);
                assert!(stats.total_uncompressed_size > 0);
            }
        }
    }
}

#[test]
fn test_column_schema_info() {
    let file_schema = load_alltypes_schema();

    // Check the schema info for specific columns
    for col in &file_schema.columns {
        if let SchemaInfo::Primitive { name, info, .. } = col {
            match name.as_str() {
                "id" => {
                    assert_eq!(info.physical, "INT32");
                    assert!(!info.repetition.is_empty());
                }
                "bool_col" => {
                    assert_eq!(info.physical, "BOOLEAN");
                }
                "float_col" => {
                    assert_eq!(info.physical, "FLOAT");
                }
                "double_col" => {
                    assert_eq!(info.physical, "DOUBLE");
                }
                "bigint_col" => {
                    assert_eq!(info.physical, "INT64");
                }
                "string_col" | "date_string_col" => {
                    assert_eq!(info.physical, "BYTE_ARRAY");
                }
                _ => {}
            }
        }
    }
}

#[test]
fn test_generate_table_rows() {
    let file_schema = load_alltypes_schema();

    // Generate rows with no selection
    let rows = file_schema.generate_table_rows(None);

    // Should have 11 primitive columns
    assert_eq!(11, rows.len());

    // Generate rows with selection
    let rows_selected = file_schema.generate_table_rows(Some(1));
    assert_eq!(11, rows_selected.len());
}

#[test]
fn test_generate_table_rows_with_columns() {
    let file_schema = load_alltypes_schema();

    // Test with different column ranges
    let (rows, widths) = file_schema.generate_table_rows_with_columns(1, 0, 5);

    // Should have rows for primitive columns
    assert!(!rows.is_empty());

    // Should have width info for 5 columns
    assert_eq!(5, widths.len());

    // All widths should be non-zero (content should exist)
    for width in &widths {
        assert!(*width > 0);
    }
}

#[test]
fn test_generate_table_rows_with_scroll() {
    let file_schema = load_alltypes_schema();

    // Test scrolling with start_row and limited rows
    let (rows, widths) = file_schema.generate_table_rows_with_scroll(
        1,  // selected_index
        0,  // start_col
        10, // num_cols
        0,  // start_row
        5,  // num_rows (limit to 5)
    );

    // Should have at most 5 rows
    assert!(rows.len() <= 5);

    // Should have width info for 10 columns
    assert_eq!(10, widths.len());
}

#[test]
fn test_schema_info_types() {
    let file_schema = load_alltypes_schema();

    // First item should be root
    assert!(matches!(&file_schema.columns[0], SchemaInfo::Root { .. }));

    // Count different types
    let mut root_count = 0;
    let mut primitive_count = 0;
    let mut group_count = 0;

    for col in &file_schema.columns {
        match col {
            SchemaInfo::Root { .. } => root_count += 1,
            SchemaInfo::Primitive { .. } => primitive_count += 1,
            SchemaInfo::Group { .. } => group_count += 1,
        }
    }

    assert_eq!(1, root_count);
    assert_eq!(11, primitive_count);
    // alltypes_plain doesn't have nested groups (flat schema)
    assert_eq!(0, group_count);
}

#[test]
fn test_column_display_strings() {
    let file_schema = load_alltypes_schema();

    // Check that display strings are properly formatted
    for col in &file_schema.columns {
        match col {
            SchemaInfo::Root { display, .. } => {
                assert!(display.contains("root"));
            }
            SchemaInfo::Primitive { name, display, .. } => {
                assert!(display.contains(name));
            }
            SchemaInfo::Group { name, display, .. } => {
                assert!(display.contains(name));
            }
        }
    }
}

#[test]
fn test_compression_ratio_calculation() {
    let file_schema = load_alltypes_schema();

    // Check that compression ratios are calculated correctly
    for col in &file_schema.columns {
        if let SchemaInfo::Primitive { stats, .. } = col {
            if stats.total_uncompressed_size > 0 && stats.total_compressed_size > 0 {
                let ratio =
                    stats.total_uncompressed_size as f64 / stats.total_compressed_size as f64;

                // Compression ratio should be reasonable (between 0.5x and 10x)
                assert!(ratio > 0.5 && ratio < 10.0);
            }
        }
    }
}
