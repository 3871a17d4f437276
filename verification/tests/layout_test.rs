use parqeye::decode::PhysicalType;
use parqeye::dictionary::PageKind;
use parqeye::footer::{
    ColumnChunkMeta, FileFooter, NodeKind, Repetition, RowGroupMeta, SchemaNode,
};
use parqeye::layout::{
    calculate_column_widths, calculate_scroll_to_show_item, calculate_selected_tree_index,
    calculate_tree_width, calculate_tree_width_for_row_groups, clamp_scroll,
    max_visible_columns, truncate_cell, truncate_header,
};
use parqeye::metadata::FileMetadata;
use parqeye::panels::{
    column_metadata_pairs, column_statistics_pairs, file_metadata_pairs, page_rows,
    row_group_pairs,
};
use parqeye::row_groups::{
    HasStats, PageInfo, RowGroupColumnMetadata, RowGroupColumnStats, RowGroupPageInfo,
    RowGroupStats,
};
use parqeye::schema::{build_schema_tree_lines, ColumnType, FileSchema, SchemaColumnType};
use parqeye::table::visible_window;

fn leaf(name: &str) -> SchemaNode {
    SchemaNode {
        name: name.to_string(),
        repetition: Repetition::OPTIONAL,
        kind: NodeKind::Primitive {
            physical: PhysicalType::INT32,
            logical: None,
            converted_type: "NONE".to_string(),
        },
    }
}

fn nested() -> FileFooter {
    let chunk = || ColumnChunkMeta {
        compression: "SNAPPY".to_string(),
        encodings: vec!["PLAIN".to_string()],
        statistics: None,
        compressed_size: 10,
        uncompressed_size: 20,
    };
    FileFooter {
        version: 1,
        created_by: None,
        fields: vec![
            leaf("a"),
            SchemaNode {
                name: "g".to_string(),
                repetition: Repetition::REPEATED,
                kind: NodeKind::Group { fields: vec![leaf("b"), leaf("c")] },
            },
        ],
        row_groups: vec![RowGroupMeta { num_rows: 2, columns: vec![chunk(), chunk(), chunk()] }],
    }
}

fn strings(items: &[&str]) -> Vec<String> {
    items.iter().map(|s| s.to_string()).collect()
}

#[test]
fn the_selected_column_is_found_in_the_tree() {
    let schema = FileSchema::from_metadata(&nested()).unwrap();
    assert_eq!(calculate_selected_tree_index(&schema, 0), None);
    assert_eq!(calculate_selected_tree_index(&schema, 1), Some(1));
    assert_eq!(calculate_selected_tree_index(&schema, 2), Some(3));
    assert_eq!(calculate_selected_tree_index(&schema, 3), Some(4));
    assert_eq!(calculate_selected_tree_index(&schema, 4), None);
}

#[test]
fn the_tree_scrolls_to_the_selected_line() {
    assert_eq!(calculate_scroll_to_show_item(None, 7, 5), 7);
    assert_eq!(calculate_scroll_to_show_item(Some(3), 7, 5), 3);
    assert_eq!(calculate_scroll_to_show_item(Some(7), 7, 5), 7);
    assert_eq!(calculate_scroll_to_show_item(Some(11), 7, 5), 7);
    assert_eq!(calculate_scroll_to_show_item(Some(12), 7, 5), 8);
    assert_eq!(calculate_scroll_to_show_item(Some(2), 0, 5), 0);
    assert_eq!(calculate_scroll_to_show_item(Some(3), 7, 0), 3);
    assert_eq!(calculate_tree_width(24, true), 26);
    assert_eq!(calculate_tree_width(24, false), 25);
    assert_eq!(calculate_tree_width_for_row_groups(24, true), 26);
    assert_eq!(calculate_tree_width_for_row_groups(24, false), 24);
}

#[test]
fn sample_columns_are_cut_to_the_width() {
    assert_eq!(max_visible_columns(0), 1);
    assert_eq!(max_visible_columns(11), 1);
    assert_eq!(max_visible_columns(12), 1);
    assert_eq!(max_visible_columns(24), 2);
    assert_eq!(max_visible_columns(120), 10);
    assert_eq!(clamp_scroll(0, 20, 5), 0);
    assert_eq!(clamp_scroll(15, 20, 5), 15);
    assert_eq!(clamp_scroll(16, 20, 5), 15);
    assert_eq!(clamp_scroll(3, 4, 5), 0);
    let row = strings(&["a", "b", "c", "d"]);
    assert_eq!(visible_window(&row, 1, 2), strings(&["b", "c"]));
    assert_eq!(visible_window(&row, 2, 10), strings(&["c", "d"]));
    assert_eq!(visible_window(&row, 0, usize::MAX), row);
    assert_eq!(visible_window(&row, 4, 1), Vec::<String>::new());
    assert_eq!(visible_window(&row, 1, 0), Vec::<String>::new());
}

#[test]
fn column_widths_fit_the_widest_cell() {
    let headers = strings(&["id", "a_rather_long_header", "note"]);
    let rows = vec![
        strings(&["1", "x", "this cell is longer than twenty-five bytes"]),
        strings(&["123456789012", "y"]),
    ];
    assert_eq!(calculate_column_widths(&headers, &rows), vec![14, 22, 27]);
    assert_eq!(calculate_column_widths(&headers, &Vec::new()), vec![10, 22, 10]);
    assert_eq!(calculate_column_widths(&Vec::new(), &rows), Vec::<u16>::new());
}

#[test]
fn cells_and_headers_are_cut() {
    assert_eq!(truncate_cell("short", 10), "short");
    assert_eq!(truncate_cell("exactly10!", 10), "exactly10!");
    assert_eq!(truncate_cell("this is long", 5), "thisâ€¦");
    assert_eq!(truncate_cell("ab", 1), "â€¦");
    assert_eq!(truncate_cell("ab", 0), "â€¦");
    assert_eq!(truncate_cell("", 0), "");
    assert_eq!(truncate_header("header", 6), "header");
    assert_eq!(truncate_header("a_long_header", 8), "a_lon...");
    assert_eq!(truncate_header("abcd", 3), "...");
    assert_eq!(truncate_header("abcd", 1), "...");
}

#[test]
fn the_lines_of_the_tree_with_their_index() {
    let (lines, index) = build_schema_tree_lines(&nested()).unwrap();
    assert_eq!(lines.len(), 5);
    assert_eq!(index.len(), 4);
    assert!(matches!(&lines[0], SchemaColumnType::Root { name, display }
        if name == "root" && display == "└─ root"));
    assert!(matches!(&lines[1], SchemaColumnType::Primitive { name, display }
        if name == "a" && display == "   ├─ a"));
    assert!(matches!(&lines[2], SchemaColumnType::Group { name, display }
        if name == "g" && display == "   └─ g"));
    assert!(matches!(&lines[4], SchemaColumnType::Primitive { name, display }
        if name == "c" && display == "      └─ c"));
    assert!(matches!(&index[0], ColumnType::Primitive(info)
        if info.name == "a" && info.codec == "SNAPPY" && info.physical == "INT32"));
    assert!(matches!(&index[1], ColumnType::Group(repetition) if repetition == "REPEATED"));
    assert!(matches!(&index[3], ColumnType::Primitive(info) if info.name == "c"));
    let mut broken = nested();
    broken.row_groups[0].columns.pop();
    assert!(build_schema_tree_lines(&broken).is_err());
}

fn pairs(list: Vec<parqeye::panels::Pair>) -> Vec<(String, String)> {
    list.into_iter().map(|p| (p.key, p.value)).collect()
}

fn expect(items: &[(&str, &str)]) -> Vec<(String, String)> {
    items.iter().map(|(k, v)| (k.to_string(), v.to_string())).collect()
}

#[test]
fn what_the_panels_say() {
    let md = FileMetadata::from_metadata(&nested()).unwrap();
    assert_eq!(
        pairs(file_metadata_pairs(&md)),
        expect(&[
            ("Format version", "1"),
            ("Created by", "—"),
            ("Rows", "2"),
            ("Columns", "3"),
            ("Row groups", "1"),
            ("Size (raw)", "60 B"),
            ("Size (compressed)", "30 B"),
            ("Compression ratio", "2.00x"),
            ("Codecs (cols)", "SNAPPY(3)"),
            ("Encodings", "PLAIN"),
            ("Avg row size", "30 B"),
        ])
    );
    let column = RowGroupColumnMetadata {
        file_offset: 1234567,
        column_path: "g.b".to_string(),
        has_stats: HasStats {
            has_stats: true,
            has_dictionary_page: false,
            has_bloom_filter: false,
            has_page_encoding_stats: false,
        },
        statistics: Some(RowGroupColumnStats {
            min: Some("1".to_string()),
            max: None,
            null_count: Some(0),
            distinct_count: None,
        }),
        total_compressed_size: 2048,
        total_uncompressed_size: 3072,
        compression_type: "SNAPPY".to_string(),
        pages: RowGroupPageInfo {
            page_infos: vec![
                PageInfo::new(PageKind::DictionaryPage, 100, 7, "PLAIN"),
                PageInfo::new(PageKind::DataPage, 4096, 12345, "RLE_DICTIONARY"),
            ],
        },
    };
    assert_eq!(
        pairs(column_metadata_pairs(&column)),
        expect(&[
            ("File Offset (B)", "1,234,567"),
            ("Compressed Size", "2.00 KiB"),
            ("Uncompressed Size", "3.00 KiB"),
            ("Compression Ratio", "1.50x"),
            ("Compression Type", "SNAPPY"),
        ])
    );
    assert_eq!(
        pairs(column_statistics_pairs(column.statistics.as_ref().unwrap())),
        expect(&[("Min", "1"), ("Max", "N/A"), ("Null Count", "0"), ("Distinct Count", "N/A")])
    );
    assert_eq!(
        page_rows(&column.pages),
        vec![
            strings(&["1", "Dictionary Page", "100 B", "7", "Plain"]),
            strings(&["2", "Data Page", "4.00 KiB", "12,345", "RLE Dictionary"]),
        ]
    );
    let mut empty = column;
    empty.total_compressed_size = 0;
    assert_eq!(pairs(column_metadata_pairs(&empty))[3].1, "N/A");
    let group = RowGroupStats::from_columns(0, 1500, vec![empty]).unwrap();
    assert_eq!(
        pairs(row_group_pairs(&group)),
        expect(&[
            ("Rows", "1,500"),
            ("Compressed", "0 B"),
            ("Uncompressed", "3.00 KiB"),
            ("Ratio", "inf"),
        ])
    );
}
