use parqeye::decode::PhysicalType;
use parqeye::dictionary::{
    extract_dictionary_values, parse_byte_array_plain, parse_dictionary_page,
    parse_double_plain, parse_float_plain, parse_int32_plain, parse_int64_plain,
    parse_int96_plain, unknown_as_hex_preview, Page, PageEvent, PageKind,
};

fn byte_array_page(items: &[&[u8]]) -> Vec<u8> {
    let mut buffer = Vec::new();
    for item in items {
        buffer.extend_from_slice(&(item.len() as u32).to_le_bytes());
        buffer.extend_from_slice(item);
    }
    buffer
}

fn int32_page(items: &[i32]) -> Vec<u8> {
    let mut buffer = Vec::new();
    for item in items {
        buffer.extend_from_slice(&item.to_le_bytes());
    }
    buffer
}

fn dictionary(buffer: Vec<u8>, num_values: usize) -> PageEvent {
    PageEvent::Read(Page { kind: PageKind::DictionaryPage, buffer, num_values })
}

fn data(buffer: Vec<u8>, num_values: usize) -> PageEvent {
    PageEvent::Read(Page { kind: PageKind::DataPage, buffer, num_values })
}

#[test]
fn byte_arrays_are_read_record_by_record() {
    let buffer = byte_array_page(&[b"alpha", b"", b"gamma"]);
    assert_eq!(parse_byte_array_plain(&buffer, 3, 10), vec!["alpha", "", "gamma"]);
    assert_eq!(parse_byte_array_plain(&buffer, 2, 10), vec!["alpha", ""]);
    assert_eq!(parse_byte_array_plain(&buffer, 3, 1), vec!["alpha"]);
    assert_eq!(parse_byte_array_plain(&buffer, 3, 0), Vec::<String>::new());
    assert_eq!(parse_byte_array_plain(&buffer, 0, 5), Vec::<String>::new());
    assert_eq!(parse_byte_array_plain(&buffer, 100, 100), vec!["alpha", "", "gamma"]);
}

#[test]
fn a_record_past_the_end_stops_the_page() {
    let mut buffer = byte_array_page(&[b"one", b"two"]);
    buffer.extend_from_slice(&10u32.to_le_bytes());
    buffer.extend_from_slice(b"short");
    assert_eq!(parse_byte_array_plain(&buffer, 3, 10), vec!["one", "two"]);

    let mut cut = byte_array_page(&[b"one"]);
    cut.extend_from_slice(&[1, 0]);
    assert_eq!(parse_byte_array_plain(&cut, 2, 10), vec!["one"]);

    let huge = vec![0xFF, 0xFF, 0xFF, 0xFF, 1, 2, 3];
    assert_eq!(parse_byte_array_plain(&huge, 1, 10), Vec::<String>::new());
    assert_eq!(parse_byte_array_plain(&[], 1, 10), Vec::<String>::new());
}

#[test]
fn invalid_utf8_in_a_dictionary_is_hex() {
    let buffer = byte_array_page(&[&[0xFF, 0xFE, 0xFD], b"ok"]);
    assert_eq!(parse_byte_array_plain(&buffer, 2, 10), vec!["FFFEFD", "ok"]);
}

#[test]
fn fixed_width_pages_walk_in_strides() {
    let buffer = int32_page(&[1, -1, 42, i32::MIN]);
    assert_eq!(parse_int32_plain(&buffer, 4, 10), vec!["1", "-1", "42", "-2147483648"]);
    assert_eq!(parse_int32_plain(&buffer, 4, 2), vec!["1", "-1"]);
    assert_eq!(parse_int32_plain(&buffer, 3, 10), vec!["1", "-1", "42"]);
    assert_eq!(parse_int32_plain(&buffer[..15], 4, 10), vec!["1", "-1", "42"]);
    assert_eq!(parse_int32_plain(&buffer[..3], 4, 10), Vec::<String>::new());

    let mut wide = Vec::new();
    for item in [7i64, -7, i64::MAX] {
        wide.extend_from_slice(&item.to_le_bytes());
    }
    assert_eq!(parse_int64_plain(&wide, 3, 10), vec!["7", "-7", "9223372036854775807"]);
    assert_eq!(parse_int64_plain(&wide[..23], 3, 10), vec!["7", "-7"]);
}

#[test]
fn floating_point_pages() {
    let mut floats = Vec::new();
    for item in [1.5f32, -0.25, 3.14] {
        floats.extend_from_slice(&item.to_le_bytes());
    }
    assert_eq!(parse_float_plain(&floats, 3, 10), vec!["1.5000", "-0.2500", "3.1400"]);

    let mut doubles = Vec::new();
    for item in [1.5f64, -0.25, 3.14159265] {
        doubles.extend_from_slice(&item.to_le_bytes());
    }
    assert_eq!(parse_double_plain(&doubles, 3, 10), vec!["1.500000", "-0.250000", "3.141593"]);
    assert_eq!(parse_double_plain(&doubles, 3, 2), vec!["1.500000", "-0.250000"]);
}

#[test]
fn int96_pages() {
    let mut buffer = Vec::new();
    buffer.extend_from_slice(&0u64.to_le_bytes());
    buffer.extend_from_slice(&2440588u32.to_le_bytes());
    buffer.extend_from_slice(&1_000_000_000u64.to_le_bytes());
    buffer.extend_from_slice(&2440589u32.to_le_bytes());
    buffer.extend_from_slice(&[1, 2, 3]);
    assert_eq!(
        parse_int96_plain(&buffer, 5, 10),
        vec!["1970-01-01 00:00:00.000000000 UTC", "1970-01-02 00:00:01.000000000 UTC"]
    );
}

#[test]
fn other_types_give_a_preview() {
    assert_eq!(
        unknown_as_hex_preview(PhysicalType::BOOLEAN, &[0x01, 0xAB]),
        "Binary(BOOLEAN): 01 AB"
    );
    assert_eq!(
        unknown_as_hex_preview(PhysicalType::FIXED_LEN_BYTE_ARRAY, &[]),
        "Binary(FIXED_LEN_BYTE_ARRAY): "
    );
    let long: Vec<u8> = (0u8..40).collect();
    let preview = unknown_as_hex_preview(PhysicalType::BOOLEAN, &long);
    assert!(preview.starts_with("Binary(BOOLEAN): 00 01 02"));
    assert!(preview.ends_with("1E 1F"));
    assert_eq!(
        parse_dictionary_page(PhysicalType::BOOLEAN, &[0xFF], 8, 5),
        vec!["Binary(BOOLEAN): FF"]
    );
    assert_eq!(
        parse_dictionary_page(PhysicalType::BOOLEAN, &[0xFF], 8, 0),
        Vec::<String>::new()
    );
}

#[test]
fn pages_dispatch_on_the_physical_type() {
    let buffer = int32_page(&[5, 6]);
    assert_eq!(parse_dictionary_page(PhysicalType::INT32, &buffer, 2, 10), vec!["5", "6"]);
    assert_eq!(
        parse_dictionary_page(PhysicalType::FLOAT, &1.0f32.to_le_bytes(), 1, 10),
        vec!["1.0000"]
    );
    assert_eq!(
        parse_dictionary_page(PhysicalType::DOUBLE, &1.0f64.to_le_bytes(), 1, 10),
        vec!["1.000000"]
    );
    let text = byte_array_page(&[b"x"]);
    assert_eq!(parse_dictionary_page(PhysicalType::BYTE_ARRAY, &text, 1, 10), vec!["x"]);
    assert_eq!(
        parse_dictionary_page(PhysicalType::INT64, &9i64.to_le_bytes(), 1, 10),
        vec!["9"]
    );
}

#[test]
fn a_scan_collects_dictionary_pages_in_order() {
    let events = vec![
        dictionary(int32_page(&[1, 2]), 2),
        data(int32_page(&[100, 200, 300]), 3),
        dictionary(int32_page(&[3]), 1),
        data(int32_page(&[400]), 1),
        dictionary(int32_page(&[4, 5, 6]), 3),
    ];
    assert_eq!(
        extract_dictionary_values(&events, PhysicalType::INT32, 100),
        vec!["1", "2", "3", "4", "5", "6"]
    );
    assert_eq!(
        extract_dictionary_values(&events, PhysicalType::INT32, 6),
        vec!["1", "2", "3", "4", "5", "6"]
    );
    assert_eq!(
        extract_dictionary_values(&events, PhysicalType::INT32, 4),
        vec!["1", "2", "3", "4"]
    );
    assert_eq!(extract_dictionary_values(&events, PhysicalType::INT32, 2), vec!["1", "2"]);
    assert_eq!(
        extract_dictionary_values(&events, PhysicalType::INT32, 0),
        Vec::<String>::new()
    );
}

#[test]
fn a_scan_never_gives_more_than_asked() {
    let events = vec![
        dictionary(int32_page(&[1, 2, 3, 4, 5]), 5),
        dictionary(int32_page(&[6, 7, 8, 9, 10]), 5),
    ];
    for max_items in 0..15 {
        let values = extract_dictionary_values(&events, PhysicalType::INT32, max_items);
        assert_eq!(values.len(), max_items.min(10));
    }
}

#[test]
fn a_failure_ends_the_scan_and_keeps_what_was_read() {
    let events = vec![
        dictionary(int32_page(&[1, 2]), 2),
        PageEvent::Failed,
        dictionary(int32_page(&[3]), 1),
    ];
    assert_eq!(extract_dictionary_values(&events, PhysicalType::INT32, 10), vec!["1", "2"]);
    let failed_first = vec![PageEvent::Failed, dictionary(int32_page(&[3]), 1)];
    assert_eq!(
        extract_dictionary_values(&failed_first, PhysicalType::INT32, 10),
        Vec::<String>::new()
    );
    assert_eq!(
        extract_dictionary_values(&Vec::new(), PhysicalType::INT32, 10),
        Vec::<String>::new()
    );
}

#[test]
fn a_scan_of_a_type_without_layout_gives_one_preview_per_page() {
    let events = vec![dictionary(vec![1], 1), dictionary(vec![0], 1)];
    assert_eq!(
        extract_dictionary_values(&events, PhysicalType::BOOLEAN, 10),
        vec!["Binary(BOOLEAN): 01", "Binary(BOOLEAN): 00"]
    );
    assert_eq!(
        extract_dictionary_values(&events, PhysicalType::BOOLEAN, 1),
        vec!["Binary(BOOLEAN): 01"]
    );
}
