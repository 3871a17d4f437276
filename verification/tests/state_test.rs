use parqeye::app::AppState;
use parqeye::components::{
    calculate_thumb_info, MetadataComponent, RowGroupMetadata, RowGroupProgressBar,
    TabsComponent,
};
use parqeye::config::{
    build_keymap, default_keybindings, parse_keycode, Action, AppConfig, KeyCode, RawBinding,
};
use parqeye::row_groups::{
    compression_ratio, encoding_label, page_type_label, HasStats, PageInfo,
    RowGroupColumnMetadata, RowGroupPageInfo, RowGroupStats, RowGroups,
};
use parqeye::dictionary::PageKind;
use parqeye::tab::TabId;
use parqeye::tabs::{
    can_handle_key_event, handle_key_event, MetadataTab, RowGroupsTab, SchemaTab, TabManager,
    TabType, VisualizeTab,
};
use parqeye::utils::{adjust_scroll_for_selection, adjust_scroll_for_viewport};

fn state() -> AppState {
    AppState::new(AppConfig::default())
}

fn row_group(idx: usize) -> RowGroupStats {
    RowGroupStats {
        idx,
        rows: 1,
        compressed_size: 1,
        uncompressed_size: 1,
        compression_ratio: "1.00".to_string(),
        column_metadata: vec![],
    }
}

#[test]
fn a_new_state_is_at_the_origin() {
    let s = state();
    assert_eq!(s.horizontal_offset(), 0);
    assert_eq!(s.vertical_offset(), 0);
    assert_eq!(s.tree_scroll_offset(), 0);
    assert_eq!(s.data_vertical_scroll(), 0);
    assert_eq!(s.visible_data_rows(), 20);
}

#[test]
fn steps_move_by_one_and_stop_at_zero() {
    let mut s = state();
    s.up();
    s.left();
    s.tree_scroll_up();
    assert_eq!((s.vertical_offset(), s.horizontal_offset(), s.tree_scroll_offset()), (0, 0, 0));
    s.down();
    s.down();
    s.right();
    s.tree_scroll_down();
    s.tree_scroll_down();
    s.tree_scroll_down();
    assert_eq!((s.vertical_offset(), s.horizontal_offset(), s.tree_scroll_offset()), (2, 1, 3));
    s.up();
    s.left();
    s.tree_scroll_up();
    assert_eq!((s.vertical_offset(), s.horizontal_offset(), s.tree_scroll_offset()), (1, 0, 2));
    s.set_data_vertical_scroll(7);
    s.set_visible_data_rows(9);
    assert_eq!((s.data_vertical_scroll(), s.visible_data_rows()), (7, 9));
    s.reset();
    assert_eq!((s.vertical_offset(), s.horizontal_offset(), s.tree_scroll_offset()), (0, 0, 0));
    assert_eq!((s.data_vertical_scroll(), s.visible_data_rows()), (0, 9));
}

#[test]
fn paging_keeps_the_selection_in_view() {
    let mut s = state();
    s.page_down(10, 100);
    assert_eq!((s.vertical_offset(), s.data_vertical_scroll()), (10, 1));
    s.page_down(10, 100);
    assert_eq!((s.vertical_offset(), s.data_vertical_scroll()), (20, 11));
    for _ in 0..20 {
        s.page_down(10, 100);
    }
    assert_eq!((s.vertical_offset(), s.data_vertical_scroll()), (99, 90));
    s.page_up(10, 100);
    assert_eq!((s.vertical_offset(), s.data_vertical_scroll()), (89, 89));
    for _ in 0..20 {
        s.page_up(10, 100);
    }
    assert_eq!((s.vertical_offset(), s.data_vertical_scroll()), (0, 0));
    s.page_down(10, 0);
    assert_eq!((s.vertical_offset(), s.data_vertical_scroll()), (0, 0));
    s.page_down(10, 5);
    assert_eq!((s.vertical_offset(), s.data_vertical_scroll()), (4, 0));
}

#[test]
fn the_viewport_follows_the_selection() {
    let mut s = state();
    s.set_data_vertical_scroll(50);
    for _ in 0..30 {
        s.down();
    }
    s.adjust_scroll_to_selection(10, 100);
    assert_eq!(s.data_vertical_scroll(), 30);
    for _ in 0..15 {
        s.down();
    }
    s.adjust_scroll_to_selection(10, 100);
    assert_eq!(s.data_vertical_scroll(), 36);
    s.adjust_scroll_to_selection(10, 40);
    assert_eq!(s.data_vertical_scroll(), 30);
    s.adjust_scroll_to_selection(100, 40);
    assert_eq!(s.data_vertical_scroll(), 0);
}

#[test]
fn tab_ids_go_round() {
    assert_eq!(TabId::default(), TabId::Schema);
    assert_eq!(TabId::Schema.index(), 0);
    assert_eq!(TabId::RowGroups.index(), 1);
    assert_eq!(TabId::Visualize.index(), 2);
    assert_eq!(TabId::Schema.next(), TabId::RowGroups);
    assert_eq!(TabId::RowGroups.next(), TabId::Visualize);
    assert_eq!(TabId::Visualize.next(), TabId::Schema);
    assert_eq!(TabId::Visualize.prev(), TabId::RowGroups);
    assert_eq!(TabId::RowGroups.prev(), TabId::Schema);
    assert_eq!(TabId::Schema.prev(), TabId::Schema);
    assert_eq!(TabId::from_index(7), TabId::RowGroups);
    assert_eq!(TabId::Schema.name(), "Schema");
    assert_eq!(TabId::RowGroups.name(), "Row Groups");
    assert_eq!(TabId::Visualize.name(), "Visualize");
    assert_eq!(TabId::Schema.all_tab_names(), vec!["Schema", "Row Groups", "Visualize"]);
}

#[test]
fn default_keys() {
    let map = default_keybindings();
    assert_eq!(map.get_action(KeyCode::Char('k')), Some(Action::Up));
    assert_eq!(map.get_action(KeyCode::Char('j')), Some(Action::Down));
    assert_eq!(map.get_action(KeyCode::Char('h')), Some(Action::Left));
    assert_eq!(map.get_action(KeyCode::Char('l')), Some(Action::Right));
    assert_eq!(map.get_action(KeyCode::Char('u')), Some(Action::PageUp));
    assert_eq!(map.get_action(KeyCode::Char('d')), Some(Action::PageDown));
    assert_eq!(map.get_action(KeyCode::Char('q')), Some(Action::Quit));
    assert_eq!(map.get_action(KeyCode::Esc), Some(Action::Reset));
    assert_eq!(map.get_action(KeyCode::Tab), Some(Action::NextTab));
    assert_eq!(map.get_action(KeyCode::BackTab), Some(Action::PrevTab));
    assert_eq!(map.get_action(KeyCode::Char('x')), None);
    assert_eq!(map.get_action(KeyCode::F(1)), None);
    assert_eq!(map.get_keycode(Action::Quit), Some(KeyCode::Char('q')));
    assert_eq!(map.get_keycode(Action::Reset), Some(KeyCode::Esc));
}

#[test]
fn binding_a_key_unbinds_what_was_there() {
    let map = default_keybindings().bind(KeyCode::Up, Action::Up);
    assert_eq!(map.get_action(KeyCode::Up), Some(Action::Up));
    assert_eq!(map.get_action(KeyCode::Char('k')), None);
    assert_eq!(map.get_keycode(Action::Up), Some(KeyCode::Up));
    let map = map.bind(KeyCode::Char('j'), Action::Quit);
    assert_eq!(map.get_action(KeyCode::Char('j')), Some(Action::Quit));
    assert_eq!(map.get_action(KeyCode::Char('q')), None);
    assert_eq!(map.get_keycode(Action::Down), None);
    assert_eq!(map.get_keycode(Action::Quit), Some(KeyCode::Char('j')));
}

#[test]
fn tabs_scroll_within_their_limits() {
    let tab = SchemaTab::new().with_max_horizontal_scroll(2).with_max_vertical_scroll(3);
    assert_eq!(tab.max_horizontal_scroll, Some(2));
    assert_eq!(tab.max_vertical_scroll, Some(3));
    let mut s = state();
    for _ in 0..10 {
        tab.on_event(KeyCode::Char('j'), &mut s);
        tab.on_event(KeyCode::Char('l'), &mut s);
    }
    assert_eq!((s.vertical_offset(), s.horizontal_offset()), (3, 2));
    tab.on_event(KeyCode::Char('k'), &mut s);
    tab.on_event(KeyCode::Char('h'), &mut s);
    tab.on_event(KeyCode::Char('z'), &mut s);
    tab.on_event(KeyCode::Char('q'), &mut s);
    assert_eq!((s.vertical_offset(), s.horizontal_offset()), (2, 1));
    for _ in 0..10 {
        tab.on_event(KeyCode::Char('k'), &mut s);
        tab.on_event(KeyCode::Char('h'), &mut s);
    }
    assert_eq!((s.vertical_offset(), s.horizontal_offset()), (0, 0));

    let rows = RowGroupsTab::new().with_max_horizontal_scroll(0).with_max_vertical_scroll(1);
    rows.on_event(KeyCode::Char('l'), &mut s);
    rows.on_event(KeyCode::Char('j'), &mut s);
    rows.on_event(KeyCode::Char('j'), &mut s);
    assert_eq!((s.vertical_offset(), s.horizontal_offset()), (1, 0));

    let meta = MetadataTab::new().with_max_horizontal_scroll(4).with_max_vertical_scroll(5);
    meta.on_event(KeyCode::Char('j'), &mut s);
    assert_eq!((s.vertical_offset(), s.horizontal_offset()), (1, 0));
    assert_eq!(meta.title(), "Metadata");
    assert_eq!(rows.title(), "Row Groups");
    assert_eq!(tab.title(), "Schema");
    assert!(SchemaTab::default().max_vertical_scroll.is_none());
    assert!(RowGroupsTab::default().max_horizontal_scroll.is_none());
    assert!(MetadataTab::default().max_horizontal_scroll.is_none());
}

#[test]
fn the_sample_rows_are_browsed_by_arrows_and_pages() {
    let tab = VisualizeTab::new().with_max_horizontal_scroll(3).with_max_rows(50);
    assert_eq!(tab.visible_rows, None);
    assert_eq!(VisualizeTab::new().with_visible_rows(4).visible_rows, Some(4));
    let mut s = state();
    s.set_visible_data_rows(10);
    tab.on_event(KeyCode::Up, &mut s);
    assert_eq!(s.vertical_offset(), 0);
    for _ in 0..12 {
        tab.on_event(KeyCode::Down, &mut s);
    }
    assert_eq!((s.vertical_offset(), s.data_vertical_scroll()), (12, 3));
    tab.on_event(KeyCode::Char('d'), &mut s);
    assert_eq!((s.vertical_offset(), s.data_vertical_scroll()), (22, 13));
    tab.on_event(KeyCode::Char('U'), &mut s);
    assert_eq!((s.vertical_offset(), s.data_vertical_scroll()), (12, 12));
    for _ in 0..100 {
        tab.on_event(KeyCode::Down, &mut s);
    }
    assert_eq!((s.vertical_offset(), s.data_vertical_scroll()), (49, 40));
    for _ in 0..5 {
        tab.on_event(KeyCode::Right, &mut s);
    }
    assert_eq!(s.horizontal_offset(), 2);
    tab.on_event(KeyCode::Left, &mut s);
    tab.on_event(KeyCode::Enter, &mut s);
    assert_eq!(s.horizontal_offset(), 1);
    assert_eq!(tab.title(), "Visualize");
}

#[test]
fn the_manager_cycles_through_the_tabs() {
    let mut tabs = TabManager::new(11, 3, 8);
    assert_eq!(tabs.tabs.len(), 4);
    assert_eq!(*tabs.active_tab(), TabType::Visualize);
    assert_eq!(tabs.title, "Tabs");
    assert_eq!(tabs.row_groups.max_horizontal_scroll, Some(2));
    assert_eq!(tabs.row_groups.max_vertical_scroll, Some(11));
    assert_eq!(tabs.schema.max_vertical_scroll, Some(11));
    assert_eq!(tabs.visualize.max_rows, Some(8));
    tabs.next();
    assert_eq!(*tabs.active_tab(), TabType::Metadata);
    tabs.next();
    tabs.next();
    assert_eq!(*tabs.active_tab(), TabType::RowGroups);
    tabs.next();
    assert_eq!(*tabs.active_tab(), TabType::Visualize);
    tabs.prev();
    assert_eq!(*tabs.active_tab(), TabType::RowGroups);
    tabs.prev();
    assert_eq!(*tabs.active_tab(), TabType::Schema);
    let tabs = tabs.with_selected_tab(1);
    assert_eq!(tabs.active_tab, 1);
    assert_eq!(TabType::RowGroups.title(), "Row Groups");
    assert_eq!(TabType::Visualize.title(), "Visualize");
    assert_eq!(TabType::Metadata.title(), "Metadata");
    assert_eq!(TabType::Schema.title(), "Schema");
}

#[test]
fn scroll_for_a_selected_line() {
    assert_eq!(adjust_scroll_for_viewport(None, 10), 0);
    assert_eq!(adjust_scroll_for_viewport(Some(1), 10), 0);
    assert_eq!(adjust_scroll_for_viewport(Some(9), 10), 0);
    assert_eq!(adjust_scroll_for_viewport(Some(10), 10), 1);
    assert_eq!(adjust_scroll_for_viewport(Some(25), 10), 16);
    assert_eq!(adjust_scroll_for_viewport(Some(5), 2), 4);
    assert_eq!(adjust_scroll_for_selection(Some(25), 10), 16);
    assert_eq!(adjust_scroll_for_selection(None, 0), 0);
}

#[test]
fn components_hold_what_they_are_given() {
    let groups = vec![row_group(0), row_group(1), row_group(2), row_group(3), row_group(4)];
    let bar = RowGroupProgressBar::new(&groups, 2);
    assert_eq!(bar.selected_idx, 2);
    assert_eq!(bar.row_group_stats.len(), 5);
    let panel = RowGroupMetadata::new(&groups, 1);
    assert_eq!(panel.selected_idx, 1);
    assert_eq!(panel.make_x_labels(), vec!["1", "2", "3", "5"]);
    assert_eq!(RowGroupMetadata::new(&groups[..0], 0).make_x_labels(), Vec::<String>::new());
    assert_eq!(RowGroupMetadata::new(&groups[..1], 0).make_x_labels(), vec!["1"]);
    assert_eq!(RowGroupMetadata::new(&groups[..3], 0).make_x_labels(), vec!["1", "2", "3"]);
    assert_eq!(RowGroupMetadata::new(&groups[..4], 0).make_x_labels(), vec!["1", "2", "3", "4"]);
    let all = RowGroups { row_groups: groups };
    assert_eq!(all.num_row_groups(), 5);
    let meta = MetadataComponent::new("data.parquet".to_string());
    assert_eq!(meta.title, "File Metadata");
    let meta = meta.with_title("Other".to_string());
    assert_eq!((meta.file_name.as_str(), meta.title.as_str()), ("data.parquet", "Other"));
    let tabs = TabsComponent::new(vec!["a", "b"]);
    assert_eq!(tabs.active_tab, TabId::RowGroups);
    assert_eq!(tabs.title, "Tabs");
    let tabs = tabs.with_selected_tab(TabId::Visualize).with_title("T".to_string());
    assert_eq!(tabs.active_tab, TabId::Visualize);
    assert_eq!(tabs.title, "T");
    assert_eq!(tabs.tabs, vec!["a", "b"]);
    assert_eq!(page_type_label(PageKind::DataPage), "Data Page");
    assert_eq!(page_type_label(PageKind::IndexPage), "Index Page");
    assert_eq!(page_type_label(PageKind::DictionaryPage), "Dictionary Page");
    assert_eq!(page_type_label(PageKind::DataPageV2), "Data Page V2");
}

#[test]
fn the_thumb_of_a_scrollbar() {
    assert_eq!(calculate_thumb_info(5, 10, 0, 20), (20, 0));
    assert_eq!(calculate_thumb_info(10, 10, 0, 20), (20, 0));
    assert_eq!(calculate_thumb_info(100, 10, 0, 20), (2, 0));
    assert_eq!(calculate_thumb_info(100, 10, 90, 20), (2, 18));
    assert_eq!(calculate_thumb_info(100, 10, 45, 20), (2, 9));
    assert_eq!(calculate_thumb_info(1000, 1, 500, 10), (1, 4));
}

#[test]
fn names_of_keys() {
    assert_eq!(parse_keycode("a"), Ok(KeyCode::Char('a')));
    assert_eq!(parse_keycode("F"), Ok(KeyCode::Char('F')));
    assert_eq!(parse_keycode(" "), Ok(KeyCode::Char(' ')));
    assert_eq!(parse_keycode("Backspace"), Ok(KeyCode::Backspace));
    assert_eq!(parse_keycode("Enter"), Ok(KeyCode::Enter));
    assert_eq!(parse_keycode("Left"), Ok(KeyCode::Left));
    assert_eq!(parse_keycode("Right"), Ok(KeyCode::Right));
    assert_eq!(parse_keycode("Up"), Ok(KeyCode::Up));
    assert_eq!(parse_keycode("Down"), Ok(KeyCode::Down));
    assert_eq!(parse_keycode("Home"), Ok(KeyCode::Home));
    assert_eq!(parse_keycode("End"), Ok(KeyCode::End));
    assert_eq!(parse_keycode("PageUp"), Ok(KeyCode::PageUp));
    assert_eq!(parse_keycode("PageDown"), Ok(KeyCode::PageDown));
    assert_eq!(parse_keycode("Tab"), Ok(KeyCode::Tab));
    assert_eq!(parse_keycode("BackTab"), Ok(KeyCode::BackTab));
    assert_eq!(parse_keycode("Delete"), Ok(KeyCode::Delete));
    assert_eq!(parse_keycode("Insert"), Ok(KeyCode::Insert));
    assert_eq!(parse_keycode("Esc"), Ok(KeyCode::Esc));
    assert_eq!(parse_keycode("Escape"), Ok(KeyCode::Esc));
    assert_eq!(parse_keycode("F1"), Ok(KeyCode::F(1)));
    assert_eq!(parse_keycode("F12"), Ok(KeyCode::F(12)));
    assert_eq!(parse_keycode("F255"), Ok(KeyCode::F(255)));
    assert_eq!(parse_keycode("F+7"), Ok(KeyCode::F(7)));
    assert_eq!(parse_keycode("F007"), Ok(KeyCode::F(7)));
    assert_eq!(parse_keycode("F0000000000000000000012"), Ok(KeyCode::F(12)));
    for name in ["F256", "F-1", "Fx", "F1x", "F+", "FF", "F 1", "F99999999999999999999"] {
        assert_eq!(parse_keycode(name), Err(format!("Bad function key: {}", name)));
        assert!(name[1..].parse::<u8>().is_err());
    }
    for name in ["", "enter", "é", "Ctrl", "ab", "Escaped"] {
        assert_eq!(parse_keycode(name), Err(format!("Unknown key '{}'", name)));
    }
    for n in 0u32..300 {
        let name = format!("F{}", n);
        if name.len() > 1 {
            assert_eq!(parse_keycode(&name).ok(), u8::try_from(n).ok().map(KeyCode::F));
        }
    }
}

#[test]
fn a_configuration_changes_the_defaults() {
    let raw = vec![
        RawBinding { key: "Up".to_string(), action: Action::Up },
        RawBinding { key: "nonsense".to_string(), action: Action::Down },
        RawBinding { key: "x".to_string(), action: Action::Quit },
        RawBinding { key: "F300".to_string(), action: Action::Reset },
        RawBinding { key: "j".to_string(), action: Action::Left },
    ];
    let (map, complaints) = build_keymap(&raw);
    assert_eq!(complaints, vec!["Unknown key 'nonsense'", "Bad function key: F300"]);
    assert_eq!(map.get_action(KeyCode::Up), Some(Action::Up));
    assert_eq!(map.get_action(KeyCode::Char('k')), None);
    assert_eq!(map.get_action(KeyCode::Char('x')), Some(Action::Quit));
    assert_eq!(map.get_action(KeyCode::Char('q')), None);
    assert_eq!(map.get_action(KeyCode::Char('j')), Some(Action::Left));
    assert_eq!(map.get_action(KeyCode::Char('h')), None);
    assert_eq!(map.get_keycode(Action::Down), None);
    assert_eq!(map.get_keycode(Action::Reset), Some(KeyCode::Esc));
    assert_eq!(map.get_keycode(Action::Right), Some(KeyCode::Char('l')));
    let (map, complaints) = build_keymap(&Vec::new());
    assert!(complaints.is_empty());
    assert_eq!(map.get_action(KeyCode::Char('q')), Some(Action::Quit));
}

fn column(compressed: i64, uncompressed: i64) -> RowGroupColumnMetadata {
    RowGroupColumnMetadata {
        file_offset: 4,
        column_path: "a.b".to_string(),
        has_stats: HasStats {
            has_stats: false,
            has_dictionary_page: true,
            has_bloom_filter: false,
            has_page_encoding_stats: false,
        },
        statistics: None,
        total_compressed_size: compressed,
        total_uncompressed_size: uncompressed,
        compression_type: "SNAPPY".to_string(),
        pages: RowGroupPageInfo { page_infos: vec![] },
    }
}

#[test]
fn a_row_group_sums_its_chunks() {
    let stats = RowGroupStats::from_columns(3, 8, vec![column(100, 150), column(50, 300)]).unwrap();
    assert_eq!((stats.idx, stats.rows), (3, 8));
    assert_eq!((stats.compressed_size, stats.uncompressed_size), (150, 450));
    assert_eq!(stats.compression_ratio, "3.00");
    assert_eq!(stats.column_metadata.len(), 2);
    let empty = RowGroupStats::from_columns(0, 0, vec![]).unwrap();
    assert_eq!(empty.compression_ratio, "NaN");
    assert!(RowGroupStats::from_columns(0, 0, vec![column(i64::MAX, 1), column(1, 1)]).is_none());
    assert_eq!(compression_ratio(3, 10), format!("{:.2}", 10.0f64 / 3.0));
    assert_eq!(compression_ratio(0, 10), "inf");
    assert_eq!(compression_ratio(-4, 10), "-2.50");
    assert_eq!(compression_ratio(7, 0), "0.00");
}

#[test]
fn pages_are_labelled() {
    let info = PageInfo::new(PageKind::DictionaryPage, 120, 8, "PLAIN_DICTIONARY");
    assert_eq!(info.page_type, "Dictionary Page");
    assert_eq!((info.size, info.rows), (120, 8));
    assert_eq!(info.encoding, "Plain Dictionary");
    assert_eq!(encoding_label("PLAIN"), "Plain");
    assert_eq!(encoding_label("RLE"), "RLE");
    assert_eq!(encoding_label("DELTA_BINARY_PACKED"), "Delta Binary Packed");
    assert_eq!(encoding_label("DELTA_LENGTH_BYTE_ARRAY"), "Delta Length Byte Array");
    assert_eq!(encoding_label("DELTA_BYTE_ARRAY"), "Delta Byte Array");
    assert_eq!(encoding_label("RLE_DICTIONARY"), "RLE Dictionary");
    assert_eq!(encoding_label("BYTE_STREAM_SPLIT"), "Byte Stream Split");
    assert_eq!(encoding_label("BIT_PACKED"), "BIT_PACKED");
}

#[test]
fn keys_are_answered_by_the_application_or_the_active_tab() {
    let mut tabs = TabManager::new(4, 2, 30);
    let mut s = state();
    s.set_visible_data_rows(10);
    assert!(can_handle_key_event(&tabs, &s, KeyCode::Char('j')));
    assert!(!handle_key_event(&mut tabs, &mut s, KeyCode::Char('x')));
    assert_eq!((tabs.active_tab, s.vertical_offset()), (0, 0));
    // In the tab of sample rows the bound keys are no arrows and do nothing.
    assert!(!handle_key_event(&mut tabs, &mut s, KeyCode::Char('j')));
    assert_eq!(s.vertical_offset(), 0);
    assert!(!handle_key_event(&mut tabs, &mut s, KeyCode::Char('d')));
    assert_eq!((s.vertical_offset(), s.data_vertical_scroll()), (10, 1));
    assert!(!handle_key_event(&mut tabs, &mut s, KeyCode::Tab));
    assert_eq!((tabs.active_tab, s.vertical_offset(), s.data_vertical_scroll()), (1, 0, 0));
    assert!(!handle_key_event(&mut tabs, &mut s, KeyCode::Char('j')));
    assert_eq!(s.vertical_offset(), 0);
    assert!(!handle_key_event(&mut tabs, &mut s, KeyCode::Tab));
    assert_eq!(*tabs.active_tab(), TabType::Schema);
    for _ in 0..9 {
        assert!(!handle_key_event(&mut tabs, &mut s, KeyCode::Char('j')));
    }
    assert_eq!(s.vertical_offset(), 4);
    assert!(!handle_key_event(&mut tabs, &mut s, KeyCode::Esc));
    assert_eq!(s.vertical_offset(), 0);
    assert!(!handle_key_event(&mut tabs, &mut s, KeyCode::Tab));
    assert_eq!(*tabs.active_tab(), TabType::RowGroups);
    for _ in 0..9 {
        assert!(!handle_key_event(&mut tabs, &mut s, KeyCode::Char('l')));
    }
    assert_eq!(s.horizontal_offset(), 1);
    assert!(!handle_key_event(&mut tabs, &mut s, KeyCode::BackTab));
    assert_eq!((*tabs.active_tab(), s.horizontal_offset()), (TabType::Schema, 0));
    assert!(handle_key_event(&mut tabs, &mut s, KeyCode::Char('q')));
}

#[test]
fn keys_that_cannot_be_answered_are_told_apart() {
    let tab = VisualizeTab::new().with_max_horizontal_scroll(0).with_max_rows(5);
    let mut s = state();
    assert!(!tab.accepts(KeyCode::Right, &s));
    assert!(tab.accepts(KeyCode::Left, &s));
    assert!(tab.accepts(KeyCode::Down, &s));
    s.set_visible_data_rows(0);
    assert!(tab.accepts(KeyCode::Up, &s));
    assert!(!tab.accepts(KeyCode::Down, &s));
    assert!(!tab.accepts(KeyCode::Char('u'), &s));
    assert!(!tab.accepts(KeyCode::Char('D'), &s));
    assert!(tab.accepts(KeyCode::Char('x'), &s));
    s.set_data_vertical_scroll(3);
    assert!(tab.accepts(KeyCode::Down, &s));
    assert!(tab.accepts(KeyCode::Char('u'), &s));
    assert!(tab.accepts(KeyCode::Char('d'), &s));
    tab.on_event(KeyCode::Down, &mut s);
    assert_eq!((s.vertical_offset(), s.data_vertical_scroll()), (1, 1));
    let tabs = TabManager::new(0, 1, 5).with_selected_tab(9);
    assert!(!can_handle_key_event(&tabs, &s, KeyCode::Char('j')));
    let tabs = TabManager::new(0, 1, 5);
    assert!(tabs.accepts(KeyCode::Char('l'), &s));
    assert!(!tabs.accepts(KeyCode::Right, &s));
}
