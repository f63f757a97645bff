use egui_widgets::{
    set_search_hint_text, DisplayInfo, FieldMap, Level, ListEditContainer, ListEditorContainer,
    ListViewText, SelectEdit, SelectEditor, StringData, UiText,
};
use egui_widgets::level::{level_label, worst};

#[test]
fn select_edit_builder_chain() {
    let items = vec!["one".to_string(), "two".to_string()];
    let s = SelectEdit::new("tw".to_string(), items.clone());
    assert_eq!(s.text, "tw");
    assert_eq!(s.items, items);
    assert!(!s.filter);
    assert!(s.hint_text.is_none());

    let s = s.filter().hint_text(Some("pick".to_string()));
    assert!(s.filter);
    assert_eq!(s.hint_text.as_deref(), Some("pick"));
}

#[test]
fn select_edit_shows_filters_by_containment() {
    let items = vec!["alpha".to_string(), "beta".to_string()];
    let unfiltered = SelectEdit::new("al".to_string(), items.clone());
    assert!(unfiltered.shows("beta"), "without filtering everything is offered");

    let filtered = SelectEdit::new("al".to_string(), items.clone()).filter();
    assert!(filtered.shows("alpha"));
    assert!(!filtered.shows("beta"));

    let empty_text = SelectEdit::new(String::new(), items).filter();
    assert!(empty_text.shows("anything"));
}

#[test]
fn select_editor_builder_and_shows() {
    let items = vec!["left".to_string(), "right".to_string()];
    let s = SelectEditor::new("ri".to_string(), items.clone());
    assert_eq!(s.text, "ri");
    assert!(!s.filter);
    assert!(s.shows("left"));

    let s = s.filter();
    assert!(s.filter);
    assert!(s.shows("right"));
    assert!(!s.shows("left"));
}

#[test]
fn string_data_drives_the_string_item() {
    let data = StringData {
        new_title: "New entry".to_string(),
        multiline: false,
        default: Some("template".to_string()),
    };
    assert_eq!(data.form_title(), "New entry");
    assert_eq!(data.new_item().as_deref(), Some("template"));

    let bare = StringData { new_title: String::new(), multiline: true, default: None };
    assert!(bare.new_item().is_none());

    let item = "haystack".to_string();
    assert_eq!(egui_widgets::list::string_item_title(&item), "haystack");
    assert!(egui_widgets::list::string_item_on_search(&item, "ayst"));
    assert!(!egui_widgets::list::string_item_on_search(&item, "needle"));
}

#[test]
fn vec_is_a_list_edit_container() {
    let mut v: Vec<String> = vec!["a".to_string(), "b".to_string(), "c".to_string()];
    ListEditContainer::add(&mut v, "d".to_string());
    assert_eq!(v, vec!["a", "b", "c", "d"]);

    ListEditContainer::append(&mut v, vec!["e".to_string()]);
    assert_eq!(v, vec!["a", "b", "c", "d", "e"]);

    let keep = vec![true, false, true, false, true];
    ListEditContainer::retain_mut(&mut v, &keep);
    assert_eq!(v, vec!["a", "c", "e"]);
}

#[test]
fn vec_is_a_list_editor_container() {
    let mut v: Vec<u32> = vec![1, 2, 3];
    ListEditorContainer::add(&mut v, 4);
    ListEditorContainer::append(&mut v, vec![5, 6]);
    let keep = vec![false, true, false, true, false, true];
    ListEditorContainer::retain_mut(&mut v, &keep);
    assert_eq!(v, vec![2, 4, 6]);
}

#[test]
fn ui_text_defaults_to_english_buttons() {
    let t = UiText::default();
    assert_eq!(t.add, "Add");
    assert_eq!(t.reset, "Reset");
    assert_eq!(t.filter, "Filter");
    assert_eq!(t.delete, "Delete");
    assert_eq!(t.copy, "Copy");
}

#[test]
fn display_info_defaults_to_english_labels() {
    let d = DisplayInfo::default();
    assert_eq!(d.filter, "Filter");
    assert_eq!(d.level, "Level");
    assert_eq!(d.time, "Time");
    assert_eq!(d.span_data, "Span Data");
    assert_eq!(d.data, "Data");
    assert_eq!(d.message, "Message");
}

#[test]
fn search_hint_is_explicit_configuration() {
    let mut config = ListViewText::default();
    assert_eq!(config.search_hint, "search");
    set_search_hint_text(&mut config, "find a thing".to_string());
    assert_eq!(config.search_hint, "find a thing");
}

#[test]
fn field_map_keeps_insertion_order_and_uniqueness() {
    let mut m = FieldMap::new();
    m.insert("b".to_string(), "1".to_string());
    m.insert("a".to_string(), "2".to_string());
    m.insert("b".to_string(), "3".to_string());
    assert_eq!(m.len(), 2);
    let (k0, v0) = m.entry_at(0);
    assert_eq!((k0.as_str(), v0.as_str()), ("b", "3"));
    let (k1, v1) = m.entry_at(1);
    assert_eq!((k1.as_str(), v1.as_str()), ("a", "2"));

    let copy = m.duplicate();
    assert_eq!(copy, m);

    assert_eq!(m.remove("b").as_deref(), Some("3"));
    assert!(m.get("b").is_none());
    assert!(m.remove("b").is_none());
    assert_eq!(m.len(), 1);
}

#[test]
fn levels_order_by_severity() {
    assert!(Level::Trace.rank() < Level::Debug.rank());
    assert!(Level::Debug.rank() < Level::Info.rank());
    assert!(Level::Info.rank() < Level::Warn.rank());
    assert!(Level::Warn.rank() < Level::Error.rank());
    assert_eq!(worst(Level::Info, Level::Error), Level::Error);
    assert_eq!(worst(Level::Debug, Level::Trace), Level::Debug);
    assert_eq!(level_label(Level::Warn), "Warn");
    assert_eq!(level_label(Level::Trace), "Trace");
}
