use poterm::gettext::{PoEntry, PoFile};
use poterm::layout::{cell_for_width, cursor_cell, preview, Area};
use poterm::ui::{Action, App, EditField, FilterMode, KeyCode, KeyEvent, KeyModifiers, Mode};
use std::path::PathBuf;

fn entry(msgid: &str, msgstr: &str, flags: &[&str]) -> PoEntry {
    let mut e = PoEntry::new();
    e.msgid = msgid.to_string();
    e.msgstr = msgstr.to_string();
    e.flags = flags.iter().map(|f| f.to_string()).collect();
    e.update_status();
    e
}

fn catalog(entries: Vec<PoEntry>) -> PoFile {
    let mut file = PoFile::default();
    file.entries = entries;
    file
}

fn sample() -> App {
    App::new(catalog(vec![
        entry("A", "x", &[]),
        entry("B", "", &[]),
        entry("C", "y", &["fuzzy"]),
    ]))
}

fn key(code: KeyCode) -> KeyEvent {
    KeyEvent { code, modifiers: KeyModifiers::Unmodified }
}

fn ctrl(c: char) -> KeyEvent {
    KeyEvent { code: KeyCode::Char(c), modifiers: KeyModifiers::Control }
}

fn type_text(app: &mut App, text: &str) {
    for c in text.chars() {
        assert_eq!(app.handle_key_event(key(KeyCode::Char(c))), Action::Continue);
    }
}

const NOW: &str = "2024-05-06 07:08+0000";

#[test]
fn filter_and_search_work_together() {
    let mut app = sample();
    assert_eq!(app.filtered_indices, vec![0, 1, 2]);

    app.toggle_fuzzy_filter();
    app.start_search();
    type_text(&mut app, "y");
    assert_eq!(app.filter_mode, FilterMode::Fuzzy);
    assert_eq!(app.search_query, "y");
    assert_eq!(app.filtered_indices, vec![2]);

    let mut app = sample();
    app.toggle_untranslated_filter();
    assert_eq!(app.filter_mode, FilterMode::Untranslated);
    assert_eq!(app.filtered_indices, vec![1, 2]);

    let mut app = App::new(catalog(vec![
        entry("A", "x", &[]),
        entry("B", "", &[]),
        entry("C", "y", &[]),
    ]));
    app.toggle_untranslated_filter();
    assert_eq!(app.filtered_indices, vec![1]);
}

#[test]
fn a_filter_chosen_twice_shows_all() {
    let mut app = sample();
    app.toggle_fuzzy_filter();
    assert_eq!(app.filtered_indices, vec![2]);
    app.toggle_untranslated_filter();
    assert_eq!(app.filter_mode, FilterMode::Untranslated);
    app.toggle_untranslated_filter();
    assert_eq!(app.filter_mode, FilterMode::All);
    assert_eq!(app.filtered_indices, vec![0, 1, 2]);
    app.toggle_fuzzy_filter();
    app.toggle_fuzzy_filter();
    assert_eq!(app.filter_mode, FilterMode::All);
}

#[test]
fn search_ignores_case() {
    let mut app = App::new(catalog(vec![
        entry("Hello World", "", &[]),
        entry("other", "ПРИВЕТ", &[]),
        entry("third", "", &[]),
    ]));
    app.next_entry();
    app.next_entry();
    app.start_search();
    assert_eq!(app.mode(), Mode::SearchInput);
    type_text(&mut app, "WORLD");
    assert_eq!(app.filtered_indices, vec![0]);
    assert_eq!(app.current_entry, 0);
    for _ in 0..5 {
        app.handle_input(key(KeyCode::Backspace));
    }
    assert_eq!(app.search_query, "");
    assert_eq!(app.filtered_indices, vec![0, 1, 2]);
    type_text(&mut app, "привет");
    assert_eq!(app.filtered_indices, vec![1]);
    app.handle_input(key(KeyCode::Enter));
    assert_eq!(app.mode(), Mode::Browsing);
    assert_eq!(app.search_query, "привет");
    assert_eq!(app.filtered_indices, vec![1]);
}

#[test]
fn the_search_cursor_moves_in_characters() {
    let mut app = sample();
    app.start_search();
    type_text(&mut app, "жa");
    assert_eq!(app.search_cursor, 2);
    app.handle_input(key(KeyCode::Left));
    app.handle_input(key(KeyCode::Left));
    app.handle_input(key(KeyCode::Left));
    assert_eq!(app.search_cursor, 0);
    type_text(&mut app, "b");
    assert_eq!(app.search_query, "bжa");
    app.handle_input(key(KeyCode::Backspace));
    app.handle_input(key(KeyCode::Backspace));
    assert_eq!(app.search_query, "жa");
    app.handle_input(key(KeyCode::Right));
    app.handle_input(key(KeyCode::Right));
    app.handle_input(key(KeyCode::Right));
    assert_eq!(app.search_cursor, 2);
    app.stop_editing();
    assert!(!app.search_mode);
    app.start_search();
    assert_eq!(app.search_cursor, 2);
}

#[test]
fn finding_moves_without_resetting() {
    let mut app = App::new(catalog(vec![
        entry("apple", "", &[]),
        entry("banana", "", &[]),
        entry("apricot", "", &[]),
        entry("avocado", "", &[]),
    ]));
    app.find_next();
    assert_eq!(app.current_entry, 0);
    app.search_query = "a".to_string();
    app.find_next();
    assert_eq!(app.filtered_indices, vec![0, 1, 2, 3]);
    assert_eq!(app.current_entry, 1);
    app.search_query = "ap".to_string();
    app.find_next();
    assert_eq!(app.filtered_indices, vec![0, 2]);
    assert_eq!(app.current_entry, 1);
    app.find_previous();
    assert_eq!(app.current_entry, 0);
    app.find_previous();
    assert_eq!(app.current_entry, 0);
}

#[test]
fn inserting_and_removing_a_character_restores_the_text() {
    let original = "Hello мир world";
    let mut text = original.to_string();
    App::insert_char_at(&mut text, 6, '日');
    assert_eq!(text, "Hello 日мир world");
    App::remove_char_at(&mut text, 6);
    assert_eq!(text, original);
    for at in 0..=15 {
        let mut text = original.to_string();
        App::insert_char_at(&mut text, at, 'ё');
        assert_eq!(text.chars().count(), 16);
        assert_eq!(text.chars().nth(at), Some('ё'));
        App::remove_char_at(&mut text, at);
        assert_eq!(text, original);
        assert!(original.is_char_boundary(App::char_to_byte_index(original, at)));
    }
    let mut text = "ab".to_string();
    App::insert_char_at(&mut text, 9, 'c');
    assert_eq!(text, "abc");
}

#[test]
fn navigation_stays_in_the_view() {
    let mut app = sample();
    app.previous_entry();
    assert_eq!(app.current_entry, 0);
    app.next_entry();
    app.next_entry();
    app.next_entry();
    assert_eq!(app.current_entry, 2);
    assert_eq!(app.list_selection(), Some(2));
    assert_eq!(app.get_current_entry().unwrap().msgid, "C");
    app.go_to_first();
    assert_eq!(app.current_entry, 0);
    app.go_to_last();
    assert_eq!(app.current_entry, 2);
    app.page_up();
    assert_eq!(app.current_entry, 0);
    app.page_down();
    assert_eq!(app.current_entry, 2);
    app.toggle_fuzzy_filter();
    assert_eq!(app.current_entry, 0);
    assert_eq!(app.get_current_entry().unwrap().msgid, "C");
}

#[test]
fn nothing_moves_on_an_empty_view() {
    let mut app = App::new(PoFile::default());
    assert_eq!(app.list_selection(), None);
    assert!(app.get_current_entry().is_none());
    app.next_entry();
    app.previous_entry();
    app.page_down();
    app.page_up();
    app.go_to_last();
    app.go_to_first();
    assert_eq!(app.current_entry, 0);
    app.start_editing();
    assert!(!app.is_editing());
    app.toggle_current_entry_fuzzy();
    app.mark_current_entry_done();
    assert!(!app.is_modified());

    let mut app = sample();
    app.next_entry();
    app.next_entry();
    app.start_search();
    type_text(&mut app, "zzz");
    app.handle_input(key(KeyCode::Enter));
    assert!(app.filtered_indices.is_empty());
    app.current_entry = 2;
    app.previous_entry();
    app.page_up();
    app.go_to_first();
    assert_eq!(app.current_entry, 2);
}

#[test]
fn enter_keeps_an_edit_of_the_translation() {
    let mut app = sample();
    assert_eq!(app.handle_key_event(key(KeyCode::Enter)), Action::Continue);
    assert_eq!(app.mode(), Mode::EditingField(EditField::Msgstr));
    assert_eq!(app.edit_text, "x");
    assert_eq!(app.edit_cursor, 1);
    type_text(&mut app, "kji");
    assert_eq!(app.edit_text, "xkji");
    app.handle_key_event(key(KeyCode::Home));
    type_text(&mut app, "é");
    app.handle_key_event(key(KeyCode::Delete));
    app.handle_key_event(key(KeyCode::End));
    app.handle_key_event(key(KeyCode::Backspace));
    app.handle_key_event(key(KeyCode::Left));
    app.handle_key_event(key(KeyCode::Left));
    app.handle_key_event(key(KeyCode::Right));
    assert_eq!(app.edit_text, "ékj");
    assert_eq!(app.edit_cursor, 2);
    assert_eq!(app.current_entry, 0);
    assert!(!app.is_modified());
    app.handle_key_event(key(KeyCode::Enter));
    assert_eq!(app.mode(), Mode::Browsing);
    assert_eq!(app.po_file.entries[0].msgstr, "ékj");
    assert!(app.po_file.entries[0].is_translated);
    assert!(app.is_modified());
}

#[test]
fn emptying_a_translation_makes_the_entry_untranslated() {
    let mut app = sample();
    app.start_editing();
    app.handle_input(key(KeyCode::Backspace));
    app.handle_input(key(KeyCode::Backspace));
    app.handle_input(key(KeyCode::Delete));
    assert_eq!(app.edit_text, "");
    app.handle_input(key(KeyCode::Enter));
    assert_eq!(app.po_file.entries[0].msgstr, "");
    assert!(!app.po_file.entries[0].is_translated);
}

#[test]
fn esc_drops_an_edit() {
    let mut app = sample();
    app.handle_key_event(key(KeyCode::Char('i')));
    type_text(&mut app, "more");
    assert_eq!(app.handle_key_event(key(KeyCode::Esc)), Action::Continue);
    assert!(!app.is_editing());
    assert_eq!(app.edit_text, "");
    assert_eq!(app.po_file.entries[0].msgstr, "x");
    assert!(!app.is_modified());
}

#[test]
fn esc_closes_the_help_first() {
    let mut app = sample();
    app.start_editing();
    app.handle_key_event(key(KeyCode::F(1)));
    assert!(app.help_visible);
    app.handle_key_event(key(KeyCode::Esc));
    assert!(!app.help_visible);
    assert!(app.is_editing());
    assert_eq!(app.edit_text, "x");
}

#[test]
fn comments_are_edited_line_by_line() {
    let mut file = catalog(vec![entry("A", "x", &[])]);
    file.entries[0].comments = vec!["one".to_string(), "two".to_string()];
    let mut app = App::new(file);
    app.handle_key_event(key(KeyCode::Tab));
    assert_eq!(app.edit_field, EditField::Comments);
    app.handle_key_event(key(KeyCode::Enter));
    assert_eq!(app.edit_text, "one\ntwo");
    assert_eq!(app.edit_cursor, 7);
    app.handle_key_event(key(KeyCode::Enter));
    type_text(&mut app, "three");
    assert!(app.is_editing());
    assert_eq!(app.edit_text, "one\ntwo\nthree");
    app.handle_key_event(key(KeyCode::Esc));
    assert!(!app.is_editing());
    assert_eq!(app.po_file.entries[0].comments, vec!["one", "two", "three"]);
    assert!(app.is_modified());
}

#[test]
fn the_source_text_can_be_edited() {
    let mut app = sample();
    app.previous_field();
    assert_eq!(app.edit_field, EditField::Msgid);
    app.start_editing();
    type_text(&mut app, "!");
    app.handle_input(key(KeyCode::Enter));
    assert!(!app.is_editing());
    assert_eq!(app.po_file.entries[0].msgid, "A!");
    assert!(app.po_file.entries[0].is_translated);
    assert!(app.is_modified());
}

#[test]
fn stopping_an_edit_drops_what_was_typed() {
    let mut app = sample();
    app.start_editing();
    type_text(&mut app, "more");
    assert_eq!(app.edit_text, "xmore");
    app.stop_editing();
    assert!(!app.is_editing());
    assert_eq!(app.edit_text, "");
    assert_eq!(app.edit_cursor, 0);
    assert_eq!(app.po_file.entries[0].msgstr, "x");
    assert!(app.po_file.entries[0].flags.is_empty());
    assert!(app.po_file.entries[0].is_translated);
    assert!(!app.is_modified());

    app.previous_field();
    app.start_editing();
    type_text(&mut app, "!");
    app.stop_editing();
    assert_eq!(app.po_file.entries[0].msgid, "A");
    assert!(!app.is_modified());

    app.toggle_metadata_mode();
    app.start_editing_selected_metadata();
    type_text(&mut app, "demo");
    app.stop_editing();
    assert!(!app.is_editing());
    assert!(app.po_file.header.is_empty());
    assert!(!app.is_modified());
    app.stop_editing();
    assert!(!app.is_modified());
}

#[test]
fn stopping_an_edit_of_the_comments_keeps_it() {
    let mut app = sample();
    app.next_field();
    app.start_editing();
    type_text(&mut app, "note");
    app.handle_input(key(KeyCode::Enter));
    type_text(&mut app, "more");
    app.stop_editing();
    assert!(!app.is_editing());
    assert_eq!(app.po_file.entries[0].comments, vec!["note", "more"]);
    assert_eq!(app.po_file.entries[0].msgstr, "x");
    assert!(app.is_modified());
    assert!(app.po_file.header.is_empty());
}

#[test]
fn fields_do_not_cycle_during_an_edit() {
    let mut app = sample();
    app.start_editing();
    app.next_field();
    app.previous_field();
    assert_eq!(app.edit_field, EditField::Msgstr);
    app.cancel_editing();
    app.start_search();
    app.next_field();
    assert_eq!(app.edit_field, EditField::Msgstr);
    app.cancel_editing();
    app.toggle_metadata_mode();
    app.next_field();
    assert_eq!(app.edit_field, EditField::Metadata);
}

#[test]
fn saving_the_current_entry_keeps_the_edit() {
    let mut file = catalog(vec![entry("A", "x", &[])]);
    file.path = Some(PathBuf::from("a.po"));
    let mut app = App::new(file);
    let save = KeyEvent { code: KeyCode::Char('p'), modifiers: KeyModifiers::ControlShift };
    assert_eq!(app.handle_key_event(save), Action::Save);
    assert_eq!(app.po_file.entries[0].msgstr, "x");
    assert!(!app.is_modified());
    assert_eq!(app.pending_exit_save(), None);
    app.start_editing();
    type_text(&mut app, "y");
    assert_eq!(app.handle_key_event(save), Action::Save);
    assert_eq!(app.po_file.entries[0].msgstr, "xy");
    assert_eq!(app.pending_save().unwrap(), "msgid \"A\"\nmsgstr \"xy\"\n\n");
    assert_eq!(app.pending_exit_save().unwrap(), "msgid \"A\"\nmsgstr \"xy\"\n\n");
    app.mark_saved();
    assert!(!app.is_modified());
    assert_eq!(app.save_current_entry_at(NOW).unwrap(), "msgid \"A\"\nmsgstr \"xy\"\n\n");
}

#[test]
fn keys_map_to_commands() {
    let mut app = sample();
    assert_eq!(app.handle_key_event(ctrl('q')), Action::Quit);
    assert_eq!(app.handle_key_event(ctrl('s')), Action::Save);
    app.handle_key_event(key(KeyCode::Char('j')));
    app.handle_key_event(key(KeyCode::Down));
    assert_eq!(app.current_entry, 2);
    app.handle_key_event(key(KeyCode::Char('k')));
    app.handle_key_event(key(KeyCode::Up));
    assert_eq!(app.current_entry, 0);
    app.handle_key_event(key(KeyCode::End));
    assert_eq!(app.current_entry, 2);
    app.handle_key_event(key(KeyCode::Home));
    assert_eq!(app.current_entry, 0);
    app.handle_key_event(key(KeyCode::PageDown));
    assert_eq!(app.current_entry, 2);
    app.handle_key_event(key(KeyCode::PageUp));
    assert_eq!(app.current_entry, 0);
    app.handle_key_event(KeyEvent { code: KeyCode::BackTab, modifiers: KeyModifiers::Shift });
    assert_eq!(app.edit_field, EditField::Msgid);
    app.handle_key_event(key(KeyCode::Tab));
    assert_eq!(app.edit_field, EditField::Msgstr);
    app.handle_key_event(ctrl('u'));
    assert_eq!(app.filter_mode, FilterMode::Untranslated);
    app.handle_key_event(ctrl('z'));
    assert_eq!(app.filter_mode, FilterMode::Fuzzy);
    app.handle_key_event(ctrl('z'));
    app.handle_key_event(key(KeyCode::F(2)));
    assert!(app.po_file.entries[0].is_fuzzy);
    app.handle_key_event(ctrl('t'));
    assert!(!app.po_file.entries[0].is_fuzzy);
    app.handle_key_event(ctrl('t'));
    app.handle_key_event(ctrl('d'));
    assert!(!app.po_file.entries[0].is_fuzzy);
    app.handle_key_event(key(KeyCode::F(9)));
    assert!(app.is_metadata_mode());
    app.handle_key_event(key(KeyCode::F(9)));
    app.handle_key_event(ctrl('f'));
    assert_eq!(app.mode(), Mode::SearchInput);
    app.handle_key_event(key(KeyCode::Esc));
    assert_eq!(app.mode(), Mode::Browsing);
    app.search_query = "a".to_string();
    app.handle_key_event(key(KeyCode::F(3)));
    assert_eq!(app.filtered_indices, vec![0]);
    app.handle_key_event(KeyEvent { code: KeyCode::F(3), modifiers: KeyModifiers::Shift });
    assert_eq!(app.current_entry, 0);
    assert_eq!(app.handle_key_event(key(KeyCode::Other)), Action::Continue);
    assert_eq!(
        app.handle_key_event_at(
            KeyEvent { code: KeyCode::Char('x'), modifiers: KeyModifiers::Other },
            NOW
        ),
        Action::Continue
    );
    assert!(!app.is_editing());
}

#[test]
fn status_commands_need_a_translation() {
    let mut app = App::new(catalog(vec![entry("Empty", "", &["c-format"])]));
    app.toggle_current_entry_fuzzy();
    app.mark_current_entry_done();
    app.toggle_current_entry_fuzzy_at(NOW);
    app.mark_current_entry_done_at(NOW);
    assert_eq!(app.po_file.entries[0].flags, vec!["c-format"]);
    assert!(!app.po_file.entries[0].is_fuzzy);
    assert!(!app.po_file.entries[0].is_translated);
    assert!(!app.is_modified());
    assert!(app.po_file.header.is_empty());
}

#[test]
fn status_commands_wait_for_an_edit_to_end() {
    let mut app = sample();
    app.start_editing();
    app.toggle_current_entry_fuzzy();
    assert!(!app.po_file.entries[0].is_fuzzy);
    app.cancel_editing();
    app.start_search();
    app.toggle_current_entry_fuzzy();
    app.mark_current_entry_done();
    assert!(!app.po_file.entries[0].is_fuzzy);
    app.cancel_editing();
    app.toggle_current_entry_fuzzy_at(NOW);
    assert!(app.po_file.entries[0].is_fuzzy);
    assert!(!app.po_file.entries[0].is_translated);
    assert_eq!(app.po_file.header.get("PO-Revision-Date").unwrap(), NOW);
    assert!(app.is_modified());
    app.mark_current_entry_done_at("2025-01-01 00:00+0000");
    assert!(app.po_file.entries[0].is_translated);
    assert_eq!(app.po_file.header.get("PO-Revision-Date").unwrap(), "2025-01-01 00:00+0000");
}

#[test]
fn header_fields_are_edited_in_metadata_mode() {
    let mut app = App::new(PoFile::new(PathBuf::from("a.po")));
    assert_eq!(app.metadata_keys.len(), 11);
    app.start_editing_selected_metadata();
    app.start_metadata_editing("Language".to_string());
    assert!(!app.is_editing());
    app.toggle_metadata_mode();
    app.metadata_previous();
    assert_eq!(app.metadata_selected, 0);
    app.handle_key_event(key(KeyCode::Down));
    assert_eq!(app.metadata_selected, 1);
    assert_eq!(app.metadata_keys[1], "Language");
    app.handle_key_event(key(KeyCode::Enter));
    assert_eq!(app.mode(), Mode::EditingMetadata);
    assert_eq!(app.metadata_key, "Language");
    assert_eq!(app.edit_text, "");
    app.toggle_metadata_mode();
    assert!(app.is_metadata_mode());
    app.metadata_next();
    assert_eq!(app.metadata_selected, 1);
    type_text(&mut app, "ru");
    app.handle_key_event_at(key(KeyCode::Enter), NOW);
    assert!(!app.is_editing());
    assert_eq!(app.po_file.header.get("Language").unwrap(), "ru");
    assert_eq!(app.po_file.header.get("PO-Revision-Date").unwrap(), NOW);
    assert!(app.is_modified());
    for _ in 0..20 {
        app.metadata_next();
    }
    assert_eq!(app.metadata_selected, 10);
    app.handle_key_event(key(KeyCode::Up));
    assert_eq!(app.metadata_selected, 9);
    app.start_editing_selected_metadata();
    assert_eq!(app.edit_text, "8bit");
    assert_eq!(app.edit_cursor, 4);
    app.handle_key_event(key(KeyCode::Esc));
    assert_eq!(app.po_file.header.get("Content-Transfer-Encoding").unwrap(), "8bit");
}

#[test]
fn a_session_derives_the_status_anew() {
    let mut stale = PoEntry::new();
    stale.msgid = "a".to_string();
    stale.msgstr = "b".to_string();
    stale.flags.push("fuzzy".to_string());
    let app = App::new(catalog(vec![stale]));
    assert!(app.po_file.entries[0].is_fuzzy);
    assert!(!app.po_file.entries[0].is_translated);
    assert_eq!(app.edit_field, EditField::Msgstr);
    assert_eq!(app.filter_mode, FilterMode::All);
    assert_eq!(app.mode(), Mode::Browsing);
}

#[test]
fn the_cursor_cell_counts_columns() {
    let area = Area { x: 2, y: 3, width: 10, height: 2 };
    assert_eq!(cursor_cell("hello", 0, area), Some((2, 3)));
    assert_eq!(cursor_cell("hello", 3, area), Some((5, 3)));
    assert_eq!(cursor_cell("hello", 99, area), Some((7, 3)));
    assert_eq!(cursor_cell("日本語", 2, area), Some((6, 3)));
    assert_eq!(cursor_cell("мир", 2, area), Some((4, 3)));
    assert_eq!(cursor_cell("0123456789ab", 12, area), Some((4, 4)));
    assert_eq!(cursor_cell("0123456789012345678901", 22, area), None);
    assert_eq!(cell_for_width(5, Area { x: 0, y: 0, width: 0, height: 1 }), None);
    assert_eq!(cell_for_width(65536 + 3, area), Some((5, 3)));
    assert_eq!(cell_for_width(9, Area { x: 65530, y: 0, width: 10, height: 1 }), None);
    assert_eq!(cell_for_width(5, Area { x: 65530, y: 0, width: 10, height: 1 }), Some((65535, 0)));
}

#[test]
fn long_texts_are_cut_for_the_list() {
    assert_eq!(preview("short", 35, 32), "short");
    let long = "0123456789012345678901234567890123456789";
    assert_eq!(preview(long, 35, 32), "01234567890123456789012345678901...");
    let exact = "01234567890123456789012345678901234";
    assert_eq!(preview(exact, 35, 32), exact);
    assert_eq!(preview("жжжжжж", 5, 2), "жж...");
    assert_eq!(preview("abc", 1, 9), "abc...");
}

#[test]
fn saving_the_current_entry_gives_the_text_to_write() {
    let mut file = catalog(vec![entry("A", "x", &[])]);
    file.path = Some(PathBuf::from("a.po"));
    let mut app = App::new(file);
    assert!(app.is_well_formed());
    app.start_editing();
    type_text(&mut app, "z");
    assert_eq!(app.save_current_entry().unwrap(), "msgid \"A\"\nmsgstr \"xz\"\n\n");
    assert!(app.is_modified());
    assert!(app.is_well_formed());
    app.current_entry = 7;
    assert!(!app.is_well_formed());
    app.current_entry = 0;
    app.po_file.entries[0].is_fuzzy = true;
    assert!(!app.is_well_formed());
    app.po_file.entries[0].update_status();
    app.filtered_indices.push(5);
    assert!(!app.is_well_formed());
    app.update_filtered_indices();
    app.edit_cursor = 99;
    assert!(!app.is_well_formed());

    let mut unsaved = sample();
    assert_eq!(unsaved.save_current_entry(), None);
}
