use poterm::gettext::{PoEntry, PoFile};
use poterm::ui::{App, EditField, PAGE_SIZE};

#[test]
fn test_char_to_byte_index() {
    let text = "Hello мир world"; // Contains Cyrillic characters

    // Test ASCII characters
    assert_eq!(App::char_to_byte_index(text, 0), 0); // 'H'
    assert_eq!(App::char_to_byte_index(text, 5), 5); // Space after "Hello"

    // Test Unicode boundaries
    assert_eq!(App::char_to_byte_index(text, 6), 6); // 'м' starts at byte 6
    assert_eq!(App::char_to_byte_index(text, 7), 8); // 'и' starts at byte 8 (м is 2 bytes)
    assert_eq!(App::char_to_byte_index(text, 8), 10); // 'р' starts at byte 10 (и is 2 bytes)

    // Test beyond string length
    assert_eq!(App::char_to_byte_index(text, 100), text.len());
}

#[test]
fn test_remove_char_at() {
    let mut text = String::from("Hello мир world");

    // Remove ASCII character
    App::remove_char_at(&mut text, 0);
    assert_eq!(text, "ello мир world");

    // Remove Unicode character
    let mut text = String::from("Hello мир world");
    App::remove_char_at(&mut text, 6); // Remove 'м'
    assert_eq!(text, "Hello ир world");

    // Remove beyond string length (should do nothing)
    let mut text = String::from("test");
    let original_len = text.len();
    App::remove_char_at(&mut text, 100);
    assert_eq!(text.len(), original_len);
}

#[test]
fn test_toggle_metadata_mode() {
    let po_file = PoFile::default();
    let mut app = App::new(po_file);

    // Initially should not be in metadata mode
    assert!(!app.is_metadata_mode());
    assert_eq!(app.edit_field, EditField::Msgstr);

    // Toggle to metadata mode
    app.toggle_metadata_mode();
    assert!(app.is_metadata_mode());
    assert_eq!(app.edit_field, EditField::Metadata);

    // Toggle back
    app.toggle_metadata_mode();
    assert!(!app.is_metadata_mode());
    assert_eq!(app.edit_field, EditField::Msgstr);

    // Should not toggle when editing
    app.editing = true;
    app.toggle_metadata_mode();
    assert!(!app.is_metadata_mode()); // Should remain false
}

#[test]
fn test_insert_char_at() {
    let mut text = String::from("Hello world");

    // Insert ASCII character
    App::insert_char_at(&mut text, 5, ' ');
    assert_eq!(text, "Hello  world");

    // Insert Unicode character
    let mut text = String::from("Hello world");
    App::insert_char_at(&mut text, 5, 'ё');
    assert_eq!(text, "Helloё world");

    // Insert at beginning
    let mut text = String::from("test");
    App::insert_char_at(&mut text, 0, 'X');
    assert_eq!(text, "Xtest");

    // Insert at end
    let mut text = String::from("test");
    App::insert_char_at(&mut text, 4, '!');
    assert_eq!(text, "test!");
}

#[test]
fn test_page_navigation() {
    let mut po_file = PoFile::default();
    // Add test entries
    for i in 0..25 {
        let mut entry = PoEntry::new();
        entry.msgid = format!("test {}", i);
        po_file.entries.push(entry);
    }

    let mut app = App::new(po_file);

    // Test page down
    app.page_down();
    assert_eq!(app.current_entry, PAGE_SIZE);

    // Test page up
    app.page_up();
    assert_eq!(app.current_entry, 0);

    // Test page down at end
    app.current_entry = 20;
    app.page_down();
    assert_eq!(app.current_entry, 24); // Should go to last entry
}

#[test]
fn test_edit_field_cycling() {
    let po_file = PoFile::default();
    let mut app = App::new(po_file);

    assert_eq!(app.edit_field, EditField::Msgstr);

    app.next_field();
    assert_eq!(app.edit_field, EditField::Comments);

    app.next_field();
    assert_eq!(app.edit_field, EditField::Msgid);

    app.next_field();
    assert_eq!(app.edit_field, EditField::Msgstr);

    app.previous_field();
    assert_eq!(app.edit_field, EditField::Msgid);
}

#[test]
fn test_metadata_mode() {
    let po_file = PoFile::default();
    let mut app = App::new(po_file);

    assert!(!app.metadata_mode);

    app.toggle_metadata_mode();
    assert!(app.metadata_mode);
    assert_eq!(app.edit_field, EditField::Metadata);
}

#[test]
fn test_toggle_fuzzy_functionality() {
    let mut po_file = PoFile::default();

    // Add a translated entry
    let mut entry = PoEntry::new();
    entry.msgid = "Hello".to_string();
    entry.set_msgstr("Привет".to_string());
    po_file.entries.push(entry);

    // Add a fuzzy entry
    let mut fuzzy_entry = PoEntry::new();
    fuzzy_entry.msgid = "World".to_string();
    fuzzy_entry.msgstr = "Мир".to_string();
    fuzzy_entry.flags.push("fuzzy".to_string());
    fuzzy_entry.update_status();
    po_file.entries.push(fuzzy_entry);

    let mut app = App::new(po_file);

    // Test toggle fuzzy on translated entry (index 0)
    assert!(!app.po_file.entries[0].is_fuzzy);
    app.toggle_current_entry_fuzzy();
    assert!(app.po_file.entries[0].is_fuzzy);

    // Toggle back
    app.toggle_current_entry_fuzzy();
    assert!(!app.po_file.entries[0].is_fuzzy);

    // Move to fuzzy entry (index 1)
    app.next_entry();
    assert!(app.po_file.entries[1].is_fuzzy);

    // Toggle fuzzy off (mark as done)
    app.toggle_current_entry_fuzzy();
    assert!(!app.po_file.entries[1].is_fuzzy);
    assert!(app.po_file.entries[1].is_translated);
}

#[test]
fn test_mark_entry_done() {
    let mut po_file = PoFile::default();

    // Add a fuzzy entry
    let mut entry = PoEntry::new();
    entry.msgid = "Test".to_string();
    entry.msgstr = "Тест".to_string();
    entry.flags.push("fuzzy".to_string());
    entry.update_status();
    po_file.entries.push(entry);

    let mut app = App::new(po_file);

    assert!(app.po_file.entries[0].is_fuzzy);
    assert!(!app.po_file.entries[0].is_translated);

    // Mark as done
    app.mark_current_entry_done();

    assert!(!app.po_file.entries[0].is_fuzzy);
    assert!(app.po_file.entries[0].is_translated);
    assert!(!app.po_file.entries[0].flags.contains(&"fuzzy".to_string()));
}

#[test]
fn test_fuzzy_toggle_edge_cases() {
    let mut po_file = PoFile::default();

    // Add an untranslated entry (empty msgstr)
    let mut entry = PoEntry::new();
    entry.msgid = "Empty".to_string();
    entry.msgstr = "".to_string();
    po_file.entries.push(entry);

    let mut app = App::new(po_file);

    // Should not toggle fuzzy on empty translation
    assert!(!app.po_file.entries[0].is_fuzzy);
    app.toggle_current_entry_fuzzy();
    assert!(!app.po_file.entries[0].is_fuzzy);

    // Should not mark as done if no translation
    app.mark_current_entry_done();
    assert!(!app.po_file.entries[0].is_translated);
}
