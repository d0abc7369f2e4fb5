use poterm::gettext::{PoEntry, PoFile};
use std::path::PathBuf;

#[test]
fn test_po_entry_new() {
    let entry = PoEntry::new();
    assert_eq!(entry.msgid, "");
    assert_eq!(entry.msgstr, "");
    assert_eq!(entry.msgctxt, None);
    assert!(entry.comments.is_empty());
    assert!(entry.extracted_comments.is_empty());
    assert!(entry.references.is_empty());
    assert!(entry.flags.is_empty());
    assert!(!entry.is_fuzzy);
    assert!(!entry.is_translated);
}

#[test]
fn test_po_entry_update_status() {
    let mut entry = PoEntry::new();

    // Test non-fuzzy, translated entry
    entry.msgstr = "Translation".to_string();
    entry.update_status();
    assert!(entry.is_translated);
    assert!(!entry.is_fuzzy);

    // Test fuzzy entry
    entry.flags.push("fuzzy".to_string());
    entry.update_status();
    assert!(!entry.is_translated);
    assert!(entry.is_fuzzy);

    // Test empty msgstr
    entry.flags.clear();
    entry.msgstr.clear();
    entry.update_status();
    assert!(!entry.is_translated);
    assert!(!entry.is_fuzzy);
}

#[test]
fn test_po_entry_set_msgstr() {
    let mut entry = PoEntry::new();
    entry.set_msgstr("Test translation".to_string());

    assert_eq!(entry.msgstr, "Test translation");
    assert!(entry.is_translated);
    assert!(!entry.is_fuzzy);
}

#[test]
fn test_po_entry_toggle_fuzzy() {
    let mut entry = PoEntry::new();

    // Toggle from non-fuzzy to fuzzy
    entry.toggle_fuzzy();
    assert!(entry.flags.contains(&"fuzzy".to_string()));
    assert!(entry.is_fuzzy);

    // Toggle back from fuzzy to non-fuzzy
    entry.toggle_fuzzy();
    assert!(!entry.flags.contains(&"fuzzy".to_string()));
    assert!(!entry.is_fuzzy);
}

#[test]
fn test_escape_unescape_string() {
    // Test escaping
    assert_eq!(PoFile::escape_string("test\\nstring"), "test\\\\nstring");
    assert_eq!(PoFile::escape_string("test\"quote"), "test\\\"quote");
    assert_eq!(PoFile::escape_string("test\nline"), "test\\nline");
    assert_eq!(PoFile::escape_string("test\ttab"), "test\\ttab");

    // Test unescaping through parse_string_literal
    assert_eq!(PoFile::parse_string_literal("\"test\\\\nstring\"").unwrap(), "test\\nstring");
    assert_eq!(PoFile::parse_string_literal("\"test\\\"quote\"").unwrap(), "test\"quote");
    assert_eq!(PoFile::parse_string_literal("\"test\\nline\"").unwrap(), "test\nline");
    assert_eq!(PoFile::parse_string_literal("\"test\\ttab\"").unwrap(), "test\ttab");
}

#[test]
fn test_po_file_new() {
    let path = PathBuf::from("test.po");
    let po_file = PoFile::new(path.clone());

    assert_eq!(po_file.path, Some(path));
    assert!(!po_file.modified);
    assert!(po_file.entries.is_empty()); // New file starts with empty entries
    assert!(!po_file.header.is_empty()); // Should have default headers
}

#[test]
fn test_po_file_stats() {
    let mut po_file = PoFile::default();

    // Add test entries
    let mut entry1 = PoEntry::new();
    entry1.msgid = "Test 1".to_string();
    entry1.set_msgstr("Translation 1".to_string());
    po_file.entries.push(entry1);

    let mut entry2 = PoEntry::new();
    entry2.msgid = "Test 2".to_string();
    entry2.flags.push("fuzzy".to_string());
    entry2.update_status();
    po_file.entries.push(entry2);

    let mut entry3 = PoEntry::new();
    entry3.msgid = "Test 3".to_string();
    po_file.entries.push(entry3);

    let (total, translated, fuzzy) = po_file.get_stats();
    let untranslated = total - translated - fuzzy;
    assert_eq!(total, 3);
    assert_eq!(translated, 1);
    assert_eq!(fuzzy, 1);
    assert_eq!(untranslated, 1);
}

const POT_CONTENT: &str = r#"# SOME DESCRIPTIVE TITLE.
# Copyright (C) YEAR THE PACKAGE'S COPYRIGHT HOLDER
#
msgid ""
msgstr ""
"Project-Id-Version: PACKAGE VERSION\n"
"Report-Msgid-Bugs-To: \n"
"POT-Creation-Date: 2023-01-01 12:00+0000\n"
"PO-Revision-Date: YEAR-MO-DA HO:MI+ZONE\n"
"Last-Translator: FULL NAME <EMAIL@ADDRESS>\n"
"Language-Team: LANGUAGE <LL@li.org>\n"
"Language: \n"
"MIME-Version: 1.0\n"
"Content-Type: text/plain; charset=UTF-8\n"
"Content-Transfer-Encoding: 8bit\n"

msgid "Hello World"
msgstr ""

msgid "Goodbye"
msgstr ""
"#;

#[test]
fn test_from_pot_template() {
    // Create PO from the text of a POT
    let po_path = PathBuf::from("/tmp/test.po");
    let po_file = PoFile::from_pot_template(POT_CONTENT, po_path.clone()).unwrap();

    // Check that msgstr fields are cleared
    assert_eq!(po_file.entries.len(), 2);
    for entry in &po_file.entries {
        if !entry.msgid.is_empty() {
            // Skip header entry
            assert!(entry.msgstr.is_empty());
            assert!(!entry.is_translated);
            assert!(!entry.is_fuzzy);
        }
    }

    // Check that PO-Revision-Date is updated
    assert!(po_file.header.get("PO-Revision-Date").unwrap() != "YEAR-MO-DA HO:MI+ZONE");
    assert!(po_file.modified);
    assert_eq!(po_file.path, Some(po_path));
}

#[test]
fn test_metadata_functions() {
    let mut po_file = PoFile::default();

    // Test setting header field
    po_file.set_header_field("Language".to_string(), "ru".to_string());
    assert_eq!(po_file.get_header().get("Language").unwrap(), "ru");
    assert!(po_file.is_modified());

    // Test updating revision date
    po_file.update_revision_date();
    let revision_date = po_file.get_header().get("PO-Revision-Date").unwrap();
    assert!(!revision_date.contains("YEAR-MO-DA"));
}
