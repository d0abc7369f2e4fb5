use poterm::gettext::{EntryStatus, PoEntry, PoFile};
use poterm::parser::{ParseError, ParseErrorKind};
use std::path::PathBuf;

fn strings(items: &[&str]) -> Vec<String> {
    items.iter().map(|s| s.to_string()).collect()
}

#[test]
fn parses_a_full_entry() {
    let text = "# translator note\n#. extracted note\n#: src/main.c:10 src/main.c:20\n#, fuzzy, c-format\nmsgctxt \"menu\"\nmsgid \"Open\"\nmsgstr \"Ouvrir\"\n";
    let (file, errors) = PoFile::parse(text);
    assert!(errors.is_empty());
    assert!(file.header.is_empty());
    assert_eq!(file.path, None);
    assert!(!file.modified);
    assert_eq!(file.entries.len(), 1);
    let entry = &file.entries[0];
    assert_eq!(entry.comments, strings(&["translator note"]));
    assert_eq!(entry.extracted_comments, strings(&["extracted note"]));
    assert_eq!(entry.references, strings(&["src/main.c:10 src/main.c:20"]));
    assert_eq!(entry.flags, strings(&["fuzzy", "c-format"]));
    assert_eq!(entry.msgctxt, Some("menu".to_string()));
    assert_eq!(entry.msgid, "Open");
    assert_eq!(entry.msgstr, "Ouvrir");
    assert!(entry.is_fuzzy);
    assert!(!entry.is_translated);
    assert_eq!(entry.status(), EntryStatus::Fuzzy);
}

#[test]
fn joins_continuation_lines() {
    let text = "msgid \"\"\n\"first \"\n\"second\"\nmsgstr \"un\\n\"\n\"deux\"\n";
    let (file, errors) = PoFile::parse(text);
    assert!(errors.is_empty());
    assert_eq!(file.entries.len(), 1);
    assert_eq!(file.entries[0].msgid, "first second");
    assert_eq!(file.entries[0].msgstr, "un\ndeux");
    assert_eq!(file.entries[0].status(), EntryStatus::Translated);
}

#[test]
fn reads_the_header_from_the_first_block() {
    let text = "msgid \"\"\nmsgstr \"\"\n\"Language: ru\\n\"\n\"Content-Type: text/plain; charset=UTF-8\\n\"\n\"no colon here\\n\"\n\nmsgid \"a\"\nmsgstr \"b\"\n";
    let (file, errors) = PoFile::parse(text);
    assert!(errors.is_empty());
    assert_eq!(file.header.len(), 2);
    assert_eq!(file.header.key_at(0), "Language");
    assert_eq!(file.header.value_at(0), "ru");
    assert_eq!(file.header.get("Content-Type").unwrap(), "text/plain; charset=UTF-8");
    assert!(file.header.contains_key("Language"));
    assert!(!file.header.contains_key("language"));
    assert_eq!(file.header.get("Missing"), None);
    assert_eq!(file.entries.len(), 1);
}

#[test]
fn only_the_first_empty_msgid_block_is_the_header() {
    let text = "msgid \"\"\nmsgstr \"Language: ru\\n\"\n\nmsgid \"\"\nmsgstr \"Language: de\\nExtra: x\\n\"\n\nmsgid \"a\"\nmsgstr \"b\"\n";
    let (file, errors) = PoFile::parse(text);
    assert!(errors.is_empty());
    assert_eq!(file.header.len(), 1);
    assert_eq!(file.header.get("Language").unwrap(), "ru");
    assert_eq!(file.header.get("Extra"), None);
    assert_eq!(file.entries.len(), 1);
    assert_eq!(file.entries[0].msgid, "a");
}

#[test]
fn a_header_after_an_entry_is_dropped() {
    let text = "msgid \"a\"\nmsgstr \"b\"\n\nmsgid \"\"\nmsgstr \"Language: ru\\n\"\n";
    let (file, errors) = PoFile::parse(text);
    assert!(errors.is_empty());
    assert!(file.header.is_empty());
    assert_eq!(file.entries.len(), 1);
}

#[test]
fn a_header_after_leading_blank_lines_is_read() {
    let text = "\n\n   \nmsgid \"\"\nmsgstr \"Language: ru\\n\"\n";
    let (file, errors) = PoFile::parse(text);
    assert!(errors.is_empty());
    assert_eq!(file.header.get("Language").unwrap(), "ru");
}

#[test]
fn a_header_field_set_twice_keeps_its_place() {
    let text = "msgid \"\"\nmsgstr \"A: 1\\nB: 2\\nA: 3\\n\"\n";
    let (file, _) = PoFile::parse(text);
    assert_eq!(file.header.len(), 2);
    assert_eq!(file.header.key_at(0), "A");
    assert_eq!(file.header.value_at(0), "3");
    assert_eq!(file.header.key_at(1), "B");
}

#[test]
fn unknown_escapes_are_kept() {
    assert_eq!(PoFile::parse_string_literal("\"a\\qb\"").unwrap(), "a\\qb");
    assert_eq!(PoFile::parse_string_literal("\"tail\\\\\"").unwrap(), "tail\\");
    assert_eq!(PoFile::parse_string_literal("\"cr\\rlf\"").unwrap(), "cr\rlf");
    assert_eq!(PoFile::parse_string_literal("\"\"").unwrap(), "");
}

#[test]
fn a_literal_needs_both_quotes() {
    assert_eq!(PoFile::parse_string_literal("plain"), None);
    assert_eq!(PoFile::parse_string_literal("\"open"), None);
    assert_eq!(PoFile::parse_string_literal("close\""), None);
    assert_eq!(PoFile::parse_string_literal("\""), None);
    assert_eq!(PoFile::parse_string_literal(""), None);
}

#[test]
fn escaping_and_decoding_are_inverse() {
    let samples = [
        "",
        "plain",
        "tab\there",
        "line\nbreak",
        "carriage\rreturn",
        "quote\"inside",
        "back\\slash",
        "\\n is not a line feed",
        "all \\ \" \n \t \r together",
        "Привет, мир",
    ];
    for sample in samples {
        let quoted = format!("\"{}\"", PoFile::escape_string(sample));
        assert_eq!(PoFile::parse_string_literal(&quoted).unwrap(), sample);
    }
    assert_eq!(PoFile::escape_string("a\rb"), "a\\rb");
    assert_eq!(PoFile::escape_string("\\\"\n"), "\\\\\\\"\\n");
}

#[test]
fn reports_a_line_that_fits_nowhere() {
    let (file, errors) = PoFile::parse("garbage\n\nmsgid \"a\"\nmsgstr \"b\"\n#~ msgid \"old\"\n");
    assert_eq!(
        errors,
        vec![
            ParseError { line: 1, kind: ParseErrorKind::UnexpectedLine },
            ParseError { line: 5, kind: ParseErrorKind::UnexpectedLine },
        ]
    );
    assert_eq!(file.entries.len(), 1);
    assert_eq!(file.entries[0].msgid, "a");
    assert_eq!(errors[0].message(), "Unexpected line");
}

#[test]
fn reports_keyword_lines_without_a_literal() {
    let (file, errors) = PoFile::parse("msgctxt ctx\nmsgid \"a\"\nmsgstr b\n");
    assert_eq!(
        errors,
        vec![
            ParseError { line: 1, kind: ParseErrorKind::Msgctxt },
            ParseError { line: 3, kind: ParseErrorKind::Msgstr },
        ]
    );
    assert_eq!(file.entries.len(), 1);
    assert_eq!(file.entries[0].msgctxt, Some(String::new()));
    assert_eq!(file.entries[0].msgstr, "");
    assert_eq!(errors[0].message(), "Failed to parse msgctxt");
    assert_eq!(errors[1].message(), "Failed to parse msgstr");

    let (file, errors) = PoFile::parse("msgid\"a\"\nmsgstr \"b\"\n");
    assert_eq!(errors, vec![ParseError { line: 1, kind: ParseErrorKind::Msgid }]);
    assert!(file.entries.is_empty());
    assert_eq!(errors[0].message(), "Failed to parse msgid");
}

#[test]
fn reports_continuation_lines_that_are_no_literals() {
    let text = "msgctxt \"c\"\n\"bad\nmsgid \"a\"\n\"worse\n\"more\"\nmsgstr \"b\"\n\"worst\n";
    let (file, errors) = PoFile::parse(text);
    assert_eq!(
        errors,
        vec![
            ParseError { line: 2, kind: ParseErrorKind::MsgctxtLiteral },
            ParseError { line: 4, kind: ParseErrorKind::MsgidLiteral },
            ParseError { line: 7, kind: ParseErrorKind::MsgstrLiteral },
        ]
    );
    assert_eq!(file.entries.len(), 1);
    assert_eq!(file.entries[0].msgctxt, Some("c".to_string()));
    assert_eq!(file.entries[0].msgid, "amore");
    assert_eq!(file.entries[0].msgstr, "b");
    assert_eq!(errors[0].message(), "Failed to parse msgctxt string literal");
    assert_eq!(errors[1].message(), "Failed to parse msgid string literal");
    assert_eq!(errors[2].message(), "Failed to parse msgstr string literal");
}

#[test]
fn the_value_ends_at_the_last_quote_of_the_line() {
    let (file, errors) = PoFile::parse("msgid   \"a \"quoted\" word\" trailing\nmsgstr\t\"b\"\n");
    assert!(errors.is_empty());
    assert_eq!(file.entries[0].msgid, "a \"quoted\" word");
    assert_eq!(file.entries[0].msgstr, "b");
}

#[test]
fn reads_windows_line_ends_and_indented_lines() {
    let (file, errors) = PoFile::parse("  # note  \r\n\tmsgid \"a\"\r\nmsgstr \"b\"\r\n\r\n");
    assert!(errors.is_empty());
    assert_eq!(file.entries.len(), 1);
    assert_eq!(file.entries[0].comments, strings(&["note"]));
    assert_eq!(file.entries[0].msgid, "a");
}

#[test]
fn reads_empty_comments_and_flags() {
    let (file, errors) = PoFile::parse("#\n#.\n#:\n#,\n#, a,, b ,\nmsgid \"a\"\nmsgstr \"\"\n");
    assert!(errors.is_empty());
    let entry = &file.entries[0];
    assert_eq!(entry.comments, strings(&[""]));
    assert_eq!(entry.extracted_comments, strings(&[""]));
    assert_eq!(entry.references, strings(&[""]));
    assert_eq!(entry.flags, strings(&["", "a", "", "b", ""]));
    assert_eq!(entry.status(), EntryStatus::Untranslated);
}

#[test]
fn an_empty_text_gives_an_empty_catalog() {
    let (file, errors) = PoFile::parse("");
    assert!(errors.is_empty());
    assert!(file.header.is_empty());
    assert!(file.entries.is_empty());
    assert_eq!(file.to_string(), "");
}

#[test]
fn writes_the_blocks_in_order() {
    let mut file = PoFile::default();
    file.set_header_field("Language".to_string(), "ru".to_string());
    let mut entry = PoEntry::new();
    entry.comments = strings(&["c"]);
    entry.extracted_comments = strings(&["x"]);
    entry.references = strings(&["r"]);
    entry.flags = strings(&["fuzzy", "c-format"]);
    entry.msgctxt = Some("ctx".to_string());
    entry.msgid = "a\nb".to_string();
    entry.set_msgstr("say \"x\"".to_string());
    file.entries.push(entry);
    let mut bare = PoEntry::new();
    bare.msgid = "second".to_string();
    file.entries.push(bare);
    let expected = "msgid \"\"\nmsgstr \"\"\n\"Language: ru\\n\"\n\n# c\n#. x\n#: r\n#, fuzzy, c-format\nmsgctxt \"ctx\"\nmsgid \"a\\nb\"\nmsgstr \"say \\\"x\\\"\"\n\nmsgid \"second\"\nmsgstr \"\"\n\n";
    assert_eq!(file.to_string(), expected);
}

#[test]
fn a_catalog_without_header_fields_has_no_header_block() {
    let mut file = PoFile::default();
    let mut entry = PoEntry::new();
    entry.msgid = "a".to_string();
    file.entries.push(entry);
    assert_eq!(file.to_string(), "msgid \"a\"\nmsgstr \"\"\n\n");
}

fn assert_same_catalog(a: &PoFile, b: &PoFile) {
    assert_eq!(a.header.len(), b.header.len());
    for i in 0..a.header.len() {
        assert_eq!(a.header.key_at(i), b.header.key_at(i));
        assert_eq!(a.header.value_at(i), b.header.value_at(i));
    }
    assert_eq!(a.entries, b.entries);
}

#[test]
fn reading_what_was_written_gives_the_catalog_back() {
    let text = "# SOME TITLE\nmsgid \"\"\nmsgstr \"\"\n\"Project-Id-Version: demo \\\"1.0\\\"\\n\"\n\"Language: ru\\n\"\n\"Odd\\\\Key: back\\\\slash\\tand tab\\n\"\n\"Empty: \\n\"\n\n#\n# two  words\n#. extracted\n#: a.c:1\n#: b.c:2\n#, fuzzy,, c-format,\nmsgctxt \"\"\nmsgid \"multi\\n\"\n\"line \\\\n \\q\"\nmsgstr \"тест \\\"кавычки\\\"\\r\\n\"\n\n#,\nmsgid \"second\"\nmsgstr \"\"\n";
    let (first, errors) = PoFile::parse(text);
    assert!(errors.is_empty());
    assert_eq!(first.header.len(), 4);
    assert_eq!(first.entries.len(), 2);
    assert_eq!(first.entries[0].flags, strings(&["fuzzy", "", "c-format", ""]));
    assert_eq!(first.entries[1].flags, strings(&[""]));
    let written = first.to_string();
    let (second, errors) = PoFile::parse(&written);
    assert!(errors.is_empty());
    assert_same_catalog(&first, &second);
    assert_eq!(second.to_string(), written);
}

#[test]
fn reading_a_new_catalog_that_was_written_gives_it_back() {
    let file = PoFile::new(PathBuf::from("new.po"));
    assert_eq!(file.header.len(), 11);
    assert_eq!(file.header.key_at(0), "Project-Id-Version");
    assert_eq!(file.header.value_at(0), "PACKAGE VERSION");
    assert_eq!(file.header.key_at(10), "Plural-Forms");
    assert_eq!(file.header.get("Language").unwrap(), "");
    let (again, errors) = PoFile::parse(&file.to_string());
    assert!(errors.is_empty());
    assert_same_catalog(&file, &again);
}

#[test]
fn from_file_keeps_the_path() {
    let path = PathBuf::from("some/dir/file.po");
    let (file, errors) = PoFile::from_file("msgid \"a\"\nmsgstr \"b\"\n", path.clone());
    assert!(errors.is_empty());
    assert_eq!(file.path, Some(path));
    assert!(!file.modified);
    assert_eq!(file.entries.len(), 1);
}

const TEMPLATE: &str = "msgid \"\"\nmsgstr \"\"\n\"POT-Creation-Date: 2023-01-01 12:00+0000\\n\"\n\"PO-Revision-Date: YEAR-MO-DA HO:MI+ZONE\\n\"\n\n#, fuzzy, c-format\nmsgid \"one\"\nmsgstr \"eins\"\n\nmsgid \"two\"\nmsgstr \"zwei\"\n\n#, fuzzy\nmsgid \"three\"\nmsgstr \"\"\n";

#[test]
fn a_template_loses_its_translations() {
    let path = PathBuf::from("out.po");
    let file = PoFile::from_pot_template_at(TEMPLATE, path.clone(), "2024-05-06 07:08+0000");
    assert_eq!(file.path, Some(path));
    assert!(file.modified);
    assert_eq!(file.entries.len(), 3);
    for entry in &file.entries {
        assert_eq!(entry.msgstr, "");
        assert!(!entry.is_fuzzy);
        assert!(!entry.is_translated);
        assert!(!entry.flags.contains(&"fuzzy".to_string()));
    }
    assert_eq!(file.entries[0].flags, strings(&["c-format"]));
    assert_eq!(file.entries[0].msgid, "one");
    assert_eq!(file.header.get("PO-Revision-Date").unwrap(), "2024-05-06 07:08+0000");
    assert_eq!(file.header.get("POT-Creation-Date").unwrap(), "2023-01-01 12:00+0000");
}

#[test]
fn a_template_without_a_creation_date_gets_one() {
    let stamp = "2024-05-06 07:08+0000";
    let missing = PoFile::from_pot_template_at("msgid \"a\"\nmsgstr \"\"\n", PathBuf::from("a.po"), stamp);
    assert_eq!(missing.header.get("POT-Creation-Date").unwrap(), stamp);
    assert_eq!(missing.header.get("PO-Revision-Date").unwrap(), stamp);
    assert_eq!(missing.header.key_at(0), "PO-Revision-Date");

    let placeholder = "msgid \"\"\nmsgstr \"POT-Creation-Date: YEAR-MO-DA HO:MI+ZONE\\n\"\n";
    let renewed = PoFile::from_pot_template_at(placeholder, PathBuf::from("a.po"), stamp);
    assert_eq!(renewed.header.get("POT-Creation-Date").unwrap(), stamp);
    assert_eq!(renewed.header.key_at(0), "POT-Creation-Date");
}

#[test]
fn the_revision_date_is_a_time_stamp() {
    let mut file = PoFile::default();
    file.update_revision_date();
    let date = file.header.get("PO-Revision-Date").unwrap().clone();
    assert_eq!(date.len(), 21);
    for (at, c) in date.chars().enumerate() {
        match at {
            4 | 7 => assert_eq!(c, '-'),
            10 => assert_eq!(c, ' '),
            13 => assert_eq!(c, ':'),
            16 => assert_eq!(c, '+'),
            _ => assert!(c.is_ascii_digit()),
        }
    }
    assert!(date.ends_with("+0000"));
    assert!(&date[0..4] >= "2024");
    assert!(&date[5..7] >= "01" && &date[5..7] <= "12");
    assert!(file.modified);

    file.update_revision_date_at("1999-12-31 23:59+0000");
    assert_eq!(file.header.get("PO-Revision-Date").unwrap(), "1999-12-31 23:59+0000");
    assert_eq!(file.header.len(), 1);
}

#[test]
fn saving_needs_a_path() {
    let mut file = PoFile::default();
    file.mark_modified();
    assert!(file.is_modified());
    assert_eq!(file.pending_save(), None);
    file.mark_saved_as(PathBuf::from("x.po"));
    assert!(!file.is_modified());
    assert_eq!(file.path, Some(PathBuf::from("x.po")));
    assert_eq!(file.pending_save(), Some(String::new()));
    file.get_header_mut().insert("Language".to_string(), "de".to_string());
    assert!(file.is_modified());
    assert_eq!(file.pending_save().unwrap(), "msgid \"\"\nmsgstr \"\"\n\"Language: de\\n\"\n\n");
    file.mark_saved();
    assert!(!file.is_modified());
}

#[test]
fn marking_done_clears_fuzzy_only() {
    let mut entry = PoEntry::new();
    entry.msgid = "a".to_string();
    entry.flags = strings(&["fuzzy", "c-format", "fuzzy"]);
    entry.set_msgstr("b".to_string());
    assert!(entry.is_fuzzy);
    entry.mark_done();
    assert_eq!(entry.flags, strings(&["c-format"]));
    assert!(!entry.is_fuzzy);
    assert!(entry.is_translated);
    entry.mark_done();
    assert_eq!(entry.flags, strings(&["c-format"]));
    entry.toggle_fuzzy();
    assert_eq!(entry.flags, strings(&["c-format", "fuzzy"]));
    assert!(!entry.is_translated);
}

#[test]
fn a_default_entry_is_a_new_entry() {
    assert_eq!(PoEntry::default(), PoEntry::new());
}
