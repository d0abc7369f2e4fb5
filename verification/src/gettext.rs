//! Catalogs of translatable entries: the entry, the catalog, and the
//! operations that change them.

use crate::clock::{date_placeholder, is_timestamp, lemma_timestamp_is_no_placeholder, utc_timestamp};
use crate::escape::{escape, escape_into, is_quoted, quoted_body, unescape};
use crate::header::Header;
use crate::model::{
    assign, fuzzy, lemma_assign, lemma_cleared, lemma_position_is, lemma_without, lookup,
    unique_keys, without, CatalogView, EntryView,
};
use crate::parser::{parse_text, read_lines, read_literal, ParseError};
use crate::roundtrip::{catalog_shape, entry_shape, lemma_parsed_has_shape};
use crate::serializer::{serialize, write_catalog};
use crate::text::{contains, contains_chars, split_trimmed_lines, texts, to_chars};
use std::path::PathBuf;
use vstd::prelude::*;

verus! {

/// `std::path::PathBuf`: a path is carried through and never read.
#[verifier::external_type_specification]
#[verifier::external_body]
pub struct ExPathBuf(PathBuf);

/// One translatable unit: source text, translation, context, comments and flags.
///
/// `is_fuzzy` and `is_translated` are derived from `flags` and `msgstr`; every
/// operation of this type leaves them up to date.
#[derive(Debug, Clone, PartialEq)]
pub struct PoEntry {
    pub msgid: String,
    pub msgstr: String,
    pub msgctxt: Option<String>,
    pub comments: Vec<String>,
    pub extracted_comments: Vec<String>,
    pub references: Vec<String>,
    pub flags: Vec<String>,
    pub is_fuzzy: bool,
    pub is_translated: bool,
}

impl View for PoEntry {
    type V = EntryView;

    open spec fn view(&self) -> EntryView {
        EntryView {
            msgid: self.msgid@,
            msgstr: self.msgstr@,
            msgctxt: match self.msgctxt {
                Some(s) => Some(s@),
                None => None,
            },
            comments: texts(self.comments@),
            extracted_comments: texts(self.extracted_comments@),
            references: texts(self.references@),
            flags: texts(self.flags@),
            is_fuzzy: self.is_fuzzy,
            is_translated: self.is_translated,
        }
    }
}

/// How far the translation of an entry has come.
#[derive(Debug, Clone, Copy, PartialEq, Eq, Structural)]
pub enum EntryStatus {
    /// The translation needs review.
    Fuzzy,
    /// There is a translation, and it needs no review.
    Translated,
    /// There is no translation.
    Untranslated,
}

/// Tells whether `flags` holds `fuzzy`.
pub fn has_fuzzy(flags: &Vec<String>) -> (r: bool)
    ensures
        r == texts(flags@).contains(fuzzy()),
{
    let mut i: usize = 0;
    while i < flags.len()
        invariant
            i <= flags.len(),
            forall|j: int| 0 <= j < i ==> texts(flags@)[j] != fuzzy(),
        decreases flags.len() - i,
    {
        if crate::header::str_eq(flags[i].as_str(), "fuzzy") {
            assert(texts(flags@)[i as int] == fuzzy());
            return true;
        }
        i += 1;
    }
    false
}

/// The flags of `flags` other than `fuzzy`, in their order.
pub fn drop_fuzzy(flags: &Vec<String>) -> (r: Vec<String>)
    ensures
        texts(r@) == without(texts(flags@), fuzzy()),
{
    let mut r: Vec<String> = Vec::new();
    let mut i: usize = 0;
    assert(texts(flags@).take(0) =~= Seq::<Seq<char>>::empty());
    assert(texts(r@) =~= Seq::<Seq<char>>::empty());
    while i < flags.len()
        invariant
            i <= flags.len(),
            texts(r@) == without(texts(flags@).take(i as int), fuzzy()),
        decreases flags.len() - i,
    {
        let ghost before = texts(r@);
        let ghost next = texts(flags@).take(i + 1);
        assert(next.drop_last() =~= texts(flags@).take(i as int));
        assert(next.last() == flags@[i as int]@);
        if !crate::header::str_eq(flags[i].as_str(), "fuzzy") {
            r.push(flags[i].clone());
            assert(texts(r@) =~= before.push(flags@[i as int]@));
        }
        i += 1;
    }
    assert(texts(flags@).take(flags.len() as int) =~= texts(flags@));
    r
}

impl PoEntry {
    /// An entry with no text, no comments and no flags.
    pub fn new() -> (e: PoEntry)
        ensures
            e@ == EntryView::empty(),
    {
        let e = PoEntry {
            msgid: String::new(),
            msgstr: String::new(),
            msgctxt: None,
            comments: Vec::new(),
            extracted_comments: Vec::new(),
            references: Vec::new(),
            flags: Vec::new(),
            is_fuzzy: false,
            is_translated: false,
        };
        assert(e@.comments =~= Seq::<Seq<char>>::empty());
        assert(e@.extracted_comments =~= Seq::<Seq<char>>::empty());
        assert(e@.references =~= Seq::<Seq<char>>::empty());
        assert(e@.flags =~= Seq::<Seq<char>>::empty());
        e
    }

    /// How far the translation has come, by the status fields: fuzzy comes
    /// before translated.
    pub fn status(&self) -> (r: EntryStatus)
        ensures
            r == (if self@.is_fuzzy {
                EntryStatus::Fuzzy
            } else if self@.is_translated {
                EntryStatus::Translated
            } else {
                EntryStatus::Untranslated
            }),
    {
        if self.is_fuzzy {
            EntryStatus::Fuzzy
        } else if self.is_translated {
            EntryStatus::Translated
        } else {
            EntryStatus::Untranslated
        }
    }

    /// Derives `is_fuzzy` and `is_translated` from the flags and the translation.
    pub fn update_status(&mut self)
        ensures
            final(self)@ == old(self)@.with_status(),
            final(self)@.status_ok(),
    {
        self.is_fuzzy = has_fuzzy(&self.flags);
        self.is_translated = !self.msgstr.as_str().is_empty() && !self.is_fuzzy;
    }

    /// Replaces the translation and derives the status anew.
    pub fn set_msgstr(&mut self, msgstr: String)
        ensures
            final(self)@ == old(self)@.set_msgstr(msgstr@),
            final(self)@.status_ok(),
    {
        self.msgstr = msgstr;
        self.update_status();
    }

    /// Takes `fuzzy` out of the flags where it is set, appends it where it is
    /// not, and derives the status anew.
    pub fn toggle_fuzzy(&mut self)
        ensures
            final(self)@ == old(self)@.toggle_fuzzy(),
            final(self)@.status_ok(),
            final(self)@.is_fuzzy == !old(self)@.flags.contains(fuzzy()),
    {
        if has_fuzzy(&self.flags) {
            self.flags = drop_fuzzy(&self.flags);
            proof {
                lemma_without(texts(old(self).flags@), fuzzy());
            }
        } else {
            self.flags.push(String::from_str("fuzzy"));
            assert(texts(self.flags@) =~= texts(old(self).flags@).push(fuzzy()));
            assert(texts(self.flags@)[self.flags@.len() - 1] == fuzzy());
        }
        self.update_status();
    }

    /// Takes `fuzzy` out of the flags and derives the status anew.
    pub fn mark_done(&mut self)
        ensures
            final(self)@ == old(self)@.mark_done(),
            final(self)@.status_ok(),
            !final(self)@.is_fuzzy,
    {
        self.flags = drop_fuzzy(&self.flags);
        proof {
            lemma_without(texts(old(self).flags@), fuzzy());
        }
        self.update_status();
    }
}

impl Default for PoEntry {
    fn default() -> (e: PoEntry)
        ensures
            e@ == EntryView::empty(),
    {
        PoEntry::new()
    }
}

/// The view of each entry of a list.
pub open spec fn entry_views(v: Seq<PoEntry>) -> Seq<EntryView> {
    Seq::new(v.len(), |i: int| v[i]@)
}

/// The fields that a new catalog starts with, in order.
pub open spec fn default_header() -> Seq<(Seq<char>, Seq<char>)> {
    seq![
        ("Project-Id-Version"@, "PACKAGE VERSION"@),
        ("Report-Msgid-Bugs-To"@, ""@),
        ("POT-Creation-Date"@, "YEAR-MO-DA HO:MI+ZONE"@),
        ("PO-Revision-Date"@, "YEAR-MO-DA HO:MI+ZONE"@),
        ("Last-Translator"@, "FULL NAME <EMAIL@ADDRESS>"@),
        ("Language-Team"@, "LANGUAGE <LL@li.org>"@),
        ("Language"@, ""@),
        ("MIME-Version"@, "1.0"@),
        ("Content-Type"@, "text/plain; charset=UTF-8"@),
        ("Content-Transfer-Encoding"@, "8bit"@),
        ("Plural-Forms"@, "nplurals=INTEGER; plural=EXPRESSION;"@),
    ]
}

/// Appends a field whose name the header does not hold yet.
fn add_default(header: &mut Header, key: &str, value: &str)
    requires
        forall|j: int| 0 <= j < old(header)@.len() ==> old(header)@[j].0 != key@,
    ensures
        final(header)@ == old(header)@.push((key@, value@)),
        unique_keys(old(header)@) ==> unique_keys(final(header)@),
{
    proof {
        lemma_position_is(header@, key@, header@.len() as int);
    }
    header.insert(String::from_str(key), String::from_str(value));
}

/// The entry has no translation and no `fuzzy` flag, and is neither fuzzy nor
/// translated.
pub open spec fn is_untranslated(e: EntryView) -> bool {
    &&& e.msgstr.len() == 0
    &&& !e.flags.contains(fuzzy())
    &&& !e.is_fuzzy
    &&& !e.is_translated
}

/// No entry has a translation or a `fuzzy` flag.
pub open spec fn all_untranslated(es: Seq<EntryView>) -> bool {
    forall|i: int| 0 <= i < es.len() ==> is_untranslated(#[trigger] es[i])
}

/// An entry of a template as the new catalog holds it: cleared, unless its
/// `msgid` is empty.
pub open spec fn template_entry(e: EntryView) -> EntryView {
    if e.msgid.len() > 0 {
        e.cleared()
    } else {
        e
    }
}

/// The entries of a template as the new catalog holds them.
pub open spec fn template_entries(es: Seq<EntryView>) -> Seq<EntryView> {
    Seq::new(es.len(), |i: int| template_entry(es[i]))
}

/// The header of a template as the new catalog holds it: revised at
/// `timestamp`, and created then too where the template has no creation date or
/// one that holds the placeholder `YEAR-MO-DA`.
pub open spec fn template_header(h: Seq<(Seq<char>, Seq<char>)>, timestamp: Seq<char>) -> Seq<
    (Seq<char>, Seq<char>),
> {
    let revised = assign(h, "PO-Revision-Date"@, timestamp);
    match lookup(revised, "POT-Creation-Date"@) {
        Some(date) => if contains(date, "YEAR-MO-DA"@) {
            assign(revised, "POT-Creation-Date"@, timestamp)
        } else {
            revised
        },
        None => assign(revised, "POT-Creation-Date"@, timestamp),
    }
}

/// How many of `entries` are translated.
pub open spec fn count_translated(entries: Seq<EntryView>) -> nat
    decreases entries.len(),
{
    if entries.len() == 0 {
        0
    } else {
        count_translated(entries.drop_last()) + if entries.last().is_translated {
            1nat
        } else {
            0nat
        }
    }
}

/// How many of `entries` are fuzzy.
pub open spec fn count_fuzzy(entries: Seq<EntryView>) -> nat
    decreases entries.len(),
{
    if entries.len() == 0 {
        0
    } else {
        count_fuzzy(entries.drop_last()) + if entries.last().is_fuzzy {
            1nat
        } else {
            0nat
        }
    }
}

/// A catalog: header fields, entries in source order, the path it is kept
/// under, and whether it has changes that were not saved.
#[derive(Debug, Clone)]
pub struct PoFile {
    pub path: Option<PathBuf>,
    pub header: Header,
    pub entries: Vec<PoEntry>,
    pub modified: bool,
}

impl View for PoFile {
    type V = CatalogView;

    open spec fn view(&self) -> CatalogView {
        CatalogView {
            header: self.header@,
            entries: entry_views(self.entries@),
            modified: self.modified,
        }
    }
}

impl PoFile {
    /// An empty catalog kept under `path`, with the conventional placeholder header.
    pub fn new(path: PathBuf) -> (f: PoFile)
        ensures
            f.path == Some(path),
            f@.header == default_header(),
            unique_keys(f@.header),
            f@.entries.len() == 0,
            !f@.modified,
    {
        let mut header = Header::new();
        proof {
            reveal_strlit("Project-Id-Version");
            reveal_strlit("Report-Msgid-Bugs-To");
            reveal_strlit("POT-Creation-Date");
            reveal_strlit("PO-Revision-Date");
            reveal_strlit("Last-Translator");
            reveal_strlit("Language-Team");
            reveal_strlit("Language");
            reveal_strlit("MIME-Version");
            reveal_strlit("Content-Type");
            reveal_strlit("Content-Transfer-Encoding");
            reveal_strlit("Plural-Forms");
            assert("Project-Id-Version"@.len() == 18);
            assert("Report-Msgid-Bugs-To"@.len() == 20);
            assert("POT-Creation-Date"@.len() == 17);
            assert("PO-Revision-Date"@.len() == 16);
            assert("Last-Translator"@.len() == 15);
            assert("Language-Team"@.len() == 13);
            assert("Language"@.len() == 8);
            assert("MIME-Version"@.len() == 12);
            assert("Content-Type"@.len() == 12);
            assert("Content-Transfer-Encoding"@.len() == 25);
            assert("Plural-Forms"@.len() == 12);
        }
        add_default(&mut header, "Project-Id-Version", "PACKAGE VERSION");
        add_default(&mut header, "Report-Msgid-Bugs-To", "");
        add_default(&mut header, "POT-Creation-Date", "YEAR-MO-DA HO:MI+ZONE");
        add_default(&mut header, "PO-Revision-Date", "YEAR-MO-DA HO:MI+ZONE");
        add_default(&mut header, "Last-Translator", "FULL NAME <EMAIL@ADDRESS>");
        add_default(&mut header, "Language-Team", "LANGUAGE <LL@li.org>");
        add_default(&mut header, "Language", "");
        add_default(&mut header, "MIME-Version", "1.0");
        assert("MIME-Version"@[0] != "Content-Type"@[0]);
        add_default(&mut header, "Content-Type", "text/plain; charset=UTF-8");
        add_default(&mut header, "Content-Transfer-Encoding", "8bit");
        assert("MIME-Version"@[0] != "Plural-Forms"@[0]);
        assert("Content-Type"@[0] != "Plural-Forms"@[0]);
        add_default(&mut header, "Plural-Forms", "nplurals=INTEGER; plural=EXPRESSION;");
        assert(header@ =~= default_header());
        let f = PoFile { path: Some(path), header, entries: Vec::new(), modified: false };
        f
    }

    /// Reads a catalog from its text. Reading never fails: what could not be
    /// read is reported line by line, and the catalog holds the rest.
    pub fn parse(content: &str) -> (r: (PoFile, Vec<ParseError>))
        ensures
            r.0.path is None,
            r.0@.header == parse_text(content@).header,
            r.0@.entries == parse_text(content@).entries,
            !r.0@.modified,
            r.1@ == parse_text(content@).errors,
            catalog_shape(r.0@.header, r.0@.entries),
    {
        let chars = to_chars(content);
        let lines = split_trimmed_lines(&chars);
        let (header, entries, errors) = read_lines(&lines);
        proof {
            lemma_parsed_has_shape(content@);
        }
        (PoFile { path: None, header, entries, modified: false }, errors)
    }

    /// The catalog read from `content`, the text of the file at `path`.
    pub fn from_file(content: &str, path: PathBuf) -> (r: (PoFile, Vec<ParseError>))
        ensures
            r.0.path == Some(path),
            r.0@.header == parse_text(content@).header,
            r.0@.entries == parse_text(content@).entries,
            !r.0@.modified,
            r.1@ == parse_text(content@).errors,
            catalog_shape(r.0@.header, r.0@.entries),
    {
        let (mut file, errors) = PoFile::parse(content);
        file.path = Some(path);
        (file, errors)
    }

    /// A new catalog at `po_path` from the text of a template, dated `timestamp`.
    ///
    /// Every entry loses its translation and its `fuzzy` flag. The revision
    /// date becomes `timestamp`; so does the creation date where the template
    /// has none or still holds the placeholder. The catalog counts as changed.
    pub fn from_pot_template_at(pot_content: &str, po_path: PathBuf, timestamp: &str) -> (f: PoFile)
        ensures
            f.path == Some(po_path),
            f@.header == template_header(parse_text(pot_content@).header, timestamp@),
            f@.entries == template_entries(parse_text(pot_content@).entries),
            f@.modified,
            unique_keys(f@.header),
            lookup(f@.header, "PO-Revision-Date"@) == Some(timestamp@),
            f@.entries.len() == parse_text(pot_content@).entries.len(),
            all_untranslated(f@.entries),
    {
        let (mut file, _errors) = PoFile::parse(pot_content);
        let ghost parsed = file@;
        file.path = Some(po_path);
        file.update_revision_date_at(timestamp);
        let renew = match file.header.get("POT-Creation-Date") {
            Some(date) => {
                let hay = to_chars(date.as_str());
                let needle = to_chars("YEAR-MO-DA");
                contains_chars(&hay, &needle)
            },
            None => true,
        };
        if renew {
            file.header.insert(String::from_str("POT-Creation-Date"), String::from_str(timestamp));
        }
        proof {
            lemma_assign(parsed.header, "PO-Revision-Date"@, timestamp@);
            let h1 = assign(parsed.header, "PO-Revision-Date"@, timestamp@);
            lemma_assign(h1, "POT-Creation-Date"@, timestamp@);
            reveal_strlit("PO-Revision-Date");
            reveal_strlit("POT-Creation-Date");
            assert("PO-Revision-Date"@.len() != "POT-Creation-Date"@.len());
        }
        let mut i: usize = 0;
        while i < file.entries.len()
            invariant
                i <= file.entries.len(),
                file.entries@.len() == parsed.entries.len(),
                forall|j: int|
                    0 <= j < i ==> (#[trigger] file.entries@[j])@ == template_entry(
                        parsed.entries[j],
                    ),
                forall|j: int|
                    i <= j < file.entries@.len() ==> (#[trigger] file.entries@[j])@
                        == parsed.entries[j],
                file.path == Some(po_path),
                file.header@ == template_header(parsed.header, timestamp@),
                unique_keys(file.header@),
            decreases file.entries.len() - i,
        {
            if !file.entries[i].msgid.as_str().is_empty() {
                let entry = &mut file.entries[i];
                entry.msgstr = String::new();
                entry.mark_done();
            }
            i += 1;
        }
        file.modified = true;
        proof {
            assert(file@.entries =~= template_entries(parsed.entries));
            assert forall|i: int| 0 <= i < file@.entries.len() implies is_untranslated(
                #[trigger] file@.entries[i],
            ) by {
                assert(entry_shape(parsed.entries[i]));
                lemma_cleared(parsed.entries[i]);
            }
        }
        file
    }

    /// A new catalog at `po_path` from the text of a template, dated now;
    /// `None` where the current time cannot be read.
    ///
    /// As `from_pot_template_at` with the current time, whatever that is; the
    /// revision date is then never the placeholder.
    pub fn from_pot_template(pot_content: &str, po_path: PathBuf) -> (r: Option<PoFile>)
        ensures
            r matches Some(f) ==> {
                &&& f.path == Some(po_path)
                &&& f@.modified
                &&& f@.entries == template_entries(parse_text(pot_content@).entries)
                &&& f@.entries.len() == parse_text(pot_content@).entries.len()
                &&& all_untranslated(f@.entries)
                &&& unique_keys(f@.header)
                &&& lookup(f@.header, "PO-Revision-Date"@) matches Some(date) && is_timestamp(date)
                    && date != date_placeholder() && f@.header == template_header(
                    parse_text(pot_content@).header,
                    date,
                )
            },
    {
        match utc_timestamp() {
            Some(stamp) => {
                proof {
                    lemma_timestamp_is_no_placeholder(stamp@);
                }
                Some(PoFile::from_pot_template_at(pot_content, po_path, stamp.as_str()))
            },
            None => None,
        }
    }

    /// The escaped form of `s`, as it stands inside a quoted literal.
    pub fn escape_string(s: &str) -> (r: String)
        ensures
            r@ == escape(s@),
    {
        let mut r = String::new();
        escape_into(&mut r, s);
        assert(Seq::<char>::empty() + escape(s@) =~= escape(s@));
        r
    }

    /// The value of the quoted literal `s`; `None` where `s` does not begin
    /// and end with a double quote.
    pub fn parse_string_literal(s: &str) -> (r: Option<String>)
        ensures
            match r {
                Some(v) => is_quoted(s@) && v@ == unescape(quoted_body(s@)),
                None => !is_quoted(s@),
            },
    {
        let chars = to_chars(s);
        read_literal(&chars)
    }

    /// The text of the catalog.
    pub fn to_string(&self) -> (r: String)
        ensures
            r@ == serialize(self@.header, self@.entries),
    {
        write_catalog(&self.header, &self.entries)
    }

    /// The text to write where the catalog is saved; `None` where it has no path.
    pub fn pending_save(&self) -> (r: Option<String>)
        ensures
            match r {
                Some(text) => self.path is Some && text@ == serialize(self@.header, self@.entries),
                None => self.path is None,
            },
    {
        if self.path.is_some() {
            Some(self.to_string())
        } else {
            None
        }
    }

    /// Records that the text of the catalog was written to its path.
    pub fn mark_saved(&mut self)
        ensures
            *final(self) == (PoFile { modified: false, ..*old(self) }),
    {
        self.modified = false;
    }

    /// Records that the text of the catalog was written to `path`, where the
    /// catalog is kept from now on.
    pub fn mark_saved_as(&mut self, path: PathBuf)
        ensures
            *final(self) == (PoFile { path: Some(path), modified: false, ..*old(self) }),
    {
        self.path = Some(path);
        self.modified = false;
    }

    /// Sets the revision date of the header to `timestamp` and marks the
    /// catalog as changed.
    pub fn update_revision_date_at(&mut self, timestamp: &str)
        ensures
            final(self)@ == old(self)@.dated(timestamp@),
            final(self).path == old(self).path,
            final(self).entries == old(self).entries,
            unique_keys(old(self)@.header) ==> unique_keys(final(self)@.header),
    {
        self.set_header_field(String::from_str("PO-Revision-Date"), String::from_str(timestamp));
    }

    /// Sets the revision date of the header to the current time and marks the
    /// catalog as changed. Where the current time cannot be read, nothing changes.
    pub fn update_revision_date(&mut self)
        ensures
            *final(self) == *old(self) || (lookup(final(self)@.header, "PO-Revision-Date"@) matches Some(
                date,
            ) && is_timestamp(date) && final(self)@ == old(self)@.dated(date)),
            final(self).path == old(self).path,
            final(self).entries == old(self).entries,
            unique_keys(old(self)@.header) ==> unique_keys(final(self)@.header),
    {
        match utc_timestamp() {
            Some(stamp) => {
                proof {
                    lemma_assign(self@.header, "PO-Revision-Date"@, stamp@);
                }
                self.update_revision_date_at(stamp.as_str());
            },
            None => {},
        }
    }

    /// Marks the catalog as changed.
    pub fn mark_modified(&mut self)
        ensures
            *final(self) == (PoFile { modified: true, ..*old(self) }),
    {
        self.modified = true;
    }

    /// The header fields.
    pub fn get_header(&self) -> (h: &Header)
        ensures
            *h == self.header,
    {
        &self.header
    }

    /// The header fields, for changing them; the catalog counts as changed.
    pub fn get_header_mut(&mut self) -> (h: &mut Header)
        ensures
            *h == old(self).header,
            *final(self) == (PoFile { header: *final(h), modified: true, ..*old(self) }),
    {
        self.modified = true;
        &mut self.header
    }

    /// Sets the header field `key` to `value` and marks the catalog as changed.
    pub fn set_header_field(&mut self, key: String, value: String)
        ensures
            final(self)@ == (CatalogView {
                header: assign(old(self)@.header, key@, value@),
                modified: true,
                ..old(self)@
            }),
            final(self).path == old(self).path,
            final(self).entries == old(self).entries,
            unique_keys(old(self)@.header) ==> unique_keys(final(self)@.header),
    {
        self.header.insert(key, value);
        self.modified = true;
    }

    /// Tells whether the catalog has changes that were not saved.
    pub fn is_modified(&self) -> (r: bool)
        ensures
            r == self@.modified,
    {
        self.modified
    }

    /// The number of entries, of translated entries and of fuzzy entries.
    pub fn get_stats(&self) -> (r: (usize, usize, usize))
        ensures
            r.0 == self@.entries.len(),
            r.1 == count_translated(self@.entries),
            r.2 == count_fuzzy(self@.entries),
    {
        let total = self.entries.len();
        let mut translated: usize = 0;
        let mut fuzzy: usize = 0;
        let mut i: usize = 0;
        assert(self@.entries.take(0) =~= Seq::<EntryView>::empty());
        while i < total
            invariant
                i <= total == self.entries.len(),
                translated == count_translated(self@.entries.take(i as int)),
                fuzzy == count_fuzzy(self@.entries.take(i as int)),
                translated <= i,
                fuzzy <= i,
            decreases total - i,
        {
            assert(self@.entries.take(i + 1).drop_last() =~= self@.entries.take(i as int));
            if self.entries[i].is_translated {
                translated += 1;
            }
            if self.entries[i].is_fuzzy {
                fuzzy += 1;
            }
            i += 1;
        }
        assert(self@.entries.take(total as int) =~= self@.entries);
        (total, translated, fuzzy)
    }
}

impl Default for PoFile {
    fn default() -> (f: PoFile)
        ensures
            f.path is None,
            f@.header.len() == 0,
            f@.entries.len() == 0,
            !f@.modified,
    {
        PoFile { path: None, header: Header::new(), entries: Vec::new(), modified: false }
    }
}

} // verus!
