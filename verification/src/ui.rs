//! The editing session: a catalog, a filtered view over its entries, and the
//! commands that browse, search and edit it.

use crate::clock::{is_timestamp, utc_timestamp};
use crate::gettext::{has_fuzzy, PoEntry, PoFile};
use crate::model::EntryView;
use crate::serializer::serialize;
use crate::session::{
    action_of, filtered, lemma_filtered, lemma_input_timeless, lemma_key_timeless, normalized,
    AppView,
};
use crate::text::{
    byte_offset, clamped, contains_chars, join_strings, split_text_lines, texts, to_chars,
    to_string_range,
};
use vstd::prelude::*;

verus! {

/// Which field of an entry the editor works on.
#[derive(Debug, Clone, Copy, PartialEq, Eq, Structural)]
pub enum EditField {
    Msgid,
    Msgstr,
    Comments,
    Metadata,
}

/// Which entries the view shows.
#[derive(Debug, Clone, Copy, PartialEq, Eq, Structural)]
pub enum FilterMode {
    All,
    Untranslated,
    Fuzzy,
}

/// The key of a key press.
#[derive(Debug, Clone, Copy, PartialEq, Eq, Structural)]
pub enum KeyCode {
    Char(char),
    Backspace,
    Delete,
    Left,
    Right,
    Up,
    Down,
    Home,
    End,
    PageUp,
    PageDown,
    Enter,
    Esc,
    Tab,
    BackTab,
    F(u8),
    Other,
}

/// The modifier keys held during a key press.
#[derive(Debug, Clone, Copy, PartialEq, Eq, Structural)]
pub enum KeyModifiers {
    Unmodified,
    Shift,
    Control,
    ControlShift,
    Other,
}

/// A key press.
#[derive(Debug, Clone, Copy, PartialEq, Eq, Structural)]
pub struct KeyEvent {
    pub code: KeyCode,
    pub modifiers: KeyModifiers,
}

/// What the caller has to do after a key press was handled.
#[derive(Debug, Clone, Copy, PartialEq, Eq, Structural)]
pub enum Action {
    /// Nothing: wait for the next key.
    Continue,
    /// Write the catalog to its path.
    Save,
    /// End the session.
    Quit,
}

/// What the session is busy with.
#[derive(Debug, Clone, Copy, PartialEq, Eq, Structural)]
pub enum Mode {
    Browsing,
    EditingField(EditField),
    EditingMetadata,
    SearchInput,
}

/// How many entries a page step moves over.
pub const PAGE_SIZE: usize = 10;

/// An editing session on one catalog.
pub struct App {
    pub po_file: PoFile,
    pub current_entry: usize,
    pub editing: bool,
    pub edit_field: EditField,
    pub edit_text: String,
    pub edit_cursor: usize,
    pub search_mode: bool,
    pub search_query: String,
    pub search_cursor: usize,
    pub filter_mode: FilterMode,
    pub filtered_indices: Vec<usize>,
    pub help_visible: bool,
    pub metadata_mode: bool,
    pub metadata_key: String,
    pub metadata_keys: Vec<String>,
    pub metadata_selected: usize,
}

impl View for App {
    type V = AppView;

    open spec fn view(&self) -> AppView {
        AppView {
            po_file: self.po_file@,
            current_entry: self.current_entry as int,
            editing: self.editing,
            edit_field: self.edit_field,
            edit_text: self.edit_text@,
            edit_cursor: self.edit_cursor as int,
            search_mode: self.search_mode,
            search_query: self.search_query@,
            search_cursor: self.search_cursor as int,
            filter_mode: self.filter_mode,
            filtered_indices: self.filtered_indices@,
            help_visible: self.help_visible,
            metadata_mode: self.metadata_mode,
            metadata_key: self.metadata_key@,
            metadata_keys: texts(self.metadata_keys@),
            metadata_selected: self.metadata_selected as int,
        }
    }
}

/// The header keys that metadata mode offers.
fn standard_keys() -> (keys: Vec<String>)
    ensures
        texts(keys@) == crate::session::metadata_keys(),
{
    let mut keys: Vec<String> = Vec::new();
    keys.push(String::from_str("Project-Id-Version"));
    keys.push(String::from_str("Language"));
    keys.push(String::from_str("Language-Team"));
    keys.push(String::from_str("Last-Translator"));
    keys.push(String::from_str("Report-Msgid-Bugs-To"));
    keys.push(String::from_str("POT-Creation-Date"));
    keys.push(String::from_str("PO-Revision-Date"));
    keys.push(String::from_str("MIME-Version"));
    keys.push(String::from_str("Content-Type"));
    keys.push(String::from_str("Content-Transfer-Encoding"));
    keys.push(String::from_str("Plural-Forms"));
    assert(texts(keys@) =~= crate::session::metadata_keys());
    keys
}

impl App {
    /// The state is one that the commands keep: see `AppView::wf`.
    pub open spec fn wf(&self) -> bool {
        self@.wf()
    }

    /// Tells whether the state is one that the commands keep. A caller that
    /// changed the fields by hand asks this before it gives a command.
    pub fn is_well_formed(&self) -> (ok: bool)
        ensures
            ok == self.wf(),
    {
        let n = self.po_file.entries.len();
        let shown = self.filtered_indices.len();
        if shown > 0 && self.current_entry >= shown {
            return false;
        }
        if self.edit_cursor > self.edit_text.as_str().unicode_len() {
            return false;
        }
        if self.search_cursor > self.search_query.as_str().unicode_len() {
            return false;
        }
        if self.metadata_selected >= self.metadata_keys.len() {
            return false;
        }
        let mut k: usize = 0;
        while k < shown
            invariant
                k <= shown == self.filtered_indices@.len(),
                n == self.po_file.entries@.len(),
                forall|j: int| 0 <= j < k ==> (#[trigger] self.filtered_indices@[j]) < n,
            decreases shown - k,
        {
            if self.filtered_indices[k] >= n {
                assert(!(self@.filtered_indices[k as int] < self@.po_file.entries.len()));
                return false;
            }
            k += 1;
        }
        let mut i: usize = 0;
        while i < n
            invariant
                i <= n == self.po_file.entries@.len(),
                forall|j: int| 0 <= j < i ==> (#[trigger] self@.po_file.entries[j]).status_ok(),
            decreases n - i,
        {
            let entry = &self.po_file.entries[i];
            let fuzzy = has_fuzzy(&entry.flags);
            let translated = !entry.msgstr.as_str().is_empty() && !fuzzy;
            if entry.is_fuzzy != fuzzy || entry.is_translated != translated {
                assert(!self@.po_file.entries[i as int].status_ok());
                return false;
            }
            i += 1;
        }
        true
    }

    /// The byte at which the character at position `char_idx` of `text`
    /// begins, or the length of the text in bytes where it has fewer characters.
    pub fn char_to_byte_index(text: &str, char_idx: usize) -> (r: usize)
        ensures
            r == byte_offset(text@, char_idx as int),
    {
        crate::text::char_to_byte_index(text, char_idx)
    }

    /// Puts `ch` into `text` before the character at position `char_idx`,
    /// or at the end where the text is shorter. Positions count characters.
    pub fn insert_char_at(text: &mut String, char_idx: usize, ch: char)
        ensures
            final(text)@ == old(text)@.insert(clamped(char_idx as int, old(text)@.len() as int), ch),
    {
        let chars = to_chars(text.as_str());
        let n = chars.len();
        let at = if char_idx < n {
            char_idx
        } else {
            n
        };
        let mut out = to_string_range(&chars, 0, at);
        out.push(ch);
        let tail = to_string_range(&chars, at, n);
        out.append(tail.as_str());
        assert(out@ =~= chars@.insert(at as int, ch));
        *text = out;
    }

    /// Takes the character at position `char_idx` out of `text`; nothing
    /// where the text is shorter. Positions count characters.
    pub fn remove_char_at(text: &mut String, char_idx: usize)
        ensures
            char_idx < old(text)@.len() ==> final(text)@ == old(text)@.remove(char_idx as int),
            char_idx >= old(text)@.len() ==> final(text)@ == old(text)@,
    {
        let chars = to_chars(text.as_str());
        let n = chars.len();
        if char_idx < n {
            let mut out = to_string_range(&chars, 0, char_idx);
            let tail = to_string_range(&chars, char_idx + 1, n);
            out.append(tail.as_str());
            assert(out@ =~= chars@.remove(char_idx as int));
            *text = out;
        }
    }

    /// A session on `po_file`: every entry in view, the first one selected,
    /// nothing being edited. The status of every entry is derived anew.
    pub fn new(po_file: PoFile) -> (app: App)
        ensures
            app@ == AppView::initial(po_file@),
            app.po_file.path == po_file.path,
            app.wf(),
    {
        let mut po_file = po_file;
        let ghost given = po_file@;
        let ghost path = po_file.path;
        let mut i: usize = 0;
        while i < po_file.entries.len()
            invariant
                i <= po_file.entries.len(),
                po_file.entries@.len() == given.entries.len(),
                po_file.path == path,
                po_file.header@ == given.header,
                po_file.modified == given.modified,
                forall|j: int|
                    0 <= j < i ==> (#[trigger] po_file.entries@[j])@ == given.entries[j].with_status(),
                forall|j: int|
                    i <= j < po_file.entries@.len() ==> (#[trigger] po_file.entries@[j])@
                        == given.entries[j],
            decreases po_file.entries.len() - i,
        {
            let entry = &mut po_file.entries[i];
            entry.update_status();
            i += 1;
        }
        assert(po_file@.entries =~= normalized(given.entries));
        let mut app = App {
            po_file,
            current_entry: 0,
            editing: false,
            edit_field: EditField::Msgstr,
            edit_text: String::new(),
            edit_cursor: 0,
            search_mode: false,
            search_query: String::new(),
            search_cursor: 0,
            filter_mode: FilterMode::All,
            filtered_indices: Vec::new(),
            help_visible: false,
            metadata_mode: false,
            metadata_key: String::new(),
            metadata_keys: standard_keys(),
            metadata_selected: 0,
        };
        assert(app@.filtered_indices =~= Seq::<usize>::empty());
        app.update_filtered_indices();
        proof {
            lemma_filtered(app@.po_file.entries, app@.filter_mode, app@.search_query);
        }
        app
    }

    /// Tells whether the filter and the query admit the entry. `needle` is
    /// the query in lower case.
    fn admits(&self, entry: &PoEntry, needle: &Vec<char>) -> (r: bool)
        requires
            needle@ == crate::text::lowercase(self.search_query@),
        ensures
            r == (crate::session::matches_filter(entry@, self.filter_mode)
                && crate::session::matches_search(entry@, self.search_query@)),
    {
        let by_filter = match self.filter_mode {
            FilterMode::All => true,
            FilterMode::Untranslated => !entry.is_translated,
            FilterMode::Fuzzy => entry.is_fuzzy,
        };
        if !by_filter {
            return false;
        }
        if self.search_query.as_str().is_empty() {
            return true;
        }
        let msgid = to_chars(entry.msgid.as_str().to_lowercase().as_str());
        if contains_chars(&msgid, needle) {
            return true;
        }
        let msgstr = to_chars(entry.msgstr.as_str().to_lowercase().as_str());
        contains_chars(&msgstr, needle)
    }

    /// Computes the view anew from the filter and the query: the entries that
    /// both admit, in catalog order. A selection that lies behind the view
    /// moves to its last entry.
    pub fn update_filtered_indices(&mut self)
        ensures
            final(self)@ == old(self)@.refreshed(),
            final(self).po_file == old(self).po_file,
    {
        let needle = to_chars(self.search_query.as_str().to_lowercase().as_str());
        let mut found: Vec<usize> = Vec::new();
        let ghost es = self@.po_file.entries;
        let mut i: usize = 0;
        assert(es.take(0) =~= Seq::<EntryView>::empty());
        while i < self.po_file.entries.len()
            invariant
                i <= self.po_file.entries.len(),
                *self == *old(self),
                es == self@.po_file.entries,
                needle@ == crate::text::lowercase(self.search_query@),
                found@ == filtered(es.take(i as int), self.filter_mode, self.search_query@),
            decreases self.po_file.entries.len() - i,
        {
            proof {
                assert(es.take(i + 1).drop_last() =~= es.take(i as int));
                assert(es.take(i + 1).last() == self.po_file.entries@[i as int]@);
            }
            if self.admits(&self.po_file.entries[i], &needle) {
                found.push(i);
            }
            i += 1;
        }
        assert(es.take(i as int) =~= es);
        self.filtered_indices = found;
        let n = self.filtered_indices.len();
        if self.current_entry >= n && n > 0 {
            self.current_entry = n - 1;
        }
    }

    /// The entry of the view that the selection falls on, as the list shows
    /// it: `None` on an empty view.
    pub fn list_selection(&self) -> (r: Option<usize>)
        ensures
            r == (if self@.view_is_empty() {
                None
            } else {
                Some(self.current_entry)
            }),
    {
        if self.filtered_indices.len() == 0 {
            None
        } else {
            Some(self.current_entry)
        }
    }

    /// Selects the next entry of the view; the last one stays selected.
    pub fn next_entry(&mut self)
        requires
            old(self).wf(),
        ensures
            final(self)@ == old(self)@.next_entry(),
            final(self).po_file == old(self).po_file,
            final(self).wf(),
    {
        let n = self.filtered_indices.len();
        if n > 0 {
            if self.current_entry + 1 < n {
                self.current_entry = self.current_entry + 1;
            } else {
                self.current_entry = n - 1;
            }
        }
    }

    /// Selects the entry before the selected one; the first one stays selected.
    pub fn previous_entry(&mut self)
        requires
            old(self).wf(),
        ensures
            final(self)@ == old(self)@.previous_entry(),
            final(self).po_file == old(self).po_file,
            final(self).wf(),
    {
        if self.filtered_indices.len() > 0 && self.current_entry > 0 {
            self.current_entry = self.current_entry - 1;
        }
    }

    /// Moves the selection one page up, to the first entry at most.
    pub fn page_up(&mut self)
        requires
            old(self).wf(),
        ensures
            final(self)@ == old(self)@.page_up(),
            final(self).po_file == old(self).po_file,
            final(self).wf(),
    {
        if self.filtered_indices.len() > 0 {
            if self.current_entry >= PAGE_SIZE {
                self.current_entry = self.current_entry - PAGE_SIZE;
            } else {
                self.current_entry = 0;
            }
        }
    }

    /// Moves the selection one page down, to the last entry at most.
    pub fn page_down(&mut self)
        requires
            old(self).wf(),
        ensures
            final(self)@ == old(self)@.page_down(),
            final(self).po_file == old(self).po_file,
            final(self).wf(),
    {
        let n = self.filtered_indices.len();
        if n > 0 {
            if n - 1 - self.current_entry > PAGE_SIZE {
                self.current_entry = self.current_entry + PAGE_SIZE;
            } else {
                self.current_entry = n - 1;
            }
        }
    }

    /// Selects the first entry of the view.
    pub fn go_to_first(&mut self)
        requires
            old(self).wf(),
        ensures
            final(self)@ == old(self)@.go_to_first(),
            final(self).po_file == old(self).po_file,
            final(self).wf(),
    {
        if self.filtered_indices.len() > 0 {
            self.current_entry = 0;
        }
    }

    /// Selects the last entry of the view.
    pub fn go_to_last(&mut self)
        requires
            old(self).wf(),
        ensures
            final(self)@ == old(self)@.go_to_last(),
            final(self).po_file == old(self).po_file,
            final(self).wf(),
    {
        let n = self.filtered_indices.len();
        if n > 0 {
            self.current_entry = n - 1;
        }
    }

    /// The selected entry; `None` on an empty view.
    pub fn get_current_entry(&self) -> (r: Option<&PoEntry>)
        requires
            self.wf(),
        ensures
            match r {
                Some(e) => !self@.view_is_empty() && e@ == self@.selected(),
                None => self@.view_is_empty(),
            },
    {
        if self.filtered_indices.len() > 0 {
            let idx = self.filtered_indices[self.current_entry];
            Some(&self.po_file.entries[idx])
        } else {
            None
        }
    }

    /// Begins an edit of the current field of the selected entry, the cursor
    /// behind the last character. Nothing happens on an empty view, during
    /// search input, or while editing.
    pub fn start_editing(&mut self)
        requires
            old(self).wf(),
        ensures
            final(self)@ == old(self)@.start_editing(),
            final(self).po_file == old(self).po_file,
            final(self).wf(),
    {
        if self.filtered_indices.len() > 0 && !self.search_mode && !self.editing {
            let idx = self.filtered_indices[self.current_entry];
            let entry = &self.po_file.entries[idx];
            let text = match self.edit_field {
                EditField::Msgid => entry.msgid.clone(),
                EditField::Msgstr => entry.msgstr.clone(),
                EditField::Comments => join_strings(&entry.comments, "\n"),
                EditField::Metadata => String::new(),
            };
            self.edit_cursor = text.as_str().unicode_len();
            self.edit_text = text;
            self.editing = true;
        }
    }

    /// Tells whether an edit of a header field is under way that a commit
    /// writes and dates.
    fn commit_dates(&self) -> (r: bool)
        ensures
            r == self@.commit_dates(),
    {
        self.editing && self.edit_field == EditField::Metadata && self.metadata_mode
            && !self.metadata_key.as_str().is_empty()
    }

    /// Writes the edit buffer into the current field of the selected entry
    /// and marks the catalog as changed. Nothing happens where no edit of an
    /// entry is under way or the view is empty.
    fn apply_field_edit(&mut self)
        requires
            old(self).wf(),
        ensures
            final(self)@ == old(self)@.commit_field(),
            final(self).po_file.path == old(self).po_file.path,
            final(self).wf(),
    {
        if self.editing && self.edit_field != EditField::Metadata && self.filtered_indices.len()
            > 0 {
            let idx = self.filtered_indices[self.current_entry];
            let text = self.edit_text.clone();
            let ghost before = self@.po_file.entries;
            let entry = &mut self.po_file.entries[idx];
            match self.edit_field {
                EditField::Msgid => {
                    entry.msgid = text;
                },
                EditField::Msgstr => {
                    entry.set_msgstr(text);
                },
                _ => {
                    let chars = to_chars(text.as_str());
                    entry.comments = split_text_lines(&chars);
                },
            }
            self.po_file.modified = true;
            assert(self@.po_file.entries =~= before.update(
                idx as int,
                old(self)@.edited_entry(),
            ));
        }
    }

    /// Writes the edit buffer where it belongs and marks the catalog as
    /// changed; a header field is dated `now`. Nothing happens where no edit
    /// is under way.
    fn apply_edit_at(&mut self, now: &str)
        requires
            old(self).wf(),
        ensures
            final(self)@ == old(self)@.commit(now@),
            final(self).po_file.path == old(self).po_file.path,
            final(self).wf(),
    {
        if self.commit_dates() {
            self.po_file.set_header_field(self.metadata_key.clone(), self.edit_text.clone());
            self.po_file.update_revision_date_at(now);
        } else {
            self.apply_field_edit();
        }
    }

    /// Ends an edit. What was typed is dropped and the catalog stays as it
    /// is; only an edit of the comments is kept, since it has no other way to
    /// end. Where no edit is under way, ends search input.
    pub fn stop_editing(&mut self)
        requires
            old(self).wf(),
        ensures
            final(self)@ == old(self)@.stop_editing(),
            final(self).po_file.path == old(self).po_file.path,
            final(self).wf(),
    {
        if self.editing && self.edit_field == EditField::Comments {
            self.apply_field_edit();
            self.editing = false;
        } else {
            self.cancel_editing();
        }
    }

    /// Ends an edit and drops what was typed; where no edit is under way,
    /// ends search input. The catalog stays as it is.
    pub fn cancel_editing(&mut self)
        requires
            old(self).wf(),
        ensures
            final(self)@ == old(self)@.cancel_editing(),
            final(self).po_file == old(self).po_file,
            final(self).wf(),
    {
        if self.editing {
            self.editing = false;
            self.edit_text = String::new();
            self.edit_cursor = 0;
        } else if self.search_mode {
            self.search_mode = false;
        }
    }

    /// Makes the next field the current one: source text, translation,
    /// comments, and round again. Only while browsing entries.
    pub fn next_field(&mut self)
        ensures
            final(self)@ == old(self)@.next_field(),
            final(self).po_file == old(self).po_file,
            old(self).wf() ==> final(self).wf(),
    {
        if !self.editing && !self.search_mode && !self.metadata_mode {
            self.edit_field = match self.edit_field {
                EditField::Msgid => EditField::Msgstr,
                EditField::Msgstr => EditField::Comments,
                EditField::Comments => EditField::Msgid,
                EditField::Metadata => EditField::Metadata,
            };
        }
    }

    /// Makes the previous field the current one. Only while browsing entries.
    pub fn previous_field(&mut self)
        ensures
            final(self)@ == old(self)@.previous_field(),
            final(self).po_file == old(self).po_file,
            old(self).wf() ==> final(self).wf(),
    {
        if !self.editing && !self.search_mode && !self.metadata_mode {
            self.edit_field = match self.edit_field {
                EditField::Msgid => EditField::Comments,
                EditField::Msgstr => EditField::Msgid,
                EditField::Comments => EditField::Msgstr,
                EditField::Metadata => EditField::Metadata,
            };
        }
    }

    /// Begins search input, the cursor behind the last character of the query.
    pub fn start_search(&mut self)
        ensures
            final(self)@ == old(self)@.start_search(),
            final(self).po_file == old(self).po_file,
            old(self).wf() ==> final(self).wf(),
    {
        self.search_mode = true;
        self.search_cursor = self.search_query.as_str().unicode_len();
    }

    /// Computes the view anew and selects the next entry. Nothing happens
    /// without a query.
    pub fn find_next(&mut self)
        requires
            old(self).wf(),
        ensures
            final(self)@ == old(self)@.find_next(),
            final(self).po_file == old(self).po_file,
            final(self).wf(),
    {
        if !self.search_query.as_str().is_empty() {
            self.refresh();
            self.next_entry();
        }
    }

    /// Computes the view anew and selects the entry before the selected one.
    /// Nothing happens without a query.
    pub fn find_previous(&mut self)
        requires
            old(self).wf(),
        ensures
            final(self)@ == old(self)@.find_previous(),
            final(self).po_file == old(self).po_file,
            final(self).wf(),
    {
        if !self.search_query.as_str().is_empty() {
            self.refresh();
            self.previous_entry();
        }
    }

    /// Computes the view anew in a state that the commands keep.
    fn refresh(&mut self)
        requires
            old(self).wf(),
        ensures
            final(self)@ == old(self)@.refreshed(),
            final(self).po_file == old(self).po_file,
            final(self).wf(),
    {
        let n = self.po_file.entries.len();
        self.update_filtered_indices();
        proof {
            lemma_filtered(self@.po_file.entries, self@.filter_mode, self@.search_query);
        }
    }

    /// Shows the untranslated entries only, or all entries where that filter
    /// was on already; the view is computed anew.
    pub fn toggle_untranslated_filter(&mut self)
        requires
            old(self).wf(),
        ensures
            final(self)@ == old(self)@.toggle_untranslated_filter(),
            final(self).po_file == old(self).po_file,
            final(self).wf(),
    {
        self.filter_mode = match self.filter_mode {
            FilterMode::Untranslated => FilterMode::All,
            _ => FilterMode::Untranslated,
        };
        self.refresh();
    }

    /// Shows the fuzzy entries only, or all entries where that filter was on
    /// already; the view is computed anew.
    pub fn toggle_fuzzy_filter(&mut self)
        requires
            old(self).wf(),
        ensures
            final(self)@ == old(self)@.toggle_fuzzy_filter(),
            final(self).po_file == old(self).po_file,
            final(self).wf(),
    {
        self.filter_mode = match self.filter_mode {
            FilterMode::Fuzzy => FilterMode::All,
            _ => FilterMode::Fuzzy,
        };
        self.refresh();
    }

    /// What a key does during search input: it changes the query, after
    /// which the view is computed anew and its first entry selected; it moves
    /// the cursor; or, for Enter, it ends search input and keeps the query.
    fn handle_search_input(&mut self, code: KeyCode)
        requires
            old(self).wf(),
        ensures
            final(self)@ == old(self)@.search_input(code),
            final(self).po_file == old(self).po_file,
            final(self).wf(),
    {
        match code {
            KeyCode::Char(c) => {
                App::insert_char_at(&mut self.search_query, self.search_cursor, c);
                let n = self.search_query.as_str().unicode_len();
                self.search_cursor = self.search_cursor + 1;
                self.refresh();
                self.current_entry = 0;
            },
            KeyCode::Backspace => {
                if self.search_cursor > 0 {
                    self.search_cursor = self.search_cursor - 1;
                    App::remove_char_at(&mut self.search_query, self.search_cursor);
                    self.refresh();
                    self.current_entry = 0;
                }
            },
            KeyCode::Left => {
                if self.search_cursor > 0 {
                    self.search_cursor = self.search_cursor - 1;
                }
            },
            KeyCode::Right => {
                let n = self.search_query.as_str().unicode_len();
                if self.search_cursor < n {
                    self.search_cursor = self.search_cursor + 1;
                }
            },
            KeyCode::Enter => {
                self.search_mode = false;
            },
            _ => {},
        }
    }

    /// What a key does during an edit: it changes the buffer at the cursor,
    /// moves the cursor, or, for Enter, ends the edit and keeps what was
    /// typed; in the comments Enter begins a new line.
    fn handle_edit_input_at(&mut self, code: KeyCode, now: &str)
        requires
            old(self).wf(),
        ensures
            final(self)@ == old(self)@.edit_input(code, now@),
            final(self).po_file.path == old(self).po_file.path,
            final(self).wf(),
    {
        match code {
            KeyCode::Char(c) => {
                self.type_char(c);
            },
            KeyCode::Backspace => {
                if self.edit_cursor > 0 {
                    self.edit_cursor = self.edit_cursor - 1;
                    App::remove_char_at(&mut self.edit_text, self.edit_cursor);
                }
            },
            KeyCode::Delete => {
                let n = self.edit_text.as_str().unicode_len();
                if self.edit_cursor < n {
                    App::remove_char_at(&mut self.edit_text, self.edit_cursor);
                }
            },
            KeyCode::Left => {
                if self.edit_cursor > 0 {
                    self.edit_cursor = self.edit_cursor - 1;
                }
            },
            KeyCode::Right => {
                let n = self.edit_text.as_str().unicode_len();
                if self.edit_cursor < n {
                    self.edit_cursor = self.edit_cursor + 1;
                }
            },
            KeyCode::Home => {
                self.edit_cursor = 0;
            },
            KeyCode::End => {
                self.edit_cursor = self.edit_text.as_str().unicode_len();
            },
            KeyCode::Enter => {
                if self.edit_field == EditField::Comments {
                    self.type_char('\n');
                } else {
                    self.apply_edit_at(now);
                    self.editing = false;
                }
            },
            _ => {},
        }
    }

    /// Puts `c` into the edit buffer at the cursor and moves the cursor behind it.
    fn type_char(&mut self, c: char)
        requires
            old(self).wf(),
        ensures
            final(self)@ == old(self)@.typing(
                old(self)@.edit_text.insert(old(self)@.edit_cursor, c),
                old(self)@.edit_cursor + 1,
            ),
            final(self).po_file == old(self).po_file,
            final(self).wf(),
    {
        App::insert_char_at(&mut self.edit_text, self.edit_cursor, c);
        let n = self.edit_text.as_str().unicode_len();
        self.edit_cursor = self.edit_cursor + 1;
    }

    /// What a key does to the text being typed: the query during search
    /// input, else the edit buffer during an edit, else nothing. An edit that
    /// Enter ends dates a header field `now`.
    pub fn handle_input_at(&mut self, key: KeyEvent, now: &str)
        requires
            old(self).wf(),
        ensures
            final(self)@ == old(self)@.handle_input(key, now@),
            final(self).po_file.path == old(self).po_file.path,
            final(self).wf(),
    {
        if self.search_mode {
            self.handle_search_input(key.code);
        } else if self.editing {
            self.handle_edit_input_at(key.code, now);
        }
    }

    /// Tells whether `key` ends an edit of a header field that is then
    /// written and dated.
    fn input_dates(&self, key: KeyEvent) -> (r: bool)
        ensures
            r == self@.input_dates(key),
    {
        !self.search_mode && key.code == KeyCode::Enter && self.commit_dates()
    }

    /// What a key does to the text being typed, as `handle_input_at`. The
    /// current time is read only where the key ends an edit of a header field
    /// that is then dated; where the time cannot be read, nothing changes.
    pub fn handle_input(&mut self, key: KeyEvent)
        requires
            old(self).wf(),
        ensures
            old(self)@.input_dates(key) ==> final(self)@ == old(self)@ || exists|now: Seq<char>|
                is_timestamp(now) && final(self)@ == old(self)@.handle_input(key, now),
            !old(self)@.input_dates(key) ==> forall|now: Seq<char>|
                final(self)@ == #[trigger] old(self)@.handle_input(key, now),
            final(self).po_file.path == old(self).po_file.path,
            final(self).wf(),
    {
        if self.input_dates(key) {
            match utc_timestamp() {
                Some(now) => {
                    self.handle_input_at(key, now.as_str());
                    assert(is_timestamp(now@) && self@ == old(self)@.handle_input(key, now@));
                },
                None => {},
            }
        } else {
            self.handle_input_at(key, "");
            proof {
                assert forall|now: Seq<char>|
                    self@ == #[trigger] old(self)@.handle_input(key, now) by {
                    lemma_input_timeless(old(self)@, key, now, ""@);
                }
            }
        }
    }

    /// Tells whether text is being typed: an edit or search input is under way.
    pub fn is_editing(&self) -> (r: bool)
        ensures
            r == (self@.editing || self@.search_mode),
    {
        self.editing || self.search_mode
    }

    /// Tells whether the header fields are shown in place of the entries.
    pub fn is_metadata_mode(&self) -> (r: bool)
        ensures
            r == self@.metadata_mode,
    {
        self.metadata_mode
    }

    /// Tells whether the catalog has changes that were not saved.
    pub fn is_modified(&self) -> (r: bool)
        ensures
            r == self@.po_file.modified,
    {
        self.po_file.is_modified()
    }

    /// What the session is busy with.
    pub fn mode(&self) -> (m: Mode)
        ensures
            m == self@.mode(),
    {
        if self.search_mode {
            Mode::SearchInput
        } else if self.editing {
            if self.edit_field == EditField::Metadata {
                Mode::EditingMetadata
            } else {
                Mode::EditingField(self.edit_field)
            }
        } else {
            Mode::Browsing
        }
    }

    /// The text to write where the catalog is saved; `None` where it has no path.
    pub fn pending_save(&self) -> (r: Option<String>)
        ensures
            match r {
                Some(text) => self.po_file.path is Some && text@ == serialize(
                    self@.po_file.header,
                    self@.po_file.entries,
                ),
                None => self.po_file.path is None,
            },
    {
        self.po_file.pending_save()
    }

    /// The text to write when the session ends: that of the catalog where it
    /// has changes and a path, else `None`.
    pub fn pending_exit_save(&self) -> (r: Option<String>)
        ensures
            match r {
                Some(text) => self@.po_file.modified && self.po_file.path is Some && text@
                    == serialize(self@.po_file.header, self@.po_file.entries),
                None => !self@.po_file.modified || self.po_file.path is None,
            },
    {
        if self.po_file.is_modified() {
            self.po_file.pending_save()
        } else {
            None
        }
    }

    /// Records that the text of the catalog was written to its path.
    pub fn mark_saved(&mut self)
        ensures
            final(self)@ == (AppView {
                po_file: crate::model::CatalogView { modified: false, ..old(self)@.po_file },
                ..old(self)@
            }),
            final(self).po_file.path == old(self).po_file.path,
            old(self).wf() ==> final(self).wf(),
    {
        self.po_file.mark_saved();
    }

    /// Writes the edit buffer where it belongs, a header field dated `now`,
    /// and gives the text to write where the catalog is saved.
    pub fn save_current_entry_at(&mut self, now: &str) -> (r: Option<String>)
        requires
            old(self).wf(),
        ensures
            final(self)@ == old(self)@.commit(now@),
            final(self).po_file.path == old(self).po_file.path,
            final(self).wf(),
            match r {
                Some(text) => final(self).po_file.path is Some && text@ == serialize(
                    final(self)@.po_file.header,
                    final(self)@.po_file.entries,
                ),
                None => final(self).po_file.path is None,
            },
    {
        self.apply_edit_at(now);
        self.po_file.pending_save()
    }

    /// Writes the edit buffer where it belongs and gives the text to write
    /// where the catalog is saved. The current time is read only where a
    /// header field is written and dated; where the time cannot be read, the
    /// edit stays as it is.
    pub fn save_current_entry(&mut self) -> (r: Option<String>)
        requires
            old(self).wf(),
        ensures
            old(self)@.commit_dates() ==> final(self)@ == old(self)@ || exists|now: Seq<char>|
                is_timestamp(now) && final(self)@ == old(self)@.commit(now),
            !old(self)@.commit_dates() ==> final(self)@ == old(self)@.commit_field(),
            final(self).po_file.path == old(self).po_file.path,
            final(self).wf(),
            match r {
                Some(text) => final(self).po_file.path is Some && text@ == serialize(
                    final(self)@.po_file.header,
                    final(self)@.po_file.entries,
                ),
                None => final(self).po_file.path is None,
            },
    {
        if self.commit_dates() {
            match utc_timestamp() {
                Some(now) => {
                    self.apply_edit_at(now.as_str());
                    assert(is_timestamp(now@) && self@ == old(self)@.commit(now@));
                },
                None => {},
            }
        } else {
            self.apply_field_edit();
        }
        self.po_file.pending_save()
    }

    /// Shows or hides the help.
    pub fn toggle_help(&mut self)
        ensures
            final(self)@ == old(self)@.toggle_help(),
            final(self).po_file == old(self).po_file,
            old(self).wf() ==> final(self).wf(),
    {
        self.help_visible = !self.help_visible;
    }

    /// Shows the header fields in place of the entries, or the entries
    /// again. Nothing happens during an edit.
    pub fn toggle_metadata_mode(&mut self)
        ensures
            final(self)@ == old(self)@.toggle_metadata_mode(),
            final(self).po_file == old(self).po_file,
            old(self).wf() ==> final(self).wf(),
    {
        if self.editing {
            return ;
        }
        self.metadata_mode = !self.metadata_mode;
        if self.metadata_mode {
            self.edit_field = EditField::Metadata;
        } else {
            self.edit_field = EditField::Msgstr;
        }
    }

    /// Begins an edit of the header field `key`, from its value or from the
    /// empty text where the header has no such field. Only in metadata mode.
    pub fn start_metadata_editing(&mut self, key: String)
        ensures
            final(self)@ == old(self)@.start_metadata_editing(key@),
            final(self).po_file == old(self).po_file,
            old(self).wf() ==> final(self).wf(),
    {
        if !self.metadata_mode {
            return ;
        }
        let text = match self.po_file.get_header().get(key.as_str()) {
            Some(v) => v.clone(),
            None => String::new(),
        };
        self.metadata_key = key;
        self.edit_cursor = text.as_str().unicode_len();
        self.edit_text = text;
        self.editing = true;
    }

    /// Begins an edit of the selected header field. Only in metadata mode,
    /// and not during an edit.
    pub fn start_editing_selected_metadata(&mut self)
        requires
            old(self).wf(),
        ensures
            final(self)@ == old(self)@.start_editing_selected_metadata(),
            final(self).po_file == old(self).po_file,
            final(self).wf(),
    {
        if self.metadata_mode && !self.editing {
            let key = self.metadata_keys[self.metadata_selected].clone();
            self.start_metadata_editing(key);
        }
    }

    /// Selects the next header field; the last one stays selected.
    pub fn metadata_next(&mut self)
        requires
            old(self).wf(),
        ensures
            final(self)@ == old(self)@.metadata_next(),
            final(self).po_file == old(self).po_file,
            final(self).wf(),
    {
        if self.metadata_mode && !self.editing {
            let n = self.metadata_keys.len();
            if n > 0 && self.metadata_selected < n - 1 {
                self.metadata_selected = self.metadata_selected + 1;
            }
        }
    }

    /// Selects the header field before the selected one; the first one stays
    /// selected.
    pub fn metadata_previous(&mut self)
        requires
            old(self).wf(),
        ensures
            final(self)@ == old(self)@.metadata_previous(),
            final(self).po_file == old(self).po_file,
            final(self).wf(),
    {
        if self.metadata_mode && !self.editing {
            if self.metadata_selected > 0 {
                self.metadata_selected = self.metadata_selected - 1;
            }
        }
    }

    /// Tells whether a status command may act on the selected entry.
    fn may_change_status(&self) -> (r: bool)
        requires
            self.wf(),
        ensures
            r == self@.may_change_status(),
    {
        if self.filtered_indices.len() > 0 && !self.editing && !self.search_mode {
            let idx = self.filtered_indices[self.current_entry];
            !self.po_file.entries[idx].msgstr.as_str().is_empty()
        } else {
            false
        }
    }

    /// Sets or clears `fuzzy` on the selected entry and revises the catalog
    /// at `now`. Nothing happens where the entry has no translation, on an
    /// empty view, during an edit or during search input.
    pub fn toggle_current_entry_fuzzy_at(&mut self, now: &str)
        requires
            old(self).wf(),
        ensures
            final(self)@ == old(self)@.toggle_current_entry_fuzzy(now@),
            final(self).po_file.path == old(self).po_file.path,
            final(self).wf(),
    {
        if self.may_change_status() {
            let idx = self.filtered_indices[self.current_entry];
            let ghost before = self@.po_file.entries;
            let entry = &mut self.po_file.entries[idx];
            entry.toggle_fuzzy();
            assert(self@.po_file.entries =~= before.update(
                idx as int,
                old(self)@.selected().toggle_fuzzy(),
            ));
            self.po_file.mark_modified();
            self.po_file.update_revision_date_at(now);
        }
    }

    /// Sets or clears `fuzzy` on the selected entry, as
    /// `toggle_current_entry_fuzzy_at` with the current time, which is read
    /// only where the command may act. Where the time cannot be read, nothing
    /// changes.
    pub fn toggle_current_entry_fuzzy(&mut self)
        requires
            old(self).wf(),
        ensures
            final(self)@ == old(self)@ || (old(self)@.may_change_status() && exists|now: Seq<char>|
                is_timestamp(now) && final(self)@ == old(self)@.toggle_current_entry_fuzzy(now)),
            final(self).po_file.path == old(self).po_file.path,
            final(self).wf(),
    {
        if self.may_change_status() {
            match utc_timestamp() {
                Some(now) => {
                    self.toggle_current_entry_fuzzy_at(now.as_str());
                    assert(is_timestamp(now@) && self@ == old(self)@.toggle_current_entry_fuzzy(
                        now@,
                    ));
                },
                None => {},
            }
        }
    }

    /// Clears `fuzzy` on the selected entry and revises the catalog at
    /// `now`. Nothing happens where the entry has no translation, on an empty
    /// view, during an edit or during search input.
    pub fn mark_current_entry_done_at(&mut self, now: &str)
        requires
            old(self).wf(),
        ensures
            final(self)@ == old(self)@.mark_current_entry_done(now@),
            final(self).po_file.path == old(self).po_file.path,
            final(self).wf(),
    {
        if self.may_change_status() {
            let idx = self.filtered_indices[self.current_entry];
            let ghost before = self@.po_file.entries;
            let entry = &mut self.po_file.entries[idx];
            entry.mark_done();
            assert(self@.po_file.entries =~= before.update(
                idx as int,
                old(self)@.selected().mark_done(),
            ));
            self.po_file.mark_modified();
            self.po_file.update_revision_date_at(now);
        }
    }

    /// Clears `fuzzy` on the selected entry, as `mark_current_entry_done_at`
    /// with the current time, which is read only where the command may act.
    /// Where the time cannot be read, nothing changes.
    pub fn mark_current_entry_done(&mut self)
        requires
            old(self).wf(),
        ensures
            final(self)@ == old(self)@ || (old(self)@.may_change_status() && exists|now: Seq<char>|
                is_timestamp(now) && final(self)@ == old(self)@.mark_current_entry_done(now)),
            final(self).po_file.path == old(self).po_file.path,
            final(self).wf(),
    {
        if self.may_change_status() {
            match utc_timestamp() {
                Some(now) => {
                    self.mark_current_entry_done_at(now.as_str());
                    assert(is_timestamp(now@) && self@ == old(self)@.mark_current_entry_done(now@));
                },
                None => {},
            }
        }
    }

    /// One step up: in the header keys in metadata mode, else in the view.
    fn move_up(&mut self)
        requires
            old(self).wf(),
        ensures
            final(self)@ == old(self)@.move_up(),
            final(self).po_file == old(self).po_file,
            final(self).wf(),
    {
        if self.metadata_mode {
            self.metadata_previous();
        } else {
            self.previous_entry();
        }
    }

    /// One step down: in the header keys in metadata mode, else in the view.
    fn move_down(&mut self)
        requires
            old(self).wf(),
        ensures
            final(self)@ == old(self)@.move_down(),
            final(self).po_file == old(self).po_file,
            final(self).wf(),
    {
        if self.metadata_mode {
            self.metadata_next();
        } else {
            self.next_entry();
        }
    }

    /// Begins an edit: of the selected header key in metadata mode, else of
    /// the current field of the selected entry.
    fn begin_edit(&mut self)
        requires
            old(self).wf(),
        ensures
            final(self)@ == old(self)@.begin_edit(),
            final(self).po_file == old(self).po_file,
            final(self).wf(),
    {
        if self.metadata_mode {
            self.start_editing_selected_metadata();
        } else {
            self.start_editing();
        }
    }

    /// What Esc does: it closes the help where that is shown, and does no
    /// more; else it ends an edit or search input.
    fn escape(&mut self)
        requires
            old(self).wf(),
        ensures
            final(self)@ == old(self)@.escape(),
            final(self).po_file.path == old(self).po_file.path,
            final(self).wf(),
    {
        if self.help_visible {
            self.toggle_help();
        } else {
            self.stop_editing();
        }
    }

    /// Tells whether `key` types or moves in the text while text is being typed.
    fn is_text_key(&self, key: KeyEvent) -> (r: bool)
        ensures
            r == self@.is_text_key(key),
    {
        let typing = self.editing || self.search_mode;
        let plain = key.modifiers == KeyModifiers::Unmodified || key.modifiers
            == KeyModifiers::Shift;
        let textual = match key.code {
            KeyCode::Char(_) => true,
            KeyCode::Enter => true,
            KeyCode::Home => true,
            KeyCode::End => true,
            KeyCode::Backspace => true,
            KeyCode::Delete => true,
            KeyCode::Left => true,
            KeyCode::Right => true,
            _ => false,
        };
        typing && plain && textual
    }

    /// Handles one key press at the time `now` and says what the caller has
    /// to do: write the catalog, end the session, or nothing.
    pub fn handle_key_event_at(&mut self, key: KeyEvent, now: &str) -> (action: Action)
        requires
            old(self).wf(),
        ensures
            final(self)@ == old(self)@.handle_key_event(key, now@),
            action == action_of(key),
            final(self).po_file.path == old(self).po_file.path,
            final(self).wf(),
    {
        match (key.modifiers, key.code) {
            (KeyModifiers::Control, KeyCode::Char('q')) => {
                return Action::Quit;
            },
            (KeyModifiers::Control, KeyCode::Char('s')) => {
                return Action::Save;
            },
            (KeyModifiers::ControlShift, KeyCode::Char('p')) => {
                self.apply_edit_at(now);
                return Action::Save;
            },
            (KeyModifiers::Control, KeyCode::Char('f')) => self.start_search(),
            (KeyModifiers::Control, KeyCode::Char('u')) => self.toggle_untranslated_filter(),
            (KeyModifiers::Control, KeyCode::Char('z')) => self.toggle_fuzzy_filter(),
            (KeyModifiers::Control, KeyCode::Char('d')) => self.mark_current_entry_done_at(now),
            (KeyModifiers::Control, KeyCode::Char('t')) => self.toggle_current_entry_fuzzy_at(now),
            (KeyModifiers::Unmodified, KeyCode::Esc) => self.escape(),
            (KeyModifiers::Unmodified, KeyCode::Tab) => self.next_field(),
            (KeyModifiers::Shift, KeyCode::BackTab) => self.previous_field(),
            (KeyModifiers::Unmodified, KeyCode::F(1)) => self.toggle_help(),
            (KeyModifiers::Unmodified, KeyCode::F(2)) => self.toggle_current_entry_fuzzy_at(now),
            (KeyModifiers::Unmodified, KeyCode::F(3)) => self.find_next(),
            (KeyModifiers::Shift, KeyCode::F(3)) => self.find_previous(),
            (KeyModifiers::Unmodified, KeyCode::F(9)) => self.toggle_metadata_mode(),
            (KeyModifiers::Unmodified, KeyCode::PageUp) => self.page_up(),
            (KeyModifiers::Unmodified, KeyCode::PageDown) => self.page_down(),
            (KeyModifiers::Unmodified, KeyCode::Up) => self.move_up(),
            (KeyModifiers::Unmodified, KeyCode::Down) => self.move_down(),
            _ => {
                if self.is_text_key(key) {
                    self.handle_input_at(key, now);
                } else {
                    match (key.modifiers, key.code) {
                        (KeyModifiers::Unmodified, KeyCode::Char('k')) => self.move_up(),
                        (KeyModifiers::Unmodified, KeyCode::Char('j')) => self.move_down(),
                        (KeyModifiers::Unmodified, KeyCode::Home) => self.go_to_first(),
                        (KeyModifiers::Unmodified, KeyCode::End) => self.go_to_last(),
                        (KeyModifiers::Unmodified, KeyCode::Enter) => self.begin_edit(),
                        (KeyModifiers::Unmodified, KeyCode::Char('i')) => self.begin_edit(),
                        _ => {
                            if self.editing || self.search_mode {
                                self.handle_input_at(key, now);
                            }
                        },
                    }
                }
            },
        }
        Action::Continue
    }

    /// Tells whether the key press writes the revision date, so that the
    /// time has to be read.
    fn key_dates(&self, key: KeyEvent) -> (r: bool)
        requires
            self.wf(),
        ensures
            r == self@.key_dates(key),
    {
        match (key.modifiers, key.code) {
            (KeyModifiers::Control, KeyCode::Char('q')) => false,
            (KeyModifiers::Control, KeyCode::Char('s')) => false,
            (KeyModifiers::ControlShift, KeyCode::Char('p')) => self.commit_dates(),
            (KeyModifiers::Control, KeyCode::Char('f')) => false,
            (KeyModifiers::Control, KeyCode::Char('u')) => false,
            (KeyModifiers::Control, KeyCode::Char('z')) => false,
            (KeyModifiers::Control, KeyCode::Char('d')) => self.may_change_status(),
            (KeyModifiers::Control, KeyCode::Char('t')) => self.may_change_status(),
            (KeyModifiers::Unmodified, KeyCode::Esc) => false,
            (KeyModifiers::Unmodified, KeyCode::Tab) => false,
            (KeyModifiers::Shift, KeyCode::BackTab) => false,
            (KeyModifiers::Unmodified, KeyCode::F(1)) => false,
            (KeyModifiers::Unmodified, KeyCode::F(2)) => self.may_change_status(),
            (KeyModifiers::Unmodified, KeyCode::F(3)) => false,
            (KeyModifiers::Shift, KeyCode::F(3)) => false,
            (KeyModifiers::Unmodified, KeyCode::F(9)) => false,
            (KeyModifiers::Unmodified, KeyCode::PageUp) => false,
            (KeyModifiers::Unmodified, KeyCode::PageDown) => false,
            (KeyModifiers::Unmodified, KeyCode::Up) => false,
            (KeyModifiers::Unmodified, KeyCode::Down) => false,
            _ => {
                if self.is_text_key(key) {
                    self.input_dates(key)
                } else {
                    match (key.modifiers, key.code) {
                        (KeyModifiers::Unmodified, KeyCode::Char('k')) => false,
                        (KeyModifiers::Unmodified, KeyCode::Char('j')) => false,
                        (KeyModifiers::Unmodified, KeyCode::Home) => false,
                        (KeyModifiers::Unmodified, KeyCode::End) => false,
                        (KeyModifiers::Unmodified, KeyCode::Enter) => false,
                        (KeyModifiers::Unmodified, KeyCode::Char('i')) => false,
                        _ => self.input_dates(key),
                    }
                }
            },
        }
    }

    /// What the caller has to do after the key press `key`.
    fn action_for(key: KeyEvent) -> (action: Action)
        ensures
            action == action_of(key),
    {
        match (key.modifiers, key.code) {
            (KeyModifiers::Control, KeyCode::Char('q')) => Action::Quit,
            (KeyModifiers::Control, KeyCode::Char('s')) => Action::Save,
            (KeyModifiers::ControlShift, KeyCode::Char('p')) => Action::Save,
            _ => Action::Continue,
        }
    }

    /// Handles one key press, as `handle_key_event_at`. The current time is
    /// read only where the key press writes the revision date; where the time
    /// cannot be read then, the state stays as it is.
    pub fn handle_key_event(&mut self, key: KeyEvent) -> (action: Action)
        requires
            old(self).wf(),
        ensures
            old(self)@.key_dates(key) ==> final(self)@ == old(self)@ || exists|now: Seq<char>|
                is_timestamp(now) && final(self)@ == old(self)@.handle_key_event(key, now),
            !old(self)@.key_dates(key) ==> forall|now: Seq<char>|
                final(self)@ == #[trigger] old(self)@.handle_key_event(key, now),
            action == action_of(key),
            final(self).po_file.path == old(self).po_file.path,
            final(self).wf(),
    {
        if self.key_dates(key) {
            match utc_timestamp() {
                Some(now) => {
                    let action = self.handle_key_event_at(key, now.as_str());
                    assert(is_timestamp(now@) && self@ == old(self)@.handle_key_event(key, now@));
                    action
                },
                None => App::action_for(key),
            }
        } else {
            let action = self.handle_key_event_at(key, "");
            proof {
                assert forall|now: Seq<char>|
                    self@ == #[trigger] old(self)@.handle_key_event(key, now) by {
                    lemma_key_timeless(old(self)@, key, now, ""@);
                }
            }
            action
        }
    }
}

} // verus!
