//! The editing session as a state machine: the state, and what each command
//! makes of it.

use crate::model::{assign, lookup, CatalogView, EntryView};
use crate::text::{contains, join, lowercase, text_lines};
use crate::ui::{Action, EditField, FilterMode, KeyCode, KeyEvent, KeyModifiers, Mode, PAGE_SIZE};
use vstd::prelude::*;

verus! {

/// The filter admits the entry.
pub open spec fn matches_filter(e: EntryView, mode: FilterMode) -> bool {
    match mode {
        FilterMode::All => true,
        FilterMode::Untranslated => !e.is_translated,
        FilterMode::Fuzzy => e.is_fuzzy,
    }
}

/// The query is empty, or occurs in the source text or in the translation,
/// upper and lower case taken as equal.
pub open spec fn matches_search(e: EntryView, query: Seq<char>) -> bool {
    query.len() == 0 || contains(lowercase(e.msgid), lowercase(query)) || contains(
        lowercase(e.msgstr),
        lowercase(query),
    )
}

/// The positions of the entries that the filter and the query admit, ascending.
pub open spec fn filtered(es: Seq<EntryView>, mode: FilterMode, query: Seq<char>) -> Seq<usize>
    decreases es.len(),
{
    if es.len() == 0 {
        seq![]
    } else {
        let before = filtered(es.drop_last(), mode, query);
        if matches_filter(es.last(), mode) && matches_search(es.last(), query) {
            before.push((es.len() - 1) as usize)
        } else {
            before
        }
    }
}

/// `filtered` holds exactly the admitted positions, each once, in ascending order.
pub proof fn lemma_filtered(es: Seq<EntryView>, mode: FilterMode, query: Seq<char>)
    requires
        es.len() <= usize::MAX,
    ensures
        forall|k: int|
            0 <= k < filtered(es, mode, query).len() ==> {
                let i = #[trigger] filtered(es, mode, query)[k];
                i < es.len() && matches_filter(es[i as int], mode) && matches_search(
                    es[i as int],
                    query,
                )
            },
        forall|k: int, l: int|
            0 <= k < l < filtered(es, mode, query).len() ==> filtered(es, mode, query)[k]
                < filtered(es, mode, query)[l],
        forall|i: int|
            0 <= i < es.len() && matches_filter(es[i], mode) && matches_search(es[i], query)
                ==> filtered(es, mode, query).contains(i as usize),
        filtered(es, mode, query).len() <= es.len(),
    decreases es.len(),
{
    if es.len() > 0 {
        let t = es.drop_last();
        lemma_filtered(t, mode, query);
        let f = filtered(es, mode, query);
        let b = filtered(t, mode, query);
        assert forall|i: int|
            0 <= i < es.len() && matches_filter(es[i], mode) && matches_search(
                es[i],
                query,
            ) implies f.contains(i as usize) by {
            if i < es.len() - 1 {
                assert(t[i] == es[i]);
                assert(b.contains(i as usize));
                let k = choose|k: int| 0 <= k < b.len() && b[k] == i as usize;
                assert(f[k] == i as usize);
            } else {
                assert(f[f.len() - 1] == i as usize);
            }
        }
        assert forall|k: int| 0 <= k < f.len() implies {
            let i = #[trigger] f[k];
            i < es.len() && matches_filter(es[i as int], mode) && matches_search(
                es[i as int],
                query,
            )
        } by {
            if k < b.len() {
                assert(f[k] == b[k]);
                assert(t[b[k] as int] == es[b[k] as int]);
            }
        }
    }
}

/// The state of an editing session.
pub struct AppView {
    pub po_file: CatalogView,
    pub current_entry: int,
    pub editing: bool,
    pub edit_field: EditField,
    pub edit_text: Seq<char>,
    pub edit_cursor: int,
    pub search_mode: bool,
    pub search_query: Seq<char>,
    pub search_cursor: int,
    pub filter_mode: FilterMode,
    pub filtered_indices: Seq<usize>,
    pub help_visible: bool,
    pub metadata_mode: bool,
    pub metadata_key: Seq<char>,
    pub metadata_keys: Seq<Seq<char>>,
    pub metadata_selected: int,
}

/// The smaller of two numbers.
pub open spec fn least(a: int, b: int) -> int {
    if a <= b {
        a
    } else {
        b
    }
}

/// The entries with the status of each derived anew.
pub open spec fn normalized(es: Seq<EntryView>) -> Seq<EntryView> {
    Seq::new(es.len(), |i: int| es[i].with_status())
}

impl AppView {
    /// The state that a session on `catalog` starts in: every entry in view,
    /// the first one selected, the translation as the current field.
    pub open spec fn initial(catalog: CatalogView) -> AppView {
        (AppView {
            po_file: CatalogView { entries: normalized(catalog.entries), ..catalog },
            current_entry: 0,
            editing: false,
            edit_field: EditField::Msgstr,
            edit_text: seq![],
            edit_cursor: 0,
            search_mode: false,
            search_query: seq![],
            search_cursor: 0,
            filter_mode: FilterMode::All,
            filtered_indices: seq![],
            help_visible: false,
            metadata_mode: false,
            metadata_key: seq![],
            metadata_keys: metadata_keys(),
            metadata_selected: 0,
        }).refreshed()
    }

    /// What every command relies on and keeps: the view names entries of the
    /// catalog, the selection lies in the view unless the view is empty, the
    /// cursors lie in their texts, a header key is selected, and the status of
    /// every entry is what its translation and flags imply.
    pub open spec fn wf(self) -> bool {
        &&& forall|k: int|
            0 <= k < self.filtered_indices.len() ==> (#[trigger] self.filtered_indices[k])
                < self.po_file.entries.len()
        &&& 0 <= self.current_entry
        &&& self.filtered_indices.len() > 0 ==> self.current_entry < self.filtered_indices.len()
        &&& 0 <= self.edit_cursor <= self.edit_text.len()
        &&& 0 <= self.search_cursor <= self.search_query.len()
        &&& 0 <= self.metadata_selected < self.metadata_keys.len()
        &&& forall|i: int|
            0 <= i < self.po_file.entries.len() ==> (#[trigger] self.po_file.entries[i]).status_ok()
    }

    /// What the session is busy with. Search input comes before editing where
    /// both are on.
    pub open spec fn mode(self) -> Mode {
        if self.search_mode {
            Mode::SearchInput
        } else if self.editing {
            if self.edit_field == EditField::Metadata {
                Mode::EditingMetadata
            } else {
                Mode::EditingField(self.edit_field)
            }
        } else {
            Mode::Browsing
        }
    }

    /// The view shows no entry.
    pub open spec fn view_is_empty(self) -> bool {
        self.filtered_indices.len() == 0
    }

    /// The position in the catalog of the selected entry.
    pub open spec fn selected_index(self) -> int {
        self.filtered_indices[self.current_entry] as int
    }

    /// The selected entry.
    pub open spec fn selected(self) -> EntryView {
        self.po_file.entries[self.selected_index()]
    }

    /// The state with the view computed anew from filter and query, and the
    /// selection moved into it.
    pub open spec fn refreshed(self) -> AppView {
        let f = filtered(self.po_file.entries, self.filter_mode, self.search_query);
        AppView {
            filtered_indices: f,
            current_entry: if f.len() > 0 && self.current_entry >= f.len() {
                f.len() - 1
            } else {
                self.current_entry
            },
            ..self
        }
    }

    /// The state with another entry selected.
    pub open spec fn select(self, i: int) -> AppView {
        AppView { current_entry: i, ..self }
    }

    /// Selects the next entry of the view; the last one stays selected.
    pub open spec fn next_entry(self) -> AppView {
        if self.view_is_empty() {
            self
        } else {
            self.select(least(self.current_entry + 1, self.filtered_indices.len() - 1))
        }
    }

    /// Selects the entry before the selected one; the first one stays selected.
    pub open spec fn previous_entry(self) -> AppView {
        if self.view_is_empty() || self.current_entry == 0 {
            self
        } else {
            self.select(self.current_entry - 1)
        }
    }

    /// Moves the selection one page up, to the first entry at most.
    pub open spec fn page_up(self) -> AppView {
        if self.view_is_empty() {
            self
        } else if self.current_entry >= PAGE_SIZE {
            self.select(self.current_entry - PAGE_SIZE)
        } else {
            self.select(0)
        }
    }

    /// Moves the selection one page down, to the last entry at most.
    pub open spec fn page_down(self) -> AppView {
        if self.view_is_empty() {
            self
        } else {
            self.select(least(self.current_entry + PAGE_SIZE, self.filtered_indices.len() - 1))
        }
    }

    /// Selects the first entry of the view.
    pub open spec fn go_to_first(self) -> AppView {
        if self.view_is_empty() {
            self
        } else {
            self.select(0)
        }
    }

    /// Selects the last entry of the view.
    pub open spec fn go_to_last(self) -> AppView {
        if self.view_is_empty() {
            self
        } else {
            self.select(self.filtered_indices.len() - 1)
        }
    }

    /// The text of the selected entry that an edit of the current field starts from.
    pub open spec fn field_text(self) -> Seq<char> {
        match self.edit_field {
            EditField::Msgid => self.selected().msgid,
            EditField::Msgstr => self.selected().msgstr,
            EditField::Comments => join(self.selected().comments, "\n"@),
            EditField::Metadata => seq![],
        }
    }

    /// The state with an edit begun on `text`, the cursor behind its last character.
    pub open spec fn editing_text(self, text: Seq<char>) -> AppView {
        AppView { editing: true, edit_text: text, edit_cursor: text.len() as int, ..self }
    }

    /// Begins an edit of the current field of the selected entry. Nothing
    /// happens on an empty view, during search input, or while editing.
    pub open spec fn start_editing(self) -> AppView {
        if !self.view_is_empty() && !self.search_mode && !self.editing {
            self.editing_text(self.field_text())
        } else {
            self
        }
    }

    /// The selected entry with the edit buffer written into the current field.
    pub open spec fn edited_entry(self) -> EntryView {
        let e = self.selected();
        match self.edit_field {
            EditField::Msgid => EntryView { msgid: self.edit_text, ..e },
            EditField::Msgstr => e.set_msgstr(self.edit_text),
            EditField::Comments => EntryView { comments: text_lines(self.edit_text), ..e },
            EditField::Metadata => e,
        }
    }

    /// An edit of a header field is under way that a commit writes and dates.
    pub open spec fn commit_dates(self) -> bool {
        self.editing && self.edit_field == EditField::Metadata && self.metadata_mode
            && self.metadata_key.len() > 0
    }

    /// Writes the edit buffer into the current field of the selected entry,
    /// after which the catalog counts as changed. Nothing happens where no
    /// edit of an entry is under way or the view is empty.
    pub open spec fn commit_field(self) -> AppView {
        if self.editing && self.edit_field != EditField::Metadata && !self.view_is_empty() {
            AppView {
                po_file: self.po_file.with_entry(self.selected_index(), self.edited_entry()),
                ..self
            }
        } else {
            self
        }
    }

    /// Writes the edit buffer where it belongs: into the header field being
    /// edited, with the revision date set to `now`, or into the current field
    /// of the selected entry. The catalog then counts as changed. Nothing
    /// happens where no edit is under way.
    pub open spec fn commit(self, now: Seq<char>) -> AppView {
        if self.commit_dates() {
            AppView {
                po_file: (CatalogView {
                    header: assign(self.po_file.header, self.metadata_key, self.edit_text),
                    ..self.po_file
                }).dated(now),
                ..self
            }
        } else {
            self.commit_field()
        }
    }

    /// Ends an edit. What was typed is dropped and the catalog stays as it
    /// is; only an edit of the comments is kept, since it has no other way to
    /// end. Where no edit is under way, ends search input.
    pub open spec fn stop_editing(self) -> AppView {
        if self.editing && self.edit_field == EditField::Comments {
            AppView { editing: false, ..self.commit_field() }
        } else {
            self.cancel_editing()
        }
    }

    /// Ends an edit and drops what was typed; where no edit is under way,
    /// ends search input. The catalog stays as it is.
    pub open spec fn cancel_editing(self) -> AppView {
        if self.editing {
            AppView { editing: false, edit_text: seq![], edit_cursor: 0, ..self }
        } else if self.search_mode {
            AppView { search_mode: false, ..self }
        } else {
            self
        }
    }

    /// Makes the next field the current one: source text, translation,
    /// comments, and round again. Only while browsing the entries.
    pub open spec fn next_field(self) -> AppView {
        if !self.editing && !self.search_mode && !self.metadata_mode {
            AppView {
                edit_field: match self.edit_field {
                    EditField::Msgid => EditField::Msgstr,
                    EditField::Msgstr => EditField::Comments,
                    EditField::Comments => EditField::Msgid,
                    EditField::Metadata => EditField::Metadata,
                },
                ..self
            }
        } else {
            self
        }
    }

    /// Makes the previous field the current one. Only while browsing the entries.
    pub open spec fn previous_field(self) -> AppView {
        if !self.editing && !self.search_mode && !self.metadata_mode {
            AppView {
                edit_field: match self.edit_field {
                    EditField::Msgid => EditField::Comments,
                    EditField::Msgstr => EditField::Msgid,
                    EditField::Comments => EditField::Msgstr,
                    EditField::Metadata => EditField::Metadata,
                },
                ..self
            }
        } else {
            self
        }
    }

    /// Begins search input, the cursor behind the last character of the query.
    pub open spec fn start_search(self) -> AppView {
        AppView { search_mode: true, search_cursor: self.search_query.len() as int, ..self }
    }

    /// Computes the view anew and selects the next entry. Nothing happens
    /// without a query.
    pub open spec fn find_next(self) -> AppView {
        if self.search_query.len() > 0 {
            self.refreshed().next_entry()
        } else {
            self
        }
    }

    /// Computes the view anew and selects the entry before the selected one.
    /// Nothing happens without a query.
    pub open spec fn find_previous(self) -> AppView {
        if self.search_query.len() > 0 {
            self.refreshed().previous_entry()
        } else {
            self
        }
    }

    /// Shows the untranslated entries only, or all entries where that filter
    /// was on already; the view is computed anew.
    pub open spec fn toggle_untranslated_filter(self) -> AppView {
        (AppView {
            filter_mode: if self.filter_mode == FilterMode::Untranslated {
                FilterMode::All
            } else {
                FilterMode::Untranslated
            },
            ..self
        }).refreshed()
    }

    /// Shows the fuzzy entries only, or all entries where that filter was on
    /// already; the view is computed anew.
    pub open spec fn toggle_fuzzy_filter(self) -> AppView {
        (AppView {
            filter_mode: if self.filter_mode == FilterMode::Fuzzy {
                FilterMode::All
            } else {
                FilterMode::Fuzzy
            },
            ..self
        }).refreshed()
    }

    /// The state with a new query and cursor, the view computed anew and its
    /// first entry selected.
    pub open spec fn searching(self, query: Seq<char>, cursor: int) -> AppView {
        (AppView { search_query: query, search_cursor: cursor, ..self }).refreshed().select(0)
    }

    /// What a key does during search input.
    pub open spec fn search_input(self, code: KeyCode) -> AppView {
        match code {
            KeyCode::Char(c) => self.searching(
                self.search_query.insert(self.search_cursor, c),
                self.search_cursor + 1,
            ),
            KeyCode::Backspace => if self.search_cursor > 0 {
                self.searching(
                    self.search_query.remove(self.search_cursor - 1),
                    self.search_cursor - 1,
                )
            } else {
                self
            },
            KeyCode::Left => if self.search_cursor > 0 {
                AppView { search_cursor: self.search_cursor - 1, ..self }
            } else {
                self
            },
            KeyCode::Right => if self.search_cursor < self.search_query.len() {
                AppView { search_cursor: self.search_cursor + 1, ..self }
            } else {
                self
            },
            KeyCode::Enter => AppView { search_mode: false, ..self },
            _ => self,
        }
    }

    /// The state with another edit buffer and cursor.
    pub open spec fn typing(self, text: Seq<char>, cursor: int) -> AppView {
        AppView { edit_text: text, edit_cursor: cursor, ..self }
    }

    /// What a key does during an edit. Enter ends the edit and keeps what was
    /// typed, but in the comments it begins a new line.
    pub open spec fn edit_input(self, code: KeyCode, now: Seq<char>) -> AppView {
        match code {
            KeyCode::Char(c) => self.typing(
                self.edit_text.insert(self.edit_cursor, c),
                self.edit_cursor + 1,
            ),
            KeyCode::Backspace => if self.edit_cursor > 0 {
                self.typing(self.edit_text.remove(self.edit_cursor - 1), self.edit_cursor - 1)
            } else {
                self
            },
            KeyCode::Delete => if self.edit_cursor < self.edit_text.len() {
                self.typing(self.edit_text.remove(self.edit_cursor), self.edit_cursor)
            } else {
                self
            },
            KeyCode::Left => if self.edit_cursor > 0 {
                self.typing(self.edit_text, self.edit_cursor - 1)
            } else {
                self
            },
            KeyCode::Right => if self.edit_cursor < self.edit_text.len() {
                self.typing(self.edit_text, self.edit_cursor + 1)
            } else {
                self
            },
            KeyCode::Home => self.typing(self.edit_text, 0),
            KeyCode::End => self.typing(self.edit_text, self.edit_text.len() as int),
            KeyCode::Enter => if self.edit_field == EditField::Comments {
                self.typing(self.edit_text.insert(self.edit_cursor, '\n'), self.edit_cursor + 1)
            } else {
                AppView { editing: false, ..self.commit(now) }
            },
            _ => self,
        }
    }

    /// What a key does to the text being typed: the query during search
    /// input, else the edit buffer during an edit, else nothing.
    pub open spec fn handle_input(self, key: KeyEvent, now: Seq<char>) -> AppView {
        if self.search_mode {
            self.search_input(key.code)
        } else if self.editing {
            self.edit_input(key.code, now)
        } else {
            self
        }
    }

    /// Shows or hides the help.
    pub open spec fn toggle_help(self) -> AppView {
        AppView { help_visible: !self.help_visible, ..self }
    }

    /// Shows the header fields in place of the entries, or the entries
    /// again. Nothing happens during an edit.
    pub open spec fn toggle_metadata_mode(self) -> AppView {
        if self.editing {
            self
        } else {
            AppView {
                metadata_mode: !self.metadata_mode,
                edit_field: if !self.metadata_mode {
                    EditField::Metadata
                } else {
                    EditField::Msgstr
                },
                ..self
            }
        }
    }

    /// Begins an edit of the header field `key`, from its value or from the
    /// empty text where the header has no such field. Only in metadata mode.
    pub open spec fn start_metadata_editing(self, key: Seq<char>) -> AppView {
        if !self.metadata_mode {
            self
        } else {
            (AppView { metadata_key: key, ..self }).editing_text(
                match lookup(self.po_file.header, key) {
                    Some(v) => v,
                    None => seq![],
                },
            )
        }
    }

    /// Begins an edit of the selected header field. Only in metadata mode,
    /// and not during an edit.
    pub open spec fn start_editing_selected_metadata(self) -> AppView {
        if self.metadata_mode && !self.editing {
            self.start_metadata_editing(self.metadata_keys[self.metadata_selected])
        } else {
            self
        }
    }

    /// Selects the next header field; the last one stays selected.
    pub open spec fn metadata_next(self) -> AppView {
        if self.metadata_mode && !self.editing && self.metadata_selected + 1
            < self.metadata_keys.len() {
            AppView { metadata_selected: self.metadata_selected + 1, ..self }
        } else {
            self
        }
    }

    /// Selects the header field before the selected one; the first one stays
    /// selected.
    pub open spec fn metadata_previous(self) -> AppView {
        if self.metadata_mode && !self.editing && self.metadata_selected > 0 {
            AppView { metadata_selected: self.metadata_selected - 1, ..self }
        } else {
            self
        }
    }

    /// A status command may act: an entry is selected, it has a translation,
    /// and neither an edit nor search input is under way.
    pub open spec fn may_change_status(self) -> bool {
        !self.view_is_empty() && !self.editing && !self.search_mode && self.selected().msgstr.len()
            > 0
    }

    /// The state with the selected entry replaced and the catalog revised at `now`.
    pub open spec fn with_selected(self, e: EntryView, now: Seq<char>) -> AppView {
        AppView { po_file: self.po_file.with_entry(self.selected_index(), e).dated(now), ..self }
    }

    /// Sets or clears `fuzzy` on the selected entry and revises the catalog
    /// at `now`, where a status command may act.
    pub open spec fn toggle_current_entry_fuzzy(self, now: Seq<char>) -> AppView {
        if self.may_change_status() {
            self.with_selected(self.selected().toggle_fuzzy(), now)
        } else {
            self
        }
    }

    /// Clears `fuzzy` on the selected entry and revises the catalog at `now`,
    /// where a status command may act.
    pub open spec fn mark_current_entry_done(self, now: Seq<char>) -> AppView {
        if self.may_change_status() {
            self.with_selected(self.selected().mark_done(), now)
        } else {
            self
        }
    }

    /// A key that types or moves in the text while text is being typed.
    pub open spec fn is_text_key(self, key: KeyEvent) -> bool {
        &&& self.editing || self.search_mode
        &&& key.modifiers == KeyModifiers::Unmodified || key.modifiers == KeyModifiers::Shift
        &&& key.code is Char || key.code == KeyCode::Enter || key.code == KeyCode::Home || key.code
            == KeyCode::End || key.code == KeyCode::Backspace || key.code == KeyCode::Delete
            || key.code == KeyCode::Left || key.code == KeyCode::Right
    }

    /// What Esc does: it closes the help where that is shown, and does no
    /// more; else it ends an edit or search input.
    pub open spec fn escape(self) -> AppView {
        if self.help_visible {
            self.toggle_help()
        } else {
            self.stop_editing()
        }
    }

    /// The key ends an edit of a header field that is then written and dated.
    pub open spec fn input_dates(self, key: KeyEvent) -> bool {
        !self.search_mode && key.code == KeyCode::Enter && self.commit_dates()
    }

    /// The key press writes the revision date, so the time has to be read.
    pub open spec fn key_dates(self, key: KeyEvent) -> bool {
        match (key.modifiers, key.code) {
            (KeyModifiers::Control, KeyCode::Char('q')) => false,
            (KeyModifiers::Control, KeyCode::Char('s')) => false,
            (KeyModifiers::ControlShift, KeyCode::Char('p')) => self.commit_dates(),
            (KeyModifiers::Control, KeyCode::Char('f')) => false,
            (KeyModifiers::Control, KeyCode::Char('u')) => false,
            (KeyModifiers::Control, KeyCode::Char('z')) => false,
            (KeyModifiers::Control, KeyCode::Char('d')) => self.may_change_status(),
            (KeyModifiers::Control, KeyCode::Char('t')) => self.may_change_status(),
            (KeyModifiers::Unmodified, KeyCode::Esc) => false,
            (KeyModifiers::Unmodified, KeyCode::Tab) => false,
            (KeyModifiers::Shift, KeyCode::BackTab) => false,
            (KeyModifiers::Unmodified, KeyCode::F(1)) => false,
            (KeyModifiers::Unmodified, KeyCode::F(2)) => self.may_change_status(),
            (KeyModifiers::Unmodified, KeyCode::F(3)) => false,
            (KeyModifiers::Shift, KeyCode::F(3)) => false,
            (KeyModifiers::Unmodified, KeyCode::F(9)) => false,
            (KeyModifiers::Unmodified, KeyCode::PageUp) => false,
            (KeyModifiers::Unmodified, KeyCode::PageDown) => false,
            (KeyModifiers::Unmodified, KeyCode::Up) => false,
            (KeyModifiers::Unmodified, KeyCode::Down) => false,
            _ => if self.is_text_key(key) {
                self.input_dates(key)
            } else {
                match (key.modifiers, key.code) {
                    (KeyModifiers::Unmodified, KeyCode::Char('k')) => false,
                    (KeyModifiers::Unmodified, KeyCode::Char('j')) => false,
                    (KeyModifiers::Unmodified, KeyCode::Home) => false,
                    (KeyModifiers::Unmodified, KeyCode::End) => false,
                    (KeyModifiers::Unmodified, KeyCode::Enter) => false,
                    (KeyModifiers::Unmodified, KeyCode::Char('i')) => false,
                    _ => self.input_dates(key),
                }
            },
        }
    }

    /// What a key press makes of the state.
    pub open spec fn handle_key_event(self, key: KeyEvent, now: Seq<char>) -> AppView {
        match (key.modifiers, key.code) {
            (KeyModifiers::Control, KeyCode::Char('q')) => self,
            (KeyModifiers::Control, KeyCode::Char('s')) => self,
            (KeyModifiers::ControlShift, KeyCode::Char('p')) => self.commit(now),
            (KeyModifiers::Control, KeyCode::Char('f')) => self.start_search(),
            (KeyModifiers::Control, KeyCode::Char('u')) => self.toggle_untranslated_filter(),
            (KeyModifiers::Control, KeyCode::Char('z')) => self.toggle_fuzzy_filter(),
            (KeyModifiers::Control, KeyCode::Char('d')) => self.mark_current_entry_done(now),
            (KeyModifiers::Control, KeyCode::Char('t')) => self.toggle_current_entry_fuzzy(now),
            (KeyModifiers::Unmodified, KeyCode::Esc) => self.escape(),
            (KeyModifiers::Unmodified, KeyCode::Tab) => self.next_field(),
            (KeyModifiers::Shift, KeyCode::BackTab) => self.previous_field(),
            (KeyModifiers::Unmodified, KeyCode::F(1)) => self.toggle_help(),
            (KeyModifiers::Unmodified, KeyCode::F(2)) => self.toggle_current_entry_fuzzy(now),
            (KeyModifiers::Unmodified, KeyCode::F(3)) => self.find_next(),
            (KeyModifiers::Shift, KeyCode::F(3)) => self.find_previous(),
            (KeyModifiers::Unmodified, KeyCode::F(9)) => self.toggle_metadata_mode(),
            (KeyModifiers::Unmodified, KeyCode::PageUp) => self.page_up(),
            (KeyModifiers::Unmodified, KeyCode::PageDown) => self.page_down(),
            (KeyModifiers::Unmodified, KeyCode::Up) => self.move_up(),
            (KeyModifiers::Unmodified, KeyCode::Down) => self.move_down(),
            _ => if self.is_text_key(key) {
                self.handle_input(key, now)
            } else {
                match (key.modifiers, key.code) {
                    (KeyModifiers::Unmodified, KeyCode::Char('k')) => self.move_up(),
                    (KeyModifiers::Unmodified, KeyCode::Char('j')) => self.move_down(),
                    (KeyModifiers::Unmodified, KeyCode::Home) => self.go_to_first(),
                    (KeyModifiers::Unmodified, KeyCode::End) => self.go_to_last(),
                    (KeyModifiers::Unmodified, KeyCode::Enter) => self.begin_edit(),
                    (KeyModifiers::Unmodified, KeyCode::Char('i')) => self.begin_edit(),
                    _ => if self.editing || self.search_mode {
                        self.handle_input(key, now)
                    } else {
                        self
                    },
                }
            },
        }
    }

    /// One step up: in the header keys in metadata mode, else in the view.
    pub open spec fn move_up(self) -> AppView {
        if self.metadata_mode {
            self.metadata_previous()
        } else {
            self.previous_entry()
        }
    }

    /// One step down: in the header keys in metadata mode, else in the view.
    pub open spec fn move_down(self) -> AppView {
        if self.metadata_mode {
            self.metadata_next()
        } else {
            self.next_entry()
        }
    }

    /// Begins an edit: of the selected header key in metadata mode, else of
    /// the current field of the selected entry.
    pub open spec fn begin_edit(self) -> AppView {
        if self.metadata_mode {
            self.start_editing_selected_metadata()
        } else {
            self.start_editing()
        }
    }
}

/// Where a key does not end an edit that is dated, what it does to the text
/// being typed is the same at any time.
pub proof fn lemma_input_timeless(v: AppView, key: KeyEvent, a: Seq<char>, b: Seq<char>)
    requires
        !v.input_dates(key),
    ensures
        v.handle_input(key, a) == v.handle_input(key, b),
{
}

/// Where a key press does not write the revision date, what it makes of the
/// state is the same at any time.
pub proof fn lemma_key_timeless(v: AppView, key: KeyEvent, a: Seq<char>, b: Seq<char>)
    requires
        !v.key_dates(key),
    ensures
        v.handle_key_event(key, a) == v.handle_key_event(key, b),
{
    if !v.input_dates(key) {
        lemma_input_timeless(v, key, a, b);
    }
}

/// What the caller has to do after a key press.
pub open spec fn action_of(key: KeyEvent) -> Action {
    match (key.modifiers, key.code) {
        (KeyModifiers::Control, KeyCode::Char('q')) => Action::Quit,
        (KeyModifiers::Control, KeyCode::Char('s')) => Action::Save,
        (KeyModifiers::ControlShift, KeyCode::Char('p')) => Action::Save,
        _ => Action::Continue,
    }
}

/// The header keys that metadata mode offers, in the order shown.
pub open spec fn metadata_keys() -> Seq<Seq<char>> {
    seq![
        "Project-Id-Version"@,
        "Language"@,
        "Language-Team"@,
        "Last-Translator"@,
        "Report-Msgid-Bugs-To"@,
        "POT-Creation-Date"@,
        "PO-Revision-Date"@,
        "MIME-Version"@,
        "Content-Type"@,
        "Content-Transfer-Encoding"@,
        "Plural-Forms"@,
    ]
}

} // verus!
