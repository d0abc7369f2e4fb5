//! Laws that relate the operations of the library to one another.

use crate::model::{fuzzy, lemma_without, EntryView};
use crate::session::AppView;
use crate::text::{byte_offset, clamped};
use vstd::prelude::*;
use vstd::utf8::{
    encode_scalar, encode_utf8, encode_utf8_first_scalar, encode_utf8_valid_utf8,
    is_char_boundary, pop_first_scalar,
};

verus! {

/// Whatever the translation and the flags of an entry are, its status after
/// any of the operations that change them is the one they imply: fuzzy where
/// `fuzzy` is among the flags, translated where there is a translation and the
/// entry is not fuzzy.
pub proof fn lemma_status_is_derived(e: EntryView, msgstr: Seq<char>)
    ensures
        e.with_status().status_ok(),
        e.set_msgstr(msgstr).status_ok(),
        e.toggle_fuzzy().status_ok(),
        e.mark_done().status_ok(),
        e.cleared().status_ok(),
        e.with_status().is_fuzzy == e.flags.contains(fuzzy()),
        e.with_status().is_translated == (e.msgstr.len() > 0 && !e.flags.contains(fuzzy())),
{
}

/// Toggling `fuzzy` changes whether the entry is fuzzy, and marking an entry
/// done leaves it not fuzzy.
pub proof fn lemma_fuzzy_toggles(e: EntryView)
    ensures
        e.toggle_fuzzy().is_fuzzy == !e.flags.contains(fuzzy()),
        !e.mark_done().is_fuzzy,
{
    lemma_without(e.flags, fuzzy());
    if !e.has_fuzzy_flag() {
        let flags = e.flags.push(fuzzy());
        assert(flags[flags.len() - 1] == fuzzy());
    }
}

/// A character put into a text at a position and taken out at the same
/// position leaves the text as it was.
pub proof fn lemma_insert_then_remove(s: Seq<char>, at: int, c: char)
    requires
        0 <= at <= s.len(),
    ensures
        s.insert(at, c).remove(at) == s,
        s.insert(at, c).len() == s.len() + 1,
        s.insert(at, c)[at] == c,
{
    assert(s.insert(at, c).remove(at) =~= s);
}

/// The byte position of a character position is a character boundary of the
/// text in UTF-8: it never lies inside the bytes of one character.
pub proof fn lemma_byte_offset_is_boundary(s: Seq<char>, n: int)
    requires
        0 <= n,
    ensures
        is_char_boundary(encode_utf8(s), byte_offset(s, n)),
        0 <= byte_offset(s, n) <= encode_utf8(s).len(),
    decreases s.len(),
{
    let bytes = encode_utf8(s);
    let m = clamped(n, s.len() as int);
    encode_utf8_valid_utf8(s);
    assert(s =~= s.take(m) + s.skip(m));
    crate::text::lemma_encode_concat(s.take(m), s.skip(m));
    if m == 0 {
        assert(s.take(0) =~= Seq::<char>::empty());
    } else {
        let rest = s.drop_first();
        encode_utf8_first_scalar(s);
        assert(pop_first_scalar(bytes) =~= encode_utf8(rest));
        lemma_byte_offset_is_boundary(rest, n - 1);
        assert(s.take(m) =~= seq![s[0]] + rest.take(m - 1));
        crate::text::lemma_encode_concat(seq![s[0]], rest.take(m - 1));
        assert(seq![s[0]].drop_first() =~= Seq::<char>::empty());
        assert(encode_utf8(seq![s[0]].drop_first()) =~= Seq::<u8>::empty());
        assert(encode_utf8(seq![s[0]]) =~= encode_scalar(s[0] as u32));
        assert(clamped(n - 1, rest.len() as int) == m - 1);
        assert(byte_offset(s, n) == encode_scalar(s[0] as u32).len() + byte_offset(rest, n - 1));
    }
}

/// The status commands of a session leave the session as it is where the
/// selected entry has no translation: neither its flags nor its status change.
pub proof fn lemma_guarded_commands(v: AppView, now: Seq<char>)
    requires
        v.wf(),
        !v.view_is_empty(),
        v.selected().msgstr.len() == 0,
    ensures
        v.toggle_current_entry_fuzzy(now) == v,
        v.mark_current_entry_done(now) == v,
{
}

/// The status commands of a session do nothing during an edit or during
/// search input.
pub proof fn lemma_status_commands_wait(v: AppView, now: Seq<char>)
    requires
        v.editing || v.search_mode,
    ensures
        v.toggle_current_entry_fuzzy(now) == v,
        v.mark_current_entry_done(now) == v,
{
}

/// Stopping an edit leaves the catalog as it is, unless the comments are
/// being edited; either way no edit is under way afterwards.
pub proof fn lemma_stop_editing_discards(v: AppView)
    ensures
        !v.stop_editing().editing,
        !(v.editing && v.edit_field == crate::ui::EditField::Comments) ==> v.stop_editing().po_file
            == v.po_file,
{
}

} // verus!
