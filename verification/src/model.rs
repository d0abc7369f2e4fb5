//! The mathematical model of a catalog: what an entry, a header and a catalog
//! are, apart from how they are stored.

use vstd::prelude::*;

verus! {

/// The flag that marks a translation as needing review.
pub open spec fn fuzzy() -> Seq<char> {
    "fuzzy"@
}

/// `s` without the items equal to `x`, the others in their order.
pub open spec fn without(s: Seq<Seq<char>>, x: Seq<char>) -> Seq<Seq<char>>
    decreases s.len(),
{
    if s.len() == 0 {
        seq![]
    } else if s.last() == x {
        without(s.drop_last(), x)
    } else {
        without(s.drop_last(), x).push(s.last())
    }
}

/// Nothing equal to `x` is left in `without(s, x)`, and what is left was in `s`.
pub proof fn lemma_without(s: Seq<Seq<char>>, x: Seq<char>)
    ensures
        !without(s, x).contains(x),
        forall|y: Seq<char>| without(s, x).contains(y) ==> s.contains(y),
        !s.contains(x) ==> without(s, x) == s,
    decreases s.len(),
{
    if s.len() > 0 {
        let t = s.drop_last();
        lemma_without(t, x);
        assert forall|y: Seq<char>| without(s, x).contains(y) implies s.contains(y) by {
            let i = choose|i: int| 0 <= i < without(s, x).len() && without(s, x)[i] == y;
            if s.last() != x && i == without(s, x).len() - 1 {
                assert(s[s.len() - 1] == y);
            } else {
                assert(without(t, x)[i] == y);
                assert(t.contains(y));
                let j = choose|j: int| 0 <= j < t.len() && t[j] == y;
                assert(s[j] == y);
            }
        }
        if without(s, x).contains(x) {
            let i = choose|i: int| 0 <= i < without(s, x).len() && without(s, x)[i] == x;
            if s.last() != x && i < without(s, x).len() - 1 {
                assert(without(t, x)[i] == x);
            } else if s.last() == x {
                assert(without(t, x)[i] == x);
            }
        }
        if !s.contains(x) {
            assert(s[s.len() - 1] != x);
            if t.contains(x) {
                let j = choose|j: int| 0 <= j < t.len() && t[j] == x;
                assert(s[j] == x);
            }
            assert(t.push(s.last()) =~= s);
        }
    } else {
        assert(without(s, x) =~= s);
    }
}

/// One translatable unit.
pub struct EntryView {
    pub msgid: Seq<char>,
    pub msgstr: Seq<char>,
    pub msgctxt: Option<Seq<char>>,
    pub comments: Seq<Seq<char>>,
    pub extracted_comments: Seq<Seq<char>>,
    pub references: Seq<Seq<char>>,
    pub flags: Seq<Seq<char>>,
    pub is_fuzzy: bool,
    pub is_translated: bool,
}

impl EntryView {
    /// The entry with no text, no comments and no flags.
    pub open spec fn empty() -> EntryView {
        EntryView {
            msgid: seq![],
            msgstr: seq![],
            msgctxt: None,
            comments: seq![],
            extracted_comments: seq![],
            references: seq![],
            flags: seq![],
            is_fuzzy: false,
            is_translated: false,
        }
    }

    /// The flags hold `fuzzy`.
    pub open spec fn has_fuzzy_flag(self) -> bool {
        self.flags.contains(fuzzy())
    }

    /// The status fields say what the translation and the flags imply.
    pub open spec fn status_ok(self) -> bool {
        &&& self.is_fuzzy == self.has_fuzzy_flag()
        &&& self.is_translated == (self.msgstr.len() > 0 && !self.has_fuzzy_flag())
    }

    /// The entry with its status derived anew from the translation and the flags.
    pub open spec fn with_status(self) -> EntryView {
        EntryView {
            is_fuzzy: self.has_fuzzy_flag(),
            is_translated: self.msgstr.len() > 0 && !self.has_fuzzy_flag(),
            ..self
        }
    }

    /// The entry with another translation.
    pub open spec fn set_msgstr(self, msgstr: Seq<char>) -> EntryView {
        (EntryView { msgstr, ..self }).with_status()
    }

    /// The entry with `fuzzy` taken out where it was set, and appended where it was not.
    pub open spec fn toggle_fuzzy(self) -> EntryView {
        if self.has_fuzzy_flag() {
            (EntryView { flags: without(self.flags, fuzzy()), ..self }).with_status()
        } else {
            (EntryView { flags: self.flags.push(fuzzy()), ..self }).with_status()
        }
    }

    /// The entry with `fuzzy` taken out.
    pub open spec fn mark_done(self) -> EntryView {
        (EntryView { flags: without(self.flags, fuzzy()), ..self }).with_status()
    }

    /// The entry as a template leaves it: no translation, `fuzzy` taken out.
    pub open spec fn cleared(self) -> EntryView {
        (EntryView { msgstr: seq![], flags: without(self.flags, fuzzy()), ..self }).with_status()
    }
}

/// An entry that a template cleared has no translation and is neither fuzzy
/// nor translated.
pub proof fn lemma_cleared(e: EntryView)
    ensures
        e.cleared().msgstr.len() == 0,
        !e.cleared().flags.contains(fuzzy()),
        !e.cleared().is_fuzzy,
        !e.cleared().is_translated,
        e.cleared().status_ok(),
{
    lemma_without(e.flags, fuzzy());
}

/// Position of the first field of `h` named `key`, or `h.len()` where there is none.
pub open spec fn position(h: Seq<(Seq<char>, Seq<char>)>, key: Seq<char>) -> int
    decreases h.len(),
{
    if h.len() == 0 {
        0
    } else if h[0].0 == key {
        0
    } else {
        1 + position(h.drop_first(), key)
    }
}

/// The value of the field named `key`, if there is one.
pub open spec fn lookup(h: Seq<(Seq<char>, Seq<char>)>, key: Seq<char>) -> Option<Seq<char>> {
    let p = position(h, key);
    if 0 <= p < h.len() {
        Some(h[p].1)
    } else {
        None
    }
}

/// The header with `key` set to `value`: in place where the key was there,
/// at the end where it was not.
pub open spec fn assign(h: Seq<(Seq<char>, Seq<char>)>, key: Seq<char>, value: Seq<char>) -> Seq<
    (Seq<char>, Seq<char>),
> {
    let p = position(h, key);
    if 0 <= p < h.len() {
        h.update(p, (key, value))
    } else {
        h.push((key, value))
    }
}

/// No two fields have the same name.
pub open spec fn unique_keys(h: Seq<(Seq<char>, Seq<char>)>) -> bool {
    forall|i: int, j: int| 0 <= i < j < h.len() ==> h[i].0 != h[j].0
}

/// A position with no field named `key` before it, and one at it unless it is
/// the end, is `position`.
pub proof fn lemma_position_is(h: Seq<(Seq<char>, Seq<char>)>, key: Seq<char>, k: int)
    requires
        0 <= k <= h.len(),
        forall|j: int| 0 <= j < k ==> h[j].0 != key,
        k < h.len() ==> h[k].0 == key,
    ensures
        position(h, key) == k,
    decreases h.len(),
{
    if h.len() > 0 && h[0].0 != key {
        let t = h.drop_first();
        assert forall|j: int| 0 <= j < k - 1 implies t[j].0 != key by {
            assert(t[j] == h[j + 1]);
        }
        lemma_position_is(t, key, k - 1);
    }
}

/// `position` stays within the header and stops at the first field named `key`.
pub proof fn lemma_position_bounds(h: Seq<(Seq<char>, Seq<char>)>, key: Seq<char>)
    ensures
        0 <= position(h, key) <= h.len(),
        forall|j: int| 0 <= j < position(h, key) ==> h[j].0 != key,
        position(h, key) < h.len() ==> h[position(h, key)].0 == key,
    decreases h.len(),
{
    if h.len() > 0 && h[0].0 != key {
        let t = h.drop_first();
        lemma_position_bounds(t, key);
        assert forall|j: int| 0 <= j < position(h, key) implies h[j].0 != key by {
            if j > 0 {
                assert(h[j] == t[j - 1]);
            }
        }
    }
}

/// After a field is set it has that value, every other field has the value
/// it had, and names that were distinct stay distinct.
pub proof fn lemma_assign(h: Seq<(Seq<char>, Seq<char>)>, key: Seq<char>, value: Seq<char>)
    ensures
        unique_keys(h) ==> unique_keys(assign(h, key, value)),
        lookup(assign(h, key, value), key) == Some(value),
        forall|other: Seq<char>|
            other != key ==> lookup(assign(h, key, value), other) == lookup(h, other),
{
    lemma_position_bounds(h, key);
    let p = position(h, key);
    let g = assign(h, key, value);
    lemma_position_is(g, key, p);
    assert forall|other: Seq<char>| other != key implies lookup(g, other) == lookup(h, other) by {
        lemma_position_bounds(h, other);
        let q = position(h, other);
        if q < h.len() {
            lemma_position_is(g, other, q);
        } else {
            lemma_position_is(g, other, g.len() as int);
        }
    }
}

/// A catalog: its header fields in order, its entries in order, and whether it
/// has changes that were not saved.
pub struct CatalogView {
    pub header: Seq<(Seq<char>, Seq<char>)>,
    pub entries: Seq<EntryView>,
    pub modified: bool,
}

impl CatalogView {
    /// The catalog revised at `timestamp`, which counts as a change.
    pub open spec fn dated(self, timestamp: Seq<char>) -> CatalogView {
        CatalogView {
            header: assign(self.header, "PO-Revision-Date"@, timestamp),
            modified: true,
            ..self
        }
    }

    /// The catalog with the entry at position `i` replaced, which counts as a change.
    pub open spec fn with_entry(self, i: int, e: EntryView) -> CatalogView {
        CatalogView { entries: self.entries.update(i, e), modified: true, ..self }
    }
}

} // verus!
