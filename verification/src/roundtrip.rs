//! Writing a catalog and reading the text again gives the catalog back.
//!
//! The law holds of every catalog that the reader can give: `catalog_shape`
//! says what such a catalog looks like, `lemma_parsed_has_shape` that the
//! reader gives no other, and `lemma_round_trip` that reading the text of such
//! a catalog gives the same header fields in the same order, the same entries
//! in the same order, and reports nothing.

use crate::escape::{
    escape, escape_char, lemma_escape_concat, lemma_escape_no_newline, lemma_unescape_escape,
    quoted_body,
};
use crate::model::{
    assign, lemma_assign, lemma_position_is, position, unique_keys, EntryView,
};
use crate::parser::{
    add_header_line, add_meta, after, flag_list, is_continuation, is_meta_line, keyword_value,
    literal_value, merge_lines, parse_block, parse_from, parse_lines, parse_text, reported,
    scan_field, scan_literals, scan_meta, Block, FieldScan, ParseError, ParseErrorKind, Parsed,
};
use crate::serializer::{
    catalog_lines, context_lines, entries_lines, entry_lines, field_lines, flag_lines,
    header_line, header_lines, join_flags, join_lines, lemma_join_concat, quoted_line, serialize,
    with_prefix,
};
use crate::text::{
    index_of, is_space, is_trimmed, join, lemma_index_of_bounds, lemma_index_of_is,
    lemma_last_index_of_is, lines, trim, trim_end, trim_start, trimmed_lines,
};
use vstd::prelude::*;

verus! {

/// `c` does not occur in `s`.
pub open spec fn no_char(s: Seq<char>, c: char) -> bool {
    forall|i: int| 0 <= i < s.len() ==> s[i] != c
}

/// A text as a comment line holds it: trimmed, and within one line.
pub open spec fn is_plain(s: Seq<char>) -> bool {
    is_trimmed(s) && no_char(s, '\n')
}

/// Every item is a text as a comment line holds it.
pub open spec fn all_plain(items: Seq<Seq<char>>) -> bool {
    forall|i: int| 0 <= i < items.len() ==> is_plain(#[trigger] items[i])
}

/// A flag as a flag line holds it: trimmed, within one line, without a comma.
pub open spec fn is_flag(s: Seq<char>) -> bool {
    is_plain(s) && no_char(s, ',')
}

/// Every item is a flag as a flag line holds it.
pub open spec fn all_flags(items: Seq<Seq<char>>) -> bool {
    forall|i: int| 0 <= i < items.len() ==> is_flag(#[trigger] items[i])
}

/// An entry as the reader gives it: a source text, comments and flags as
/// their lines hold them, and the status that translation and flags imply.
pub open spec fn entry_shape(e: EntryView) -> bool {
    &&& e.msgid.len() > 0
    &&& all_plain(e.comments)
    &&& all_plain(e.extracted_comments)
    &&& all_plain(e.references)
    &&& all_flags(e.flags)
    &&& e.status_ok()
}

/// A header as the reader gives it: distinct names without a colon, and
/// names and values trimmed and within one line.
pub open spec fn header_shape(h: Seq<(Seq<char>, Seq<char>)>) -> bool {
    &&& unique_keys(h)
    &&& forall|i: int|
        0 <= i < h.len() ==> is_plain((#[trigger] h[i]).0) && no_char(h[i].0, ':') && is_plain(
            h[i].1,
        )
}

/// A catalog as the reader gives it.
pub open spec fn catalog_shape(h: Seq<(Seq<char>, Seq<char>)>, es: Seq<EntryView>) -> bool {
    &&& header_shape(h)
    &&& forall|i: int| 0 <= i < es.len() ==> entry_shape(#[trigger] es[i])
}

/// The lines `block` stand in `ls` from line `i` on.
spec fn stands_at(ls: Seq<Seq<char>>, i: int, block: Seq<Seq<char>>) -> bool {
    &&& 0 <= i
    &&& i + block.len() <= ls.len()
    &&& forall|j: int| 0 <= j < block.len() ==> ls[i + j] == #[trigger] block[j]
}

/// Each line trimmed.
spec fn trimmed(ls: Seq<Seq<char>>) -> Seq<Seq<char>> {
    ls.map_values(|l: Seq<char>| trim(l))
}

/// A trimmed text is its own trimmed form.
proof fn lemma_trim_trimmed(s: Seq<char>)
    requires
        is_trimmed(s),
    ensures
        trim(s) == s,
{
}

/// A space before a trimmed text is trimmed away.
proof fn lemma_trim_after_space(s: Seq<char>)
    requires
        is_trimmed(s),
    ensures
        trim(seq![' '] + s) == s,
{
    let t = seq![' '] + s;
    assert(t.drop_first() =~= s);
    assert(is_space(' '));
    assert(t[0] == ' ');
    assert(trim_start(s) == s);
    assert(trim_start(t) == trim_start(t.drop_first()));
    assert(trim_end(s) == s);
}

/// White space behind a text does not change its trimmed form.
proof fn lemma_trim_ignores_tail(s: Seq<char>, w: Seq<char>)
    requires
        forall|i: int| 0 <= i < w.len() ==> is_space(w[i]),
    ensures
        trim(s + w) == trim(s),
    decreases s.len(), w.len(),
{
    if s.len() > 0 && is_space(s[0]) {
        assert((s + w).drop_first() =~= s.drop_first() + w);
        lemma_trim_ignores_tail(s.drop_first(), w);
    } else if w.len() == 0 {
        assert(s + w =~= s);
    } else if s.len() == 0 {
        assert(s + w =~= w);
        lemma_all_space(w);
    } else {
        assert((s + w)[0] == s[0]);
        assert(trim_start(s + w) == s + w);
        assert((s + w).last() == w.last());
        assert((s + w).drop_last() =~= s + w.drop_last());
        lemma_trim_ignores_tail(s, w.drop_last());
    }
}

/// A text of white space alone trims to nothing.
proof fn lemma_all_space(w: Seq<char>)
    requires
        forall|i: int| 0 <= i < w.len() ==> is_space(w[i]),
    ensures
        trim_start(w) == Seq::<char>::empty(),
        trim(w) == Seq::<char>::empty(),
    decreases w.len(),
{
    if w.len() > 0 {
        lemma_all_space(w.drop_first());
    } else {
        assert(w =~= Seq::<char>::empty());
    }
}

/// One line joined is the line and a line feed before the rest.
proof fn lemma_join_front(l: Seq<char>, t: Seq<Seq<char>>)
    ensures
        join_lines(seq![l] + t) == l + seq!['\n'] + join_lines(t),
{
    lemma_join_concat(seq![l], t);
    assert(seq![l].drop_last() =~= Seq::<Seq<char>>::empty());
    assert(join_lines(seq![l].drop_last()) =~= Seq::<char>::empty());
    assert(seq![l].last() == l);
    assert(join_lines(seq![l]) =~= l + seq!['\n']);
}

/// The lines of joined lines are those lines, where none holds a line feed.
proof fn lemma_lines_of_joined(ls: Seq<Seq<char>>)
    requires
        forall|i: int| 0 <= i < ls.len() ==> no_char(#[trigger] ls[i], '\n'),
    ensures
        lines(join_lines(ls)) == ls,
    decreases ls.len(),
{
    if ls.len() > 0 {
        let l = ls[0];
        let t = ls.drop_first();
        assert(ls =~= seq![l] + t);
        lemma_join_front(l, t);
        let s = join_lines(ls);
        assert(no_char(l, '\n'));
        assert forall|j: int| 0 <= j < l.len() implies s[j] != '\n' by {
            assert(s[j] == l[j]);
        }
        assert(s[l.len() as int] == '\n');
        lemma_index_of_is(s, '\n', l.len() as int);
        assert(s.take(l.len() as int) =~= l);
        assert(s.skip(l.len() as int + 1) =~= join_lines(t));
        assert forall|i: int| 0 <= i < t.len() implies no_char(#[trigger] t[i], '\n') by {
            assert(t[i] == ls[i + 1]);
        }
        lemma_lines_of_joined(t);
    } else {
        assert(join_lines(ls) =~= Seq::<char>::empty());
    }
}

/// What trimming its end leaves of a text is a prefix of it that does not end
/// in white space; what it takes away is white space alone.
proof fn lemma_trim_end_split(s: Seq<char>)
    ensures
        trim_end(s).len() <= s.len(),
        s.take(trim_end(s).len() as int) == trim_end(s),
        forall|i: int| trim_end(s).len() <= i < s.len() ==> is_space(s[i]),
        trim_end(s).len() > 0 ==> !is_space(trim_end(s).last()),
    decreases s.len(),
{
    if s.len() > 0 && is_space(s.last()) {
        let t = s.drop_last();
        lemma_trim_end_split(t);
        let n = trim_end(s).len() as int;
        assert(s.take(n) =~= t.take(n));
        assert forall|i: int| n <= i < s.len() implies is_space(s[i]) by {
            if i < t.len() {
                assert(s[i] == t[i]);
            }
        }
    } else {
        assert(s.take(s.len() as int) =~= s);
    }
}

/// A line made of a prefix, a space and a trimmed text: trimmed, it is the
/// prefix alone where the text is empty, else the line itself; and what
/// follows the prefix trims to the text.
proof fn lemma_prefixed_line(p: Seq<char>, c: Seq<char>)
    requires
        p.len() > 0,
        !is_space(p[0]),
        !is_space(p.last()),
        is_trimmed(c),
    ensures
        ({
            let l = trim(p + seq![' '] + c);
            &&& l.len() >= p.len()
            &&& l.take(p.len() as int) == p
            &&& trim(l.skip(p.len() as int)) == c
        }),
{
    let raw = p + seq![' '] + c;
    if c.len() == 0 {
        assert(raw =~= p + seq![' ']);
        assert(is_space(' '));
        lemma_trim_ignores_tail(p, seq![' ']);
        lemma_trim_trimmed(p);
        assert(p.take(p.len() as int) =~= p);
        assert(p.skip(p.len() as int) =~= Seq::<char>::empty());
        assert(trim_start(Seq::<char>::empty()) == Seq::<char>::empty());
        assert(c =~= Seq::<char>::empty());
    } else {
        assert(raw[0] == p[0]);
        assert(raw.last() == c.last());
        lemma_trim_trimmed(raw);
        assert(raw.take(p.len() as int) =~= p);
        assert(raw.skip(p.len() as int) =~= seq![' '] + c);
        lemma_trim_after_space(c);
    }
}

/// The comment line of a text is read as that comment.
proof fn lemma_comment_line(e: EntryView, c: Seq<char>)
    requires
        is_plain(c),
    ensures
        is_meta_line(trim("# "@ + c)),
        add_meta(e, trim("# "@ + c)) == (EntryView { comments: e.comments.push(c), ..e }),
{
    reveal_strlit("# ");
    let p = seq!['#'];
    assert("# "@ + c =~= p + seq![' '] + c);
    lemma_prefixed_line(p, c);
    let l = trim("# "@ + c);
    assert(l[0] == l.take(1)[0]);
    if l.len() > 1 {
        assert(c.len() > 0) by {
            if c.len() == 0 {
                assert(p + seq![' '] + c =~= p + seq![' ']);
                assert(is_space(' '));
                lemma_trim_ignores_tail(p, seq![' ']);
                lemma_trim_trimmed(p);
            }
        }
        lemma_trim_trimmed(p + seq![' '] + c);
        assert(l[1] == ' ');
    }
}

/// The line of an extracted comment is read as that extracted comment.
proof fn lemma_extracted_line(e: EntryView, c: Seq<char>)
    requires
        is_plain(c),
    ensures
        is_meta_line(trim("#. "@ + c)),
        add_meta(e, trim("#. "@ + c)) == (EntryView {
            extracted_comments: e.extracted_comments.push(c),
            ..e
        }),
{
    reveal_strlit("#. ");
    let p = seq!['#', '.'];
    assert("#. "@ + c =~= p + seq![' '] + c);
    lemma_prefixed_line(p, c);
    let l = trim("#. "@ + c);
    assert(l[0] == l.take(2)[0]);
    assert(l[1] == l.take(2)[1]);
}

/// The line of a reference is read as that reference.
proof fn lemma_reference_line(e: EntryView, c: Seq<char>)
    requires
        is_plain(c),
    ensures
        is_meta_line(trim("#: "@ + c)),
        add_meta(e, trim("#: "@ + c)) == (EntryView { references: e.references.push(c), ..e }),
{
    reveal_strlit("#: ");
    let p = seq!['#', ':'];
    assert("#: "@ + c =~= p + seq![' '] + c);
    lemma_prefixed_line(p, c);
    let l = trim("#: "@ + c);
    assert(l[0] == l.take(2)[0]);
    assert(l[1] == l.take(2)[1]);
}

/// The flags of two texts joined by a comma are those of the first and then
/// those of the second.
proof fn lemma_flag_list_concat(a: Seq<char>, b: Seq<char>)
    ensures
        flag_list(a + seq![','] + b) == flag_list(a) + flag_list(b),
    decreases a.len(),
{
    let whole = a + seq![','] + b;
    let k = index_of(a, ',');
    lemma_index_of_bounds(a, ',');
    assert forall|j: int| 0 <= j < k implies whole[j] != ',' by {
        assert(whole[j] == a[j]);
    }
    if k < a.len() {
        assert(whole[k] == a[k]);
        lemma_index_of_is(whole, ',', k);
        assert(whole.take(k) =~= a.take(k));
        assert(whole.skip(k + 1) =~= a.skip(k + 1) + seq![','] + b);
        lemma_flag_list_concat(a.skip(k + 1), b);
        assert(seq![trim(a.take(k))] + (flag_list(a.skip(k + 1)) + flag_list(b)) =~= (seq![
            trim(a.take(k)),
        ] + flag_list(a.skip(k + 1))) + flag_list(b));
    } else {
        assert(whole[k] == ',');
        lemma_index_of_is(whole, ',', k);
        assert(whole.take(k) =~= a);
        assert(whole.skip(k + 1) =~= b);
    }
}

/// White space behind a flag line does not change its flags.
proof fn lemma_flag_list_ignores_tail(x: Seq<char>, w: Seq<char>)
    requires
        forall|i: int| 0 <= i < w.len() ==> is_space(w[i]),
    ensures
        flag_list(x + w) == flag_list(x),
    decreases x.len(),
{
    let whole = x + w;
    let k = index_of(x, ',');
    lemma_index_of_bounds(x, ',');
    assert forall|j: int| 0 <= j < k implies whole[j] != ',' by {
        assert(whole[j] == x[j]);
    }
    if k < x.len() {
        assert(whole[k] == x[k]);
        lemma_index_of_is(whole, ',', k);
        assert(whole.take(k) =~= x.take(k));
        assert(whole.skip(k + 1) =~= x.skip(k + 1) + w);
        lemma_flag_list_ignores_tail(x.skip(k + 1), w);
    } else {
        assert forall|j: int| 0 <= j < whole.len() implies whole[j] != ',' by {
            if j >= x.len() {
                assert(whole[j] == w[j - x.len()]);
                assert(is_space(w[j - x.len()]));
            } else {
                assert(whole[j] == x[j]);
            }
        }
        lemma_index_of_is(whole, ',', whole.len() as int);
        lemma_trim_ignores_tail(x, w);
    }
}

/// The flags read behind the mark of a flag line are the flags that were joined.
proof fn lemma_flag_list_of_joined(flags: Seq<Seq<char>>)
    requires
        flags.len() > 0,
        all_flags(flags),
    ensures
        flag_list(seq![' '] + join(flags, ", "@)) == flags,
    decreases flags.len(),
{
    reveal_strlit(", ");
    let f = flags.last();
    assert(is_flag(f));
    let last = seq![' '] + f;
    assert forall|j: int| 0 <= j < last.len() implies last[j] != ',' by {
        if j > 0 {
            assert(last[j] == f[j - 1]);
        }
    }
    lemma_index_of_is(last, ',', last.len() as int);
    lemma_trim_after_space(f);
    assert(flag_list(last) == seq![f]);
    if flags.len() == 1 {
        assert(flags =~= seq![f]);
    } else {
        let before = flags.drop_last();
        assert forall|i: int| 0 <= i < before.len() implies is_flag(#[trigger] before[i]) by {
            assert(before[i] == flags[i]);
        }
        lemma_flag_list_of_joined(before);
        let head = seq![' '] + join(before, ", "@);
        assert(seq![' '] + join(flags, ", "@) =~= head + seq![','] + last);
        lemma_flag_list_concat(head, last);
        assert(before + seq![f] =~= flags);
    }
}

/// The line of flags is read as those flags.
proof fn lemma_flags_line(e: EntryView, flags: Seq<Seq<char>>)
    requires
        flags.len() > 0,
        all_flags(flags),
    ensures
        is_meta_line(trim("#, "@ + join_flags(flags))),
        add_meta(e, trim("#, "@ + join_flags(flags))) == (EntryView {
            flags: e.flags + flags,
            ..e
        }),
{
    reveal_strlit("#, ");
    let raw = "#, "@ + join_flags(flags);
    let l = trim(raw);
    assert(raw[0] == '#');
    assert(raw[1] == ',');
    assert(trim_start(raw) == raw);
    lemma_trim_end_split(raw);
    let n = l.len() as int;
    assert(n >= 2) by {
        if n < 2 {
            assert(is_space(raw[1]));
        }
    }
    assert(l[0] == raw.take(n)[0]);
    assert(l[1] == raw.take(n)[1]);
    let w = raw.skip(n);
    assert(raw.skip(2) =~= l.skip(2) + w);
    lemma_flag_list_ignores_tail(l.skip(2), w);
    assert(raw.skip(2) =~= seq![' '] + join(flags, ", "@));
    lemma_flag_list_of_joined(flags);
}

/// A keyword line is trimmed, belongs to no other kind of line, and is read
/// as the value that was written.
proof fn lemma_keyword_line(keyword: Seq<char>, v: Seq<char>)
    requires
        keyword.len() > 0,
        !is_space(keyword[0]),
    ensures
        ({
            let l = keyword + seq![' ', '"'] + escape(v) + seq!['"'];
            &&& trim(l) == l
            &&& l.len() > keyword.len()
            &&& keyword.is_prefix_of(l)
            &&& l[0] == keyword[0]
            &&& keyword_value(l, keyword) == Some(v)
        }),
{
    let l = keyword + seq![' ', '"'] + escape(v) + seq!['"'];
    assert(l[0] == keyword[0]);
    assert(l.last() == '"');
    lemma_trim_trimmed(l);
    assert(l.take(keyword.len() as int) =~= keyword);
    let rest = l.skip(keyword.len() as int);
    let lit = seq!['"'] + escape(v) + seq!['"'];
    assert(rest =~= seq![' '] + lit);
    assert(is_space(' '));
    assert(rest.drop_first() =~= lit);
    assert(lit[0] == '"');
    assert(trim_start(lit) == lit);
    assert(trim_start(rest) == lit);
    lemma_last_index_of_is(lit, '"', lit.len() - 1);
    assert(lit.subrange(1, lit.len() - 1) =~= escape(v));
    lemma_unescape_escape(v);
}

/// The escaped form of a single character.
proof fn lemma_escape_one(c: char)
    ensures
        escape(seq![c]) == escape_char(c),
{
    let s = seq![c];
    assert(s.drop_first() =~= Seq::<char>::empty());
    assert(escape(s.drop_first()) =~= Seq::<char>::empty());
    assert(s[0] == c);
    assert(escape(s) =~= escape_char(c));
}

/// The line of a header field is a quoted line that is read as the name, a
/// colon and a space, the value, and a line feed.
proof fn lemma_header_line(name: Seq<char>, value: Seq<char>)
    ensures
        ({
            let l = header_line(name, value);
            &&& trim(l) == l
            &&& is_continuation(l)
            &&& no_char(l, '\n')
            &&& literal_value(l) == Some(name + seq![':', ' '] + value + seq!['\n'])
        }),
{
    reveal_strlit("\"");
    reveal_strlit(": ");
    reveal_strlit("\\n\"");
    let l = header_line(name, value);
    let body = escape(name) + seq![':', ' '] + escape(value) + seq!['\\', 'n'];
    assert(l =~= seq!['"'] + body + seq!['"']);
    assert(l[0] == '"');
    assert(l.last() == '"');
    lemma_trim_trimmed(l);
    assert(quoted_body(l) =~= body);
    let sep = seq![':', ' '];
    let nl = seq!['\n'];
    assert(escape(sep) =~= sep) by {
        assert(sep.drop_first() =~= seq![' ']);
        lemma_escape_one(' ');
        assert(sep[0] == ':');
        assert(escape(sep) == escape_char(':') + escape(seq![' ']));
    }
    assert(escape(nl) =~= seq!['\\', 'n']) by {
        lemma_escape_one('\n');
    }
    lemma_escape_concat(name, sep);
    lemma_escape_concat(name + sep, value);
    lemma_escape_concat(name + sep + value, nl);
    assert(escape(name + sep + value + nl) =~= body);
    lemma_unescape_escape(name + sep + value + nl);
    lemma_escape_no_newline(name + sep + value + nl);
    assert forall|i: int| 0 <= i < l.len() implies l[i] != '\n' by {
        if 0 < i < l.len() - 1 {
            assert(l[i] == body[i - 1]);
        }
    }
}

/// Lines that stand somewhere stand there part by part.
proof fn lemma_stands_split(ls: Seq<Seq<char>>, i: int, a: Seq<Seq<char>>, b: Seq<Seq<char>>)
    requires
        stands_at(ls, i, trimmed(a + b)),
    ensures
        stands_at(ls, i, trimmed(a)),
        stands_at(ls, i + a.len(), trimmed(b)),
{
    let whole = trimmed(a + b);
    assert forall|j: int| 0 <= j < trimmed(a).len() implies ls[i + j] == #[trigger] trimmed(a)[j] by {
        assert(whole[j] == trim((a + b)[j]));
        assert((a + b)[j] == a[j]);
    }
    assert forall|j: int| 0 <= j < trimmed(b).len() implies ls[i + a.len() + j]
        == #[trigger] trimmed(b)[j] by {
        assert(whole[a.len() + j] == trim((a + b)[a.len() + j]));
        assert((a + b)[a.len() + j] == b[j]);
    }
}

/// Lines that stand somewhere stand there without the first of them, one
/// line further on.
proof fn lemma_stands_rest(ls: Seq<Seq<char>>, i: int, a: Seq<Seq<char>>)
    requires
        a.len() > 0,
        stands_at(ls, i, trimmed(a)),
    ensures
        ls[i] == trim(a[0]),
        stands_at(ls, i + 1, trimmed(a.drop_first())),
{
    assert(trimmed(a)[0] == trim(a[0]));
    assert forall|j: int| 0 <= j < trimmed(a.drop_first()).len() implies ls[i + 1 + j]
        == #[trigger] trimmed(a.drop_first())[j] by {
        assert(trimmed(a)[j + 1] == trim(a[j + 1]));
        assert(a.drop_first()[j] == a[j + 1]);
    }
}

/// Reading passes over the lines of comments and adds the comments.
proof fn lemma_scan_comments(ls: Seq<Seq<char>>, i: int, e: EntryView, cs: Seq<Seq<char>>)
    requires
        all_plain(cs),
        stands_at(ls, i, trimmed(with_prefix("# "@, cs))),
    ensures
        scan_meta(ls, i, e) == scan_meta(
            ls,
            i + cs.len(),
            EntryView { comments: e.comments + cs, ..e },
        ),
    decreases cs.len(),
{
    if cs.len() == 0 {
        assert(e.comments + cs =~= e.comments);
    } else {
        let rest = cs.drop_first();
        lemma_stands_rest(ls, i, with_prefix("# "@, cs));
        assert(with_prefix("# "@, cs).drop_first() =~= with_prefix("# "@, rest));
        assert(is_plain(cs[0]));
        lemma_comment_line(e, cs[0]);
        let e1 = EntryView { comments: e.comments.push(cs[0]), ..e };
        assert forall|k: int| 0 <= k < rest.len() implies is_plain(#[trigger] rest[k]) by {
            assert(rest[k] == cs[k + 1]);
        }
        lemma_scan_comments(ls, i + 1, e1, rest);
        assert(e1.comments + rest =~= e.comments + cs);
    }
}

/// Reading passes over the lines of extracted comments and adds them.
proof fn lemma_scan_extracted(ls: Seq<Seq<char>>, i: int, e: EntryView, cs: Seq<Seq<char>>)
    requires
        all_plain(cs),
        stands_at(ls, i, trimmed(with_prefix("#. "@, cs))),
    ensures
        scan_meta(ls, i, e) == scan_meta(
            ls,
            i + cs.len(),
            EntryView { extracted_comments: e.extracted_comments + cs, ..e },
        ),
    decreases cs.len(),
{
    if cs.len() == 0 {
        assert(e.extracted_comments + cs =~= e.extracted_comments);
    } else {
        let rest = cs.drop_first();
        lemma_stands_rest(ls, i, with_prefix("#. "@, cs));
        assert(with_prefix("#. "@, cs).drop_first() =~= with_prefix("#. "@, rest));
        assert(is_plain(cs[0]));
        lemma_extracted_line(e, cs[0]);
        let e1 = EntryView { extracted_comments: e.extracted_comments.push(cs[0]), ..e };
        assert forall|k: int| 0 <= k < rest.len() implies is_plain(#[trigger] rest[k]) by {
            assert(rest[k] == cs[k + 1]);
        }
        lemma_scan_extracted(ls, i + 1, e1, rest);
        assert(e1.extracted_comments + rest =~= e.extracted_comments + cs);
    }
}

/// Reading passes over the lines of references and adds the references.
proof fn lemma_scan_references(ls: Seq<Seq<char>>, i: int, e: EntryView, cs: Seq<Seq<char>>)
    requires
        all_plain(cs),
        stands_at(ls, i, trimmed(with_prefix("#: "@, cs))),
    ensures
        scan_meta(ls, i, e) == scan_meta(
            ls,
            i + cs.len(),
            EntryView { references: e.references + cs, ..e },
        ),
    decreases cs.len(),
{
    if cs.len() == 0 {
        assert(e.references + cs =~= e.references);
    } else {
        let rest = cs.drop_first();
        lemma_stands_rest(ls, i, with_prefix("#: "@, cs));
        assert(with_prefix("#: "@, cs).drop_first() =~= with_prefix("#: "@, rest));
        assert(is_plain(cs[0]));
        lemma_reference_line(e, cs[0]);
        let e1 = EntryView { references: e.references.push(cs[0]), ..e };
        assert forall|k: int| 0 <= k < rest.len() implies is_plain(#[trigger] rest[k]) by {
            assert(rest[k] == cs[k + 1]);
        }
        lemma_scan_references(ls, i + 1, e1, rest);
        assert(e1.references + rest =~= e.references + cs);
    }
}

/// Reading passes over the line of flags, where there is one, and adds the flags.
proof fn lemma_scan_flags(ls: Seq<Seq<char>>, i: int, e: EntryView, flags: Seq<Seq<char>>)
    requires
        all_flags(flags),
        stands_at(ls, i, trimmed(flag_lines(flags))),
    ensures
        scan_meta(ls, i, e) == scan_meta(
            ls,
            i + flag_lines(flags).len(),
            EntryView { flags: e.flags + flags, ..e },
        ),
{
    if flags.len() == 0 {
        assert(e.flags + flags =~= e.flags);
    } else {
        assert(trimmed(flag_lines(flags))[0] == trim(flag_lines(flags)[0]));
        lemma_flags_line(e, flags);
    }
}

/// The `msgctxt` line of a value: trimmed, no comment and no continuation
/// line, and read as that value.
proof fn lemma_msgctxt_line(v: Seq<char>)
    ensures
        ({
            let l = quoted_line("msgctxt \""@, v);
            &&& trim(l) == l
            &&& !is_meta_line(l)
            &&& !is_continuation(l)
            &&& "msgctxt"@.is_prefix_of(l)
            &&& keyword_value(l, "msgctxt"@) == Some(v)
        }),
{
    reveal_strlit("msgctxt \"");
    reveal_strlit("msgctxt");
    reveal_strlit("\"");
    let l = quoted_line("msgctxt \""@, v);
    assert(l =~= "msgctxt"@ + seq![' ', '"'] + escape(v) + seq!['"']);
    lemma_keyword_line("msgctxt"@, v);
}

/// The `msgid` line of a value: trimmed, no comment, no continuation and no
/// `msgctxt` line, and read as that value.
proof fn lemma_msgid_line(v: Seq<char>)
    ensures
        ({
            let l = quoted_line("msgid \""@, v);
            &&& trim(l) == l
            &&& !is_meta_line(l)
            &&& !is_continuation(l)
            &&& !"msgctxt"@.is_prefix_of(l)
            &&& "msgid"@.is_prefix_of(l)
            &&& keyword_value(l, "msgid"@) == Some(v)
        }),
{
    reveal_strlit("msgid \"");
    reveal_strlit("msgid");
    reveal_strlit("msgctxt");
    reveal_strlit("\"");
    let l = quoted_line("msgid \""@, v);
    assert(l =~= "msgid"@ + seq![' ', '"'] + escape(v) + seq!['"']);
    lemma_keyword_line("msgid"@, v);
    if "msgctxt"@.is_prefix_of(l) {
        assert(l.take(7)[4] == "msgctxt"@[4]);
        assert(l[4] == 'd');
    }
}

/// The `msgstr` line of a value: trimmed, no comment and no continuation
/// line, and read as that value.
proof fn lemma_msgstr_line(v: Seq<char>)
    ensures
        ({
            let l = quoted_line("msgstr \""@, v);
            &&& trim(l) == l
            &&& !is_meta_line(l)
            &&& !is_continuation(l)
            &&& "msgstr"@.is_prefix_of(l)
            &&& keyword_value(l, "msgstr"@) == Some(v)
        }),
{
    reveal_strlit("msgstr \"");
    reveal_strlit("msgstr");
    reveal_strlit("\"");
    let l = quoted_line("msgstr \""@, v);
    assert(l =~= "msgstr"@ + seq![' ', '"'] + escape(v) + seq!['"']);
    lemma_keyword_line("msgstr"@, v);
}

/// The block of an entry is read as that entry, up to the blank line that
/// ends the block, and nothing is reported.
proof fn lemma_block(ls: Seq<Seq<char>>, i: int, e: EntryView)
    requires
        entry_shape(e),
        stands_at(ls, i, trimmed(entry_lines(e))),
    ensures
        parse_block(ls, i) == (Block {
            entry: e,
            next: i + entry_lines(e).len() - 1,
            errors: seq![],
        }),
        ls[i].len() > 0,
        ls[i + entry_lines(e).len() - 1].len() == 0,
        entry_lines(e).len() >= 3,
{
    let c = with_prefix("# "@, e.comments);
    let x = with_prefix("#. "@, e.extracted_comments);
    let r = with_prefix("#: "@, e.references);
    let f = flag_lines(e.flags);
    let k = context_lines(e.msgctxt);
    let id_line = quoted_line("msgid \""@, e.msgid);
    let str_line = quoted_line("msgstr \""@, e.msgstr);
    let t = seq![id_line, str_line, Seq::<char>::empty()];
    assert(entry_lines(e) == c + x + r + f + k + t);
    lemma_stands_split(ls, i, c + x + r + f + k, t);
    lemma_stands_split(ls, i, c + x + r + f, k);
    lemma_stands_split(ls, i, c + x + r, f);
    lemma_stands_split(ls, i, c + x, r);
    lemma_stands_split(ls, i, c, x);
    let i1 = i + c.len();
    let i2 = i1 + x.len();
    let i3 = i2 + r.len();
    let j0 = i3 + f.len();
    let j1 = j0 + k.len();
    let e0 = EntryView::empty();
    let e1 = EntryView { comments: e0.comments + e.comments, ..e0 };
    let e2 = EntryView { extracted_comments: e1.extracted_comments + e.extracted_comments, ..e1 };
    let e3 = EntryView { references: e2.references + e.references, ..e2 };
    let e4 = EntryView { flags: e3.flags + e.flags, ..e3 };
    lemma_scan_comments(ls, i, e0, e.comments);
    lemma_scan_extracted(ls, i1, e1, e.extracted_comments);
    lemma_scan_references(ls, i2, e2, e.references);
    lemma_scan_flags(ls, i3, e3, e.flags);
    assert(e4.comments =~= e.comments);
    assert(e4.extracted_comments =~= e.extracted_comments);
    assert(e4.references =~= e.references);
    assert(e4.flags =~= e.flags);
    lemma_msgid_line(e.msgid);
    lemma_msgstr_line(e.msgstr);
    assert(trimmed(t)[0] == trim(t[0]));
    assert(trimmed(t)[1] == trim(t[1]));
    assert(trimmed(t)[2] == trim(t[2]));
    assert(trim_start(Seq::<char>::empty()) == Seq::<char>::empty());
    assert(ls[j1] == id_line);
    assert(ls[j1 + 1] == str_line);
    assert(ls[j1 + 2] == Seq::<char>::empty());
    match e.msgctxt {
        Some(v) => {
            lemma_msgctxt_line(v);
            assert(trimmed(k)[0] == trim(k[0]));
            assert(ls[j0] == quoted_line("msgctxt \""@, v));
        },
        None => {},
    }
    assert(!is_meta_line(ls[j0]));
    assert(scan_meta(ls, i, e0) == (e4, j0));
    let cf = scan_field(
        ls,
        j0,
        "msgctxt"@,
        ParseErrorKind::Msgctxt,
        ParseErrorKind::MsgctxtLiteral,
    );
    assert(after(cf, j0) == j1);
    assert(reported(cf) == Seq::<ParseError>::empty());
    let mf = scan_field(ls, j1, "msgid"@, ParseErrorKind::Msgid, ParseErrorKind::MsgidLiteral);
    assert(mf == Some(FieldScan { value: e.msgid, next: j1 + 1, errors: seq![] }));
    let tf = scan_field(
        ls,
        j1 + 1,
        "msgstr"@,
        ParseErrorKind::Msgstr,
        ParseErrorKind::MsgstrLiteral,
    );
    assert(tf == Some(FieldScan { value: e.msgstr, next: j1 + 2, errors: seq![] }));
    let b = parse_block(ls, i);
    assert(b.errors =~= Seq::<ParseError>::empty());
    assert(b.next == j1 + 2);
    assert(b.entry.msgctxt == e.msgctxt);
    assert(b.entry == e);
    if j0 > i {
        assert(is_meta_line(ls[i]));
    }
}

/// The lines of some entries are those of the first and then those of the others.
proof fn lemma_entries_lines_front(es: Seq<EntryView>)
    requires
        es.len() > 0,
    ensures
        entries_lines(es) == entry_lines(es[0]) + entries_lines(es.drop_first()),
    decreases es.len(),
{
    let rest = es.drop_first();
    if es.len() == 1 {
        assert(es.drop_last() =~= Seq::<EntryView>::empty());
        assert(rest =~= Seq::<EntryView>::empty());
        assert(entries_lines(es.drop_last()) =~= Seq::<Seq<char>>::empty());
        assert(entries_lines(es) =~= entry_lines(es[0]) + entries_lines(rest));
    } else {
        let t = es.drop_last();
        lemma_entries_lines_front(t);
        assert(rest.drop_last() =~= t.drop_first());
        assert(rest.last() == es.last());
        assert(t[0] == es[0]);
        assert(entries_lines(es) =~= entry_lines(es[0]) + entries_lines(rest));
    }
}

/// Reading the blocks of some entries, to the end of the text, adds those
/// entries in their order and reports nothing.
proof fn lemma_entries(
    ls: Seq<Seq<char>>,
    i: int,
    first: bool,
    h: Seq<(Seq<char>, Seq<char>)>,
    acc: Seq<EntryView>,
    es: Seq<EntryView>,
)
    requires
        forall|k: int| 0 <= k < es.len() ==> entry_shape(#[trigger] es[k]),
        stands_at(ls, i, trimmed(entries_lines(es))),
        i + entries_lines(es).len() == ls.len(),
    ensures
        parse_from(ls, i, first, h, acc, seq![]) == (Parsed {
            header: h,
            entries: acc + es,
            errors: seq![],
        }),
    decreases es.len(),
{
    if es.len() == 0 {
        assert(acc + es =~= acc);
    } else {
        let e = es[0];
        let rest = es.drop_first();
        let n = entry_lines(e).len() as int;
        lemma_entries_lines_front(es);
        lemma_stands_split(ls, i, entry_lines(e), entries_lines(rest));
        assert(entry_shape(e));
        lemma_block(ls, i, e);
        let b = parse_block(ls, i);
        assert(Seq::<ParseError>::empty() + b.errors =~= Seq::<ParseError>::empty());
        assert forall|k: int| 0 <= k < rest.len() implies entry_shape(#[trigger] rest[k]) by {
            assert(rest[k] == es[k + 1]);
        }
        lemma_entries(ls, i + n, false, h, acc.push(e), rest);
        assert(acc.push(e) + rest =~= acc + es);
        assert(parse_from(ls, i + n - 1, false, h, acc.push(e), seq![]) == parse_from(
            ls,
            i + n,
            false,
            h,
            acc.push(e),
            seq![],
        ));
    }
}

/// What the line of a header field says: the name, a colon and a space, the value.
spec fn field_text(name: Seq<char>, value: Seq<char>) -> Seq<char> {
    name + seq![':', ' '] + value
}

/// What the lines of the header fields say, in order.
spec fn field_texts(h: Seq<(Seq<char>, Seq<char>)>) -> Seq<Seq<char>> {
    Seq::new(h.len(), |i: int| field_text(h[i].0, h[i].1))
}

/// Reading passes over the lines of the header fields and adds what they say,
/// each with a line feed.
proof fn lemma_scan_field_lines(
    ls: Seq<Seq<char>>,
    i: int,
    value: Seq<char>,
    h: Seq<(Seq<char>, Seq<char>)>,
    kind: ParseErrorKind,
)
    requires
        stands_at(ls, i, trimmed(field_lines(h))),
    ensures
        scan_literals(ls, i, value, seq![], kind) == scan_literals(
            ls,
            i + h.len(),
            value + join_lines(field_texts(h)),
            seq![],
            kind,
        ),
    decreases h.len(),
{
    if h.len() == 0 {
        assert(field_texts(h) =~= Seq::<Seq<char>>::empty());
        assert(value + join_lines(field_texts(h)) =~= value);
    } else {
        let rest = h.drop_first();
        let said = field_text(h[0].0, h[0].1);
        lemma_stands_rest(ls, i, field_lines(h));
        assert(field_lines(h).drop_first() =~= field_lines(rest));
        assert(field_lines(h)[0] == header_line(h[0].0, h[0].1));
        lemma_header_line(h[0].0, h[0].1);
        lemma_scan_field_lines(ls, i + 1, value + (said + seq!['\n']), rest, kind);
        assert(field_texts(h) =~= seq![said] + field_texts(rest));
        lemma_join_front(said, field_texts(rest));
        assert(value + (said + seq!['\n']) + join_lines(field_texts(rest)) =~= value + join_lines(
            field_texts(h),
        ));
    }
}

/// Merging what the lines of header fields say gives those fields, in order.
proof fn lemma_merge_fields(h0: Seq<(Seq<char>, Seq<char>)>, h: Seq<(Seq<char>, Seq<char>)>)
    requires
        header_shape(h0 + h),
    ensures
        merge_lines(h0, field_texts(h)) == h0 + h,
    decreases h.len(),
{
    if h.len() == 0 {
        assert(h0 + h =~= h0);
    } else {
        let whole = h0 + h;
        let name = h[0].0;
        let value = h[0].1;
        let l = field_text(name, value);
        let rest = h.drop_first();
        assert(whole[h0.len() as int] == h[0]);
        assert(is_plain(name) && no_char(name, ':') && is_plain(value));
        assert forall|j: int| 0 <= j < name.len() implies l[j] != ':' by {
            assert(l[j] == name[j]);
        }
        assert(l[name.len() as int] == ':');
        lemma_index_of_is(l, ':', name.len() as int);
        assert(l.take(name.len() as int) =~= name);
        assert(l.skip(name.len() as int + 1) =~= seq![' '] + value);
        lemma_trim_trimmed(name);
        lemma_trim_after_space(value);
        assert forall|j: int| 0 <= j < h0.len() implies h0[j].0 != name by {
            assert(whole[j] == h0[j]);
        }
        lemma_position_is(h0, name, h0.len() as int);
        assert(add_header_line(h0, l) == h0.push((name, value)));
        assert(h0.push((name, value)) =~= h0.push(h[0]));
        assert(field_texts(h).drop_first() =~= field_texts(rest));
        assert(field_texts(h)[0] == l);
        assert(h0.push(h[0]) + rest =~= whole);
        lemma_merge_fields(h0.push(h[0]), rest);
    }
}

/// The two lines that begin the header block are the `msgid` and `msgstr`
/// lines of the empty text.
proof fn lemma_header_top()
    ensures
        "msgid \"\""@ == quoted_line("msgid \""@, Seq::<char>::empty()),
        "msgstr \"\""@ == quoted_line("msgstr \""@, Seq::<char>::empty()),
{
    reveal_strlit("msgid \"\"");
    reveal_strlit("msgstr \"\"");
    reveal_strlit("msgid \"");
    reveal_strlit("msgstr \"");
    reveal_strlit("\"");
    let none = Seq::<char>::empty();
    assert(escape(none) =~= none);
    assert("msgid \"\""@ =~= quoted_line("msgid \""@, none));
    assert("msgstr \"\""@ =~= quoted_line("msgstr \""@, none));
}

/// What the lines of the header fields say holds no line feed.
proof fn lemma_field_texts_one_line(h: Seq<(Seq<char>, Seq<char>)>)
    requires
        header_shape(h),
    ensures
        forall|i: int|
            0 <= i < field_texts(h).len() ==> no_char(#[trigger] field_texts(h)[i], '\n'),
{
    assert forall|i: int| 0 <= i < field_texts(h).len() implies no_char(
        #[trigger] field_texts(h)[i],
        '\n',
    ) by {
        let l = field_texts(h)[i];
        assert(is_plain(h[i].0) && is_plain(h[i].1));
        assert forall|j: int| 0 <= j < l.len() implies l[j] != '\n' by {
            if j < h[i].0.len() {
                assert(l[j] == h[i].0[j]);
            } else if j >= h[i].0.len() + 2 {
                assert(l[j] == h[i].1[j - h[i].0.len() - 2]);
            }
        }
    }
}

/// Where the header block stands at the top, its first line is the `msgid`
/// line of the empty text, its second the `msgstr` line of the empty text,
/// then come the lines of the fields, and a blank line ends it.
proof fn lemma_header_lines_stand(ls: Seq<Seq<char>>, h: Seq<(Seq<char>, Seq<char>)>)
    requires
        h.len() > 0,
        stands_at(ls, 0, trimmed(header_lines(h))),
    ensures
        ls.len() >= h.len() + 3,
        ls[0] == quoted_line("msgid \""@, Seq::<char>::empty()),
        ls[1] == quoted_line("msgstr \""@, Seq::<char>::empty()),
        stands_at(ls, 2, trimmed(field_lines(h))),
        ls[h.len() as int + 2] == Seq::<char>::empty(),
{
    let none = Seq::<char>::empty();
    lemma_header_top();
    let a = quoted_line("msgid \""@, none);
    let b = quoted_line("msgstr \""@, none);
    lemma_msgid_line(none);
    lemma_msgstr_line(none);
    let top = seq![a, b];
    let foot = seq![none];
    assert(header_lines(h) =~= top + field_lines(h) + foot);
    lemma_stands_split(ls, 0, top + field_lines(h), foot);
    lemma_stands_split(ls, 0, top, field_lines(h));
    assert(trimmed(top)[0] == trim(top[0]));
    assert(trimmed(top)[1] == trim(top[1]));
    assert(trimmed(foot)[0] == trim(foot[0]));
    assert(trim_start(none) == none);
}

/// The header block is read as a block with an empty `msgid` whose `msgstr`
/// says the header fields, and nothing is reported.
proof fn lemma_header_block(ls: Seq<Seq<char>>, h: Seq<(Seq<char>, Seq<char>)>)
    requires
        header_shape(h),
        h.len() > 0,
        stands_at(ls, 0, trimmed(header_lines(h))),
    ensures
        ls.len() >= h.len() + 3,
        ls[0].len() > 0,
        ls[h.len() as int + 2].len() == 0,
        parse_block(ls, 0).next == h.len() + 2,
        parse_block(ls, 0).errors == Seq::<ParseError>::empty(),
        parse_block(ls, 0).entry.msgid.len() == 0,
        merge_lines(seq![], lines(parse_block(ls, 0).entry.msgstr)) == h,
{
    let none = Seq::<char>::empty();
    lemma_header_lines_stand(ls, h);
    lemma_msgid_line(none);
    lemma_msgstr_line(none);
    let end = h.len() as int + 2;
    let said = join_lines(field_texts(h));
    lemma_scan_field_lines(ls, 2, none, h, ParseErrorKind::MsgstrLiteral);
    assert(none + said =~= said);
    assert(!is_continuation(ls[end]));
    assert(scan_literals(ls, end, said, seq![], ParseErrorKind::MsgstrLiteral) == (FieldScan {
        value: said,
        next: end,
        errors: seq![],
    }));
    assert(scan_meta(ls, 0, EntryView::empty()) == (EntryView::empty(), 0int));
    let cf = scan_field(
        ls,
        0,
        "msgctxt"@,
        ParseErrorKind::Msgctxt,
        ParseErrorKind::MsgctxtLiteral,
    );
    assert(cf is None);
    let mf = scan_field(ls, 0, "msgid"@, ParseErrorKind::Msgid, ParseErrorKind::MsgidLiteral);
    assert(scan_literals(ls, 1, none, seq![], ParseErrorKind::MsgidLiteral) == (FieldScan {
        value: none,
        next: 1,
        errors: seq![],
    }));
    assert(mf == Some(FieldScan { value: none, next: 1, errors: seq![] }));
    let tf = scan_field(ls, 1, "msgstr"@, ParseErrorKind::Msgstr, ParseErrorKind::MsgstrLiteral);
    assert(tf == Some(FieldScan { value: said, next: end, errors: seq![] }));
    let blk = parse_block(ls, 0);
    assert(blk.errors =~= Seq::<ParseError>::empty());
    assert(blk.entry.msgstr == said);
    lemma_field_texts_one_line(h);
    lemma_lines_of_joined(field_texts(h));
    assert(Seq::<(Seq<char>, Seq<char>)>::empty() + h =~= h);
    lemma_merge_fields(seq![], h);
}

/// Two texts without a character, one after the other, are without it.
proof fn lemma_no_char_concat(a: Seq<char>, b: Seq<char>, c: char)
    requires
        no_char(a, c),
        no_char(b, c),
    ensures
        no_char(a + b, c),
{
    assert forall|i: int| 0 <= i < (a + b).len() implies (a + b)[i] != c by {
        if i < a.len() {
            assert((a + b)[i] == a[i]);
        } else {
            assert((a + b)[i] == b[i - a.len()]);
        }
    }
}

/// Joined flags hold no line feed.
proof fn lemma_joined_flags_one_line(flags: Seq<Seq<char>>)
    requires
        all_flags(flags),
    ensures
        no_char(join(flags, ", "@), '\n'),
    decreases flags.len(),
{
    reveal_strlit(", ");
    if flags.len() == 1 {
        assert(is_flag(flags[0]));
    } else if flags.len() > 1 {
        let before = flags.drop_last();
        assert forall|i: int| 0 <= i < before.len() implies is_flag(#[trigger] before[i]) by {
            assert(before[i] == flags[i]);
        }
        lemma_joined_flags_one_line(before);
        assert(is_flag(flags.last()));
        assert(no_char(", "@, '\n'));
        lemma_no_char_concat(join(before, ", "@), ", "@, '\n');
        lemma_no_char_concat(join(before, ", "@) + ", "@, flags.last(), '\n');
    }
}

/// A keyword line holds no line feed.
proof fn lemma_quoted_line_one_line(opening: Seq<char>, v: Seq<char>)
    requires
        no_char(opening, '\n'),
    ensures
        no_char(quoted_line(opening, v), '\n'),
{
    reveal_strlit("\"");
    lemma_escape_no_newline(v);
    assert(no_char("\""@, '\n'));
    lemma_no_char_concat(opening, escape(v), '\n');
    lemma_no_char_concat(opening + escape(v), "\""@, '\n');
}

/// No line of an entry's block holds a line feed.
proof fn lemma_entry_lines_one_line(e: EntryView)
    requires
        entry_shape(e),
    ensures
        forall|i: int| 0 <= i < entry_lines(e).len() ==> no_char(#[trigger] entry_lines(e)[i], '\n'),
{
    reveal_strlit("# ");
    reveal_strlit("#. ");
    reveal_strlit("#: ");
    reveal_strlit("#, ");
    reveal_strlit("msgctxt \"");
    reveal_strlit("msgid \"");
    reveal_strlit("msgstr \"");
    let c = with_prefix("# "@, e.comments);
    let x = with_prefix("#. "@, e.extracted_comments);
    let r = with_prefix("#: "@, e.references);
    let f = flag_lines(e.flags);
    let k = context_lines(e.msgctxt);
    let t = seq![
        quoted_line("msgid \""@, e.msgid),
        quoted_line("msgstr \""@, e.msgstr),
        Seq::<char>::empty(),
    ];
    assert(no_char("# "@, '\n'));
    assert(no_char("#. "@, '\n'));
    assert(no_char("#: "@, '\n'));
    assert(no_char("#, "@, '\n'));
    assert(no_char("msgctxt \""@, '\n'));
    assert(no_char("msgid \""@, '\n'));
    assert(no_char("msgstr \""@, '\n'));
    assert forall|i: int| 0 <= i < c.len() implies no_char(#[trigger] c[i], '\n') by {
        assert(is_plain(e.comments[i]));
        lemma_no_char_concat("# "@, e.comments[i], '\n');
    }
    assert forall|i: int| 0 <= i < x.len() implies no_char(#[trigger] x[i], '\n') by {
        assert(is_plain(e.extracted_comments[i]));
        lemma_no_char_concat("#. "@, e.extracted_comments[i], '\n');
    }
    assert forall|i: int| 0 <= i < r.len() implies no_char(#[trigger] r[i], '\n') by {
        assert(is_plain(e.references[i]));
        lemma_no_char_concat("#: "@, e.references[i], '\n');
    }
    assert forall|i: int| 0 <= i < f.len() implies no_char(#[trigger] f[i], '\n') by {
        lemma_joined_flags_one_line(e.flags);
        lemma_no_char_concat("#, "@, join_flags(e.flags), '\n');
    }
    assert forall|i: int| 0 <= i < k.len() implies no_char(#[trigger] k[i], '\n') by {
        lemma_quoted_line_one_line("msgctxt \""@, e.msgctxt->0);
    }
    lemma_quoted_line_one_line("msgid \""@, e.msgid);
    lemma_quoted_line_one_line("msgstr \""@, e.msgstr);
    let all = entry_lines(e);
    assert(all == c + x + r + f + k + t);
    assert forall|i: int| 0 <= i < all.len() implies no_char(#[trigger] all[i], '\n') by {
        let n1 = c.len() as int;
        let n2 = n1 + x.len();
        let n3 = n2 + r.len();
        let n4 = n3 + f.len();
        let n5 = n4 + k.len();
        if i < n1 {
            assert(all[i] == c[i]);
        } else if i < n2 {
            assert(all[i] == x[i - n1]);
        } else if i < n3 {
            assert(all[i] == r[i - n2]);
        } else if i < n4 {
            assert(all[i] == f[i - n3]);
        } else if i < n5 {
            assert(all[i] == k[i - n4]);
        } else {
            assert(all[i] == t[i - n5]);
        }
    }
}

/// No line of the blocks of some entries holds a line feed.
proof fn lemma_entries_lines_one_line(es: Seq<EntryView>)
    requires
        forall|k: int| 0 <= k < es.len() ==> entry_shape(#[trigger] es[k]),
    ensures
        forall|i: int|
            0 <= i < entries_lines(es).len() ==> no_char(#[trigger] entries_lines(es)[i], '\n'),
    decreases es.len(),
{
    if es.len() > 0 {
        let before = es.drop_last();
        assert forall|k: int| 0 <= k < before.len() implies entry_shape(#[trigger] before[k]) by {
            assert(before[k] == es[k]);
        }
        lemma_entries_lines_one_line(before);
        assert(entry_shape(es.last()));
        lemma_entry_lines_one_line(es.last());
        let a = entries_lines(before);
        let b = entry_lines(es.last());
        assert forall|i: int| 0 <= i < (a + b).len() implies no_char(#[trigger] (a + b)[i], '\n') by {
            if i < a.len() {
                assert((a + b)[i] == a[i]);
            } else {
                assert((a + b)[i] == b[i - a.len()]);
            }
        }
    }
}

/// No line of the header block holds a line feed.
proof fn lemma_header_lines_one_line(h: Seq<(Seq<char>, Seq<char>)>)
    ensures
        forall|i: int| 0 <= i < header_lines(h).len() ==> no_char(#[trigger] header_lines(h)[i], '\n'),
{
    reveal_strlit("msgid \"\"");
    reveal_strlit("msgstr \"\"");
    if h.len() > 0 {
        let all = header_lines(h);
        assert(no_char("msgid \"\""@, '\n'));
        assert(no_char("msgstr \"\""@, '\n'));
        assert forall|i: int| 0 <= i < all.len() implies no_char(#[trigger] all[i], '\n') by {
            if i == 0 {
                assert(all[i] == "msgid \"\""@);
            } else if i == 1 {
                assert(all[i] == "msgstr \"\""@);
            } else if i < h.len() + 2 {
                assert(all[i] == field_lines(h)[i - 2]);
                lemma_header_line(h[i - 2].0, h[i - 2].1);
            } else {
                assert(all[i] == Seq::<char>::empty());
            }
        }
    }
}

/// The trimmed lines of the text of a catalog are the lines that were
/// written, each trimmed.
proof fn lemma_written_lines(h: Seq<(Seq<char>, Seq<char>)>, es: Seq<EntryView>)
    requires
        catalog_shape(h, es),
    ensures
        trimmed_lines(serialize(h, es)) == trimmed(header_lines(h) + entries_lines(es)),
{
    let written = catalog_lines(h, es);
    let hl = header_lines(h);
    let el = entries_lines(es);
    lemma_header_lines_one_line(h);
    lemma_entries_lines_one_line(es);
    assert forall|i: int| 0 <= i < written.len() implies no_char(#[trigger] written[i], '\n') by {
        if i < hl.len() {
            assert(written[i] == hl[i]);
        } else {
            assert(written[i] == el[i - hl.len()]);
        }
    }
    lemma_lines_of_joined(written);
    assert(trimmed_lines(serialize(h, es)) =~= trimmed(written));
}

/// Reading the lines of a catalog without header fields gives its entries.
proof fn lemma_read_entries(ls: Seq<Seq<char>>, es: Seq<EntryView>)
    requires
        forall|k: int| 0 <= k < es.len() ==> entry_shape(#[trigger] es[k]),
        ls == trimmed(entries_lines(es)),
    ensures
        parse_lines(ls) == (Parsed { header: seq![], entries: es, errors: seq![] }),
{
    let none = Seq::<EntryView>::empty();
    assert(none + es =~= es);
    assert(stands_at(ls, 0, trimmed(entries_lines(es))));
    lemma_entries(ls, 0, true, seq![], none, es);
}

/// Reading the lines of a catalog with header fields gives its header and
/// its entries.
proof fn lemma_read_catalog(
    ls: Seq<Seq<char>>,
    h: Seq<(Seq<char>, Seq<char>)>,
    es: Seq<EntryView>,
)
    requires
        catalog_shape(h, es),
        h.len() > 0,
        ls == trimmed(header_lines(h) + entries_lines(es)),
    ensures
        parse_lines(ls) == (Parsed { header: h, entries: es, errors: seq![] }),
{
    let hl = header_lines(h);
    let el = entries_lines(es);
    let none = Seq::<EntryView>::empty();
    let quiet = Seq::<ParseError>::empty();
    let bare = Seq::<(Seq<char>, Seq<char>)>::empty();
    assert(stands_at(ls, 0, trimmed(hl + el)));
    lemma_stands_split(ls, 0, hl, el);
    lemma_header_block(ls, h);
    let blk = parse_block(ls, 0);
    let end = h.len() as int + 2;
    assert(hl.len() == end + 1);
    assert(quiet + blk.errors =~= quiet);
    assert(none + es =~= es);
    lemma_entries(ls, end + 1, false, h, none, es);
    let done = Parsed { header: h, entries: es, errors: quiet };
    assert(parse_from(ls, end + 1, false, h, none, quiet) == done);
    assert(parse_from(ls, end, false, h, none, quiet) == done);
    assert(parse_from(ls, 0, true, bare, none, quiet) == parse_from(
        ls,
        blk.next,
        false,
        merge_lines(bare, lines(blk.entry.msgstr)),
        none,
        quiet + blk.errors,
    ));
}

/// Reading the text of a catalog gives the catalog back: the same header
/// fields in the same order, the same entries in the same order, and nothing
/// reported. This holds of every catalog of the shape that the reader gives.
pub proof fn lemma_round_trip(h: Seq<(Seq<char>, Seq<char>)>, es: Seq<EntryView>)
    requires
        catalog_shape(h, es),
    ensures
        parse_text(serialize(h, es)) == (Parsed { header: h, entries: es, errors: seq![] }),
{
    lemma_written_lines(h, es);
    let ls = trimmed_lines(serialize(h, es));
    if h.len() == 0 {
        assert(header_lines(h) + entries_lines(es) =~= entries_lines(es));
        lemma_read_entries(ls, es);
        assert(h =~= Seq::<(Seq<char>, Seq<char>)>::empty());
    } else {
        lemma_read_catalog(ls, h, es);
    }
}

/// What trimming its start leaves of a text is a suffix of it that does not
/// begin with white space.
proof fn lemma_trim_start_split(s: Seq<char>)
    ensures
        trim_start(s).len() <= s.len(),
        s.skip(s.len() - trim_start(s).len()) == trim_start(s),
        trim_start(s).len() > 0 ==> !is_space(trim_start(s)[0]),
    decreases s.len(),
{
    if s.len() > 0 && is_space(s[0]) {
        let t = s.drop_first();
        lemma_trim_start_split(t);
        let m = s.len() - trim_start(s).len();
        assert(s.skip(m) =~= t.skip(m - 1));
    } else {
        assert(s.skip(0) =~= s);
    }
}

/// A trimmed text is trimmed indeed, and holds no character that the text
/// did not hold.
proof fn lemma_trim_shape(s: Seq<char>, c: char)
    ensures
        is_trimmed(trim(s)),
        no_char(s, c) ==> no_char(trim(s), c),
{
    let a = trim_start(s);
    lemma_trim_start_split(s);
    lemma_trim_end_split(a);
    let b = trim(s);
    let m = s.len() - a.len();
    if b.len() > 0 {
        assert(b[0] == a.take(b.len() as int)[0]);
    }
    if no_char(s, c) {
        assert forall|i: int| 0 <= i < b.len() implies b[i] != c by {
            assert(b[i] == a.take(b.len() as int)[i]);
            assert(a[i] == s.skip(m)[i]);
        }
    }
}

/// No line of a text holds a line feed.
proof fn lemma_lines_one_line(s: Seq<char>)
    ensures
        forall|i: int| 0 <= i < lines(s).len() ==> no_char(#[trigger] lines(s)[i], '\n'),
    decreases s.len(),
{
    let k = index_of(s, '\n');
    lemma_index_of_bounds(s, '\n');
    if s.len() > 0 {
        if k < s.len() {
            let rest = s.skip(k + 1);
            lemma_lines_one_line(rest);
            let all = lines(s);
            assert forall|i: int| 0 <= i < all.len() implies no_char(#[trigger] all[i], '\n') by {
                if i == 0 {
                    assert(all[0] == s.take(k));
                } else {
                    assert(all[i] == lines(rest)[i - 1]);
                }
            }
        }
    }
}

/// Every trimmed line of a text is trimmed and within one line.
proof fn lemma_trimmed_lines_plain(s: Seq<char>)
    ensures
        all_plain(trimmed_lines(s)),
{
    lemma_lines_one_line(s);
    assert forall|i: int| 0 <= i < trimmed_lines(s).len() implies is_plain(
        #[trigger] trimmed_lines(s)[i],
    ) by {
        assert(trimmed_lines(s)[i] == trim(lines(s)[i]));
        lemma_trim_shape(lines(s)[i], '\n');
    }
}

/// The flags read from one line are flags as a flag line holds them.
proof fn lemma_flag_list_shape(s: Seq<char>)
    requires
        no_char(s, '\n'),
    ensures
        all_flags(flag_list(s)),
    decreases s.len(),
{
    let k = index_of(s, ',');
    lemma_index_of_bounds(s, ',');
    if 0 <= k < s.len() {
        let piece = s.take(k);
        let rest = s.skip(k + 1);
        assert(no_char(piece, ','));
        assert(no_char(piece, '\n'));
        assert(no_char(rest, '\n')) by {
            assert forall|j: int| 0 <= j < rest.len() implies rest[j] != '\n' by {
                assert(rest[j] == s[j + k + 1]);
            }
        }
        lemma_trim_shape(piece, ',');
        lemma_trim_shape(piece, '\n');
        lemma_flag_list_shape(rest);
        let all = flag_list(s);
        assert forall|i: int| 0 <= i < all.len() implies is_flag(#[trigger] all[i]) by {
            if i > 0 {
                assert(all[i] == flag_list(rest)[i - 1]);
            }
        }
    } else {
        lemma_trim_shape(s, ',');
        lemma_trim_shape(s, '\n');
    }
}

/// The comments and flags of an entry are as their lines hold them.
spec fn meta_shape(e: EntryView) -> bool {
    &&& all_plain(e.comments)
    &&& all_plain(e.extracted_comments)
    &&& all_plain(e.references)
    &&& all_flags(e.flags)
}

/// What follows the first `n` characters of a text within one line is within
/// one line, and so is its trimmed form.
proof fn lemma_rest_of_line(l: Seq<char>, n: int)
    requires
        no_char(l, '\n'),
        0 <= n <= l.len(),
    ensures
        no_char(l.skip(n), '\n'),
        is_plain(trim(l.skip(n))),
{
    assert forall|j: int| 0 <= j < l.skip(n).len() implies l.skip(n)[j] != '\n' by {
        assert(l.skip(n)[j] == l[j + n]);
    }
    lemma_trim_shape(l.skip(n), '\n');
}

/// One more comment line read leaves comments and flags as their lines hold them.
proof fn lemma_add_meta_shape(e: EntryView, l: Seq<char>)
    requires
        meta_shape(e),
        no_char(l, '\n'),
        l.len() > 0,
    ensures
        meta_shape(add_meta(e, l)),
{
    lemma_rest_of_line(l, 1);
    if l.len() > 1 {
        lemma_rest_of_line(l, 2);
    }
    let r = add_meta(e, l);
    if l.len() > 1 && l[1] == '.' {
        assert forall|i: int| 0 <= i < r.extracted_comments.len() implies is_plain(
            #[trigger] r.extracted_comments[i],
        ) by {
            if i < e.extracted_comments.len() {
                assert(r.extracted_comments[i] == e.extracted_comments[i]);
            }
        }
    } else if l.len() > 1 && l[1] == ':' {
        assert forall|i: int| 0 <= i < r.references.len() implies is_plain(
            #[trigger] r.references[i],
        ) by {
            if i < e.references.len() {
                assert(r.references[i] == e.references[i]);
            }
        }
    } else if l.len() > 1 && l[1] == ',' {
        lemma_flag_list_shape(l.skip(2));
        let added = flag_list(l.skip(2));
        assert forall|i: int| 0 <= i < r.flags.len() implies is_flag(#[trigger] r.flags[i]) by {
            if i < e.flags.len() {
                assert(r.flags[i] == e.flags[i]);
            } else {
                assert(r.flags[i] == added[i - e.flags.len()]);
            }
        }
    } else {
        assert forall|i: int| 0 <= i < r.comments.len() implies is_plain(
            #[trigger] r.comments[i],
        ) by {
            if i < e.comments.len() {
                assert(r.comments[i] == e.comments[i]);
            }
        }
    }
}

/// The comment lines read leave comments and flags as their lines hold them.
proof fn lemma_scan_meta_shape(ls: Seq<Seq<char>>, i: int, e: EntryView)
    requires
        all_plain(ls),
        meta_shape(e),
    ensures
        meta_shape(scan_meta(ls, i, e).0),
    decreases ls.len() - i,
{
    if 0 <= i < ls.len() && is_meta_line(ls[i]) {
        assert(is_plain(ls[i]));
        lemma_add_meta_shape(e, ls[i]);
        lemma_scan_meta_shape(ls, i + 1, add_meta(e, ls[i]));
    }
}

/// The entry of a block has comments and flags as their lines hold them, and
/// the status that its translation and flags imply.
proof fn lemma_block_shape(ls: Seq<Seq<char>>, i: int)
    requires
        all_plain(ls),
    ensures
        meta_shape(parse_block(ls, i).entry),
        parse_block(ls, i).entry.status_ok(),
{
    let e0 = EntryView::empty();
    assert(meta_shape(e0));
    lemma_scan_meta_shape(ls, i, e0);
}

/// A field set in a header of the reader's shape, with a name and a value of
/// that shape, leaves a header of that shape.
proof fn lemma_assign_shape(
    h: Seq<(Seq<char>, Seq<char>)>,
    name: Seq<char>,
    value: Seq<char>,
)
    requires
        header_shape(h),
        is_plain(name),
        no_char(name, ':'),
        is_plain(value),
    ensures
        header_shape(assign(h, name, value)),
{
    lemma_assign(h, name, value);
    let g = assign(h, name, value);
    let p = position(h, name);
    assert forall|i: int| 0 <= i < g.len() implies is_plain((#[trigger] g[i]).0) && no_char(
        g[i].0,
        ':',
    ) && is_plain(g[i].1) by {
        if 0 <= p < h.len() {
            if i != p {
                assert(g[i] == h[i]);
            }
        } else if i < h.len() {
            assert(g[i] == h[i]);
        }
    }
}

/// Merging lines into a header of the reader's shape leaves a header of that shape.
proof fn lemma_merge_shape(h: Seq<(Seq<char>, Seq<char>)>, ls: Seq<Seq<char>>)
    requires
        header_shape(h),
        forall|i: int| 0 <= i < ls.len() ==> no_char(#[trigger] ls[i], '\n'),
    ensures
        header_shape(merge_lines(h, ls)),
    decreases ls.len(),
{
    if ls.len() > 0 {
        let l = ls[0];
        let k = index_of(l, ':');
        lemma_index_of_bounds(l, ':');
        assert(no_char(l, '\n'));
        if 0 <= k < l.len() {
            let name = l.take(k);
            assert(no_char(name, ':'));
            assert(no_char(name, '\n'));
            lemma_trim_shape(name, ':');
            lemma_trim_shape(name, '\n');
            lemma_rest_of_line(l, k + 1);
            lemma_assign_shape(h, trim(name), trim(l.skip(k + 1)));
        }
        let rest = ls.drop_first();
        assert forall|i: int| 0 <= i < rest.len() implies no_char(#[trigger] rest[i], '\n') by {
            assert(rest[i] == ls[i + 1]);
        }
        lemma_merge_shape(add_header_line(h, l), rest);
    }
}

/// Reading on from a catalog of the reader's shape gives one of that shape.
proof fn lemma_parse_from_shape(
    ls: Seq<Seq<char>>,
    i: int,
    first: bool,
    h: Seq<(Seq<char>, Seq<char>)>,
    es: Seq<EntryView>,
    errors: Seq<ParseError>,
)
    requires
        all_plain(ls),
        catalog_shape(h, es),
    ensures
        catalog_shape(
            parse_from(ls, i, first, h, es, errors).header,
            parse_from(ls, i, first, h, es, errors).entries,
        ),
    decreases ls.len() - i,
{
    if !(0 <= i < ls.len()) {
    } else if ls[i].len() == 0 {
        lemma_parse_from_shape(ls, i + 1, first, h, es, errors);
    } else {
        let b = parse_block(ls, i);
        lemma_block_shape(ls, i);
        if !(i < b.next <= ls.len()) {
            lemma_parse_from_shape(
                ls,
                i + 1,
                first,
                h,
                es,
                errors.push(
                    ParseError { line: (i + 1) as usize, kind: ParseErrorKind::UnexpectedLine },
                ),
            );
        } else if b.entry.msgid.len() == 0 && first {
            lemma_lines_one_line(b.entry.msgstr);
            lemma_merge_shape(h, lines(b.entry.msgstr));
            lemma_parse_from_shape(
                ls,
                b.next,
                false,
                merge_lines(h, lines(b.entry.msgstr)),
                es,
                errors + b.errors,
            );
        } else if b.entry.msgid.len() > 0 {
            let more = es.push(b.entry);
            assert forall|k: int| 0 <= k < more.len() implies entry_shape(#[trigger] more[k]) by {
                if k < es.len() {
                    assert(more[k] == es[k]);
                }
            }
            lemma_parse_from_shape(ls, b.next, false, h, more, errors + b.errors);
        } else {
            lemma_parse_from_shape(ls, b.next, false, h, es, errors + b.errors);
        }
    }
}

/// Whatever the text, the catalog read from it has the reader's shape.
pub proof fn lemma_parsed_has_shape(text: Seq<char>)
    ensures
        catalog_shape(parse_text(text).header, parse_text(text).entries),
{
    lemma_trimmed_lines_plain(text);
    lemma_parse_from_shape(trimmed_lines(text), 0, true, seq![], seq![], seq![]);
}

/// Reading a text, writing what was read, and reading that again gives what
/// was read the first time, and reports nothing the second time.
pub proof fn lemma_parse_serialize_parse(text: Seq<char>)
    ensures
        ({
            let read = parse_text(text);
            parse_text(serialize(read.header, read.entries)) == (Parsed {
                header: read.header,
                entries: read.entries,
                errors: seq![],
            })
        }),
{
    lemma_parsed_has_shape(text);
    lemma_round_trip(parse_text(text).header, parse_text(text).entries);
}

} // verus!
