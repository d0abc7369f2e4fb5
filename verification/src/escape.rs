//! The escaping of string literals in catalog text, and its inverse.

use vstd::prelude::*;
use vstd::std_specs::iter::IteratorSpec;

verus! {

/// What one character of a value becomes inside a quoted literal.
pub open spec fn escape_char(c: char) -> Seq<char> {
    if c == '\\' {
        seq!['\\', '\\']
    } else if c == '\n' {
        seq!['\\', 'n']
    } else if c == '\t' {
        seq!['\\', 't']
    } else if c == '\r' {
        seq!['\\', 'r']
    } else if c == '"' {
        seq!['\\', '"']
    } else {
        seq![c]
    }
}

/// The escaped form of `s`: every character replaced by `escape_char` of it.
pub open spec fn escape(s: Seq<char>) -> Seq<char>
    decreases s.len(),
{
    if s.len() == 0 {
        seq![]
    } else {
        escape_char(s[0]) + escape(s.drop_first())
    }
}

/// What a backslash followed by `c` stands for. An unknown escape stands for itself.
pub open spec fn unescape_pair(c: char) -> Seq<char> {
    if c == 'n' {
        seq!['\n']
    } else if c == 't' {
        seq!['\t']
    } else if c == 'r' {
        seq!['\r']
    } else if c == '\\' {
        seq!['\\']
    } else if c == '"' {
        seq!['"']
    } else {
        seq!['\\', c]
    }
}

/// The value that the inside of a quoted literal stands for. A backslash at
/// the very end stands for itself.
pub open spec fn unescape(s: Seq<char>) -> Seq<char>
    decreases s.len(),
{
    if s.len() == 0 {
        seq![]
    } else if s[0] != '\\' {
        seq![s[0]] + unescape(s.skip(1))
    } else if s.len() == 1 {
        seq!['\\']
    } else {
        unescape_pair(s[1]) + unescape(s.skip(2))
    }
}

/// `s` has at least two characters, and begins and ends with a double quote.
pub open spec fn is_quoted(s: Seq<char>) -> bool {
    s.len() >= 2 && s[0] == '"' && s.last() == '"'
}

/// What stands between the quotes of a quoted literal.
pub open spec fn quoted_body(s: Seq<char>) -> Seq<char> {
    s.subrange(1, s.len() - 1)
}

/// Decoding one escaped character gives the character back, whatever follows.
proof fn lemma_unescape_escaped_char(c: char, rest: Seq<char>)
    ensures
        unescape(escape_char(c) + rest) == seq![c] + unescape(rest),
{
    let s = escape_char(c) + rest;
    if c == '\\' || c == '\n' || c == '\t' || c == '\r' || c == '"' {
        assert(s.skip(2) =~= rest);
    } else {
        assert(s.skip(1) =~= rest);
    }
}

/// Escaping and then decoding gives the original text back.
pub proof fn lemma_unescape_escape(s: Seq<char>)
    ensures
        unescape(escape(s)) == s,
    decreases s.len(),
{
    if s.len() > 0 {
        let rest = s.drop_first();
        lemma_unescape_escaped_char(s[0], escape(rest));
        lemma_unescape_escape(rest);
        assert(seq![s[0]] + rest =~= s);
    } else {
        assert(s =~= Seq::<char>::empty());
    }
}

/// A backslash before a character that names no escape is kept, with that
/// character, by one decoding pass.
pub proof fn lemma_unknown_escape_kept(c: char, rest: Seq<char>)
    requires
        c != 'n' && c != 't' && c != 'r' && c != '\\' && c != '"',
    ensures
        unescape(seq!['\\', c] + rest) == seq!['\\', c] + unescape(rest),
{
    let s = seq!['\\', c] + rest;
    assert(s.skip(2) =~= rest);
}

/// Escaping distributes over concatenation.
pub proof fn lemma_escape_concat(a: Seq<char>, b: Seq<char>)
    ensures
        escape(a + b) == escape(a) + escape(b),
    decreases a.len(),
{
    if a.len() == 0 {
        assert(a + b =~= b);
        assert(escape(a) + escape(b) =~= escape(b));
    } else {
        assert((a + b).drop_first() =~= a.drop_first() + b);
        lemma_escape_concat(a.drop_first(), b);
        assert(escape_char(a[0]) + (escape(a.drop_first()) + escape(b)) =~= (escape_char(a[0])
            + escape(a.drop_first())) + escape(b));
    }
}

/// Escaped text holds no line feed.
pub proof fn lemma_escape_no_newline(s: Seq<char>)
    ensures
        forall|i: int| 0 <= i < escape(s).len() ==> escape(s)[i] != '\n',
    decreases s.len(),
{
    if s.len() > 0 {
        lemma_escape_no_newline(s.drop_first());
        let head = escape_char(s[0]);
        let tail = escape(s.drop_first());
        assert forall|i: int| 0 <= i < escape(s).len() implies escape(s)[i] != '\n' by {
            if i < head.len() {
                assert(escape(s)[i] == head[i]);
            } else {
                assert(escape(s)[i] == tail[i - head.len()]);
            }
        }
    }
}

/// Appends the escaped form of `s` to `out`.
pub fn escape_into(out: &mut String, s: &str)
    ensures
        final(out)@ == old(out)@ + escape(s@),
{
    let ghost before = out@;
    assert(s@.skip(0) =~= s@);
    for c in it: s.chars()
        invariant
            it.seq() == s@,
            before + escape(s@) == out@ + escape(s@.skip(it.index() as int)),
    {
        let ghost rest = s@.skip(it.index() as int);
        let ghost prev = out@;
        assert(rest.drop_first() =~= s@.skip(it.index() + 1));
        assert(rest[0] == c);
        if c == '\\' {
            out.push('\\');
            out.push('\\');
        } else if c == '\n' {
            out.push('\\');
            out.push('n');
        } else if c == '\t' {
            out.push('\\');
            out.push('t');
        } else if c == '\r' {
            out.push('\\');
            out.push('r');
        } else if c == '"' {
            out.push('\\');
            out.push('"');
        } else {
            out.push(c);
        }
        assert(out@ =~= prev + escape_char(c));
        assert(prev + escape(rest) =~= out@ + escape(rest.drop_first()));
    }
    assert(escape(s@.skip(s@.len() as int)) =~= Seq::<char>::empty());
    assert(out@ =~= before + escape(s@));
}

/// The value that the escaped text `v[from..to]` stands for.
pub fn unescape_range(v: &Vec<char>, from: usize, to: usize) -> (r: String)
    requires
        from <= to <= v.len(),
    ensures
        r@ == unescape(v@.subrange(from as int, to as int)),
{
    let mut r = String::new();
    let mut i: usize = from;
    let ghost whole = v@.subrange(from as int, to as int);
    while i < to
        invariant
            from <= i <= to <= v.len(),
            whole == v@.subrange(from as int, to as int),
            unescape(whole) == r@ + unescape(v@.subrange(i as int, to as int)),
        decreases to - i,
    {
        let ghost rest = v@.subrange(i as int, to as int);
        let ghost prev = r@;
        let c = v[i];
        if c != '\\' {
            r.push(c);
            assert(rest.skip(1) =~= v@.subrange(i + 1, to as int));
            i += 1;
            assert(prev + (seq![c] + unescape(rest.skip(1))) =~= r@ + unescape(rest.skip(1)));
        } else if i + 1 == to {
            r.push('\\');
            i += 1;
            assert(v@.subrange(i as int, to as int) =~= Seq::<char>::empty());
            assert(prev + seq!['\\'] =~= r@ + unescape(Seq::<char>::empty()));
        } else {
            let d = v[i + 1];
            if d == 'n' {
                r.push('\n');
            } else if d == 't' {
                r.push('\t');
            } else if d == 'r' {
                r.push('\r');
            } else if d == '\\' {
                r.push('\\');
            } else if d == '"' {
                r.push('"');
            } else {
                r.push('\\');
                r.push(d);
            }
            assert(r@ =~= prev + unescape_pair(d));
            assert(rest.skip(2) =~= v@.subrange(i + 2, to as int));
            i += 2;
            assert(prev + (unescape_pair(d) + unescape(rest.skip(2))) =~= r@ + unescape(
                rest.skip(2),
            ));
        }
    }
    assert(v@.subrange(to as int, to as int) =~= Seq::<char>::empty());
    assert(r@ + Seq::<char>::empty() =~= r@);
    r
}

} // verus!
