//! Character-level helpers shared by the parser and the editing session.
//!
//! Text is modelled as `Seq<char>`. The executable functions work on `Vec<char>`
//! so that every position is a whole character.

use vstd::prelude::*;
use vstd::std_specs::iter::IteratorSpec;
use vstd::utf8::{encode_scalar, encode_utf8};

verus! {

/// `String::push` appends one character to the end of the string.
pub assume_specification[ String::push ](s: &mut String, ch: char)
    ensures
        final(s)@ == old(s)@.push(ch),
;

/// The code points that carry the Unicode `White_Space` property.
pub open spec fn is_space(c: char) -> bool {
    let u = c as u32;
    (0x09 <= u <= 0x0D) || u == 0x20 || u == 0x85 || u == 0xA0 || u == 0x1680
        || (0x2000 <= u <= 0x200A) || u == 0x2028 || u == 0x2029 || u == 0x202F || u == 0x205F
        || u == 0x3000
}

/// Tells whether `c` is a white-space character.
pub fn is_whitespace(c: char) -> (r: bool)
    ensures
        r == is_space(c),
{
    let u: u32 = c as u32;
    (0x09 <= u && u <= 0x0D) || u == 0x20 || u == 0x85 || u == 0xA0 || u == 0x1680
        || (0x2000 <= u && u <= 0x200A) || u == 0x2028 || u == 0x2029 || u == 0x202F || u == 0x205F
        || u == 0x3000
}

/// The view of each row of a table of characters.
pub open spec fn rows(v: Seq<Vec<char>>) -> Seq<Seq<char>> {
    Seq::new(v.len(), |i: int| v[i]@)
}

/// The view of each string of a list.
pub open spec fn texts(v: Seq<String>) -> Seq<Seq<char>> {
    Seq::new(v.len(), |i: int| v[i]@)
}

/// The characters of `s`, in order.
pub fn to_chars(s: &str) -> (v: Vec<char>)
    ensures
        v@ == s@,
{
    let mut v: Vec<char> = Vec::new();
    for c in it: s.chars()
        invariant
            v@ == it.seq().take(it.index() as int),
            it.seq() == s@,
    {
        v.push(c);
    }
    v
}

/// The string made of the characters `v[from..to]`.
pub fn to_string_range(v: &Vec<char>, from: usize, to: usize) -> (s: String)
    requires
        from <= to <= v.len(),
    ensures
        s@ == v@.subrange(from as int, to as int),
{
    let mut s = String::new();
    let mut i: usize = from;
    while i < to
        invariant
            from <= i <= to <= v.len(),
            s@ =~= v@.subrange(from as int, i as int),
        decreases to - i,
    {
        s.push(v[i]);
        i += 1;
    }
    s
}

/// Position of the first `c` in `s`, or `s.len()` where there is none.
pub open spec fn index_of(s: Seq<char>, c: char) -> int
    decreases s.len(),
{
    if s.len() == 0 {
        0
    } else if s[0] == c {
        0
    } else {
        1 + index_of(s.drop_first(), c)
    }
}

/// `index_of` stays within the sequence and stops at the first occurrence.
pub proof fn lemma_index_of_bounds(s: Seq<char>, c: char)
    ensures
        0 <= index_of(s, c) <= s.len(),
        forall|j: int| 0 <= j < index_of(s, c) ==> s[j] != c,
        index_of(s, c) < s.len() ==> s[index_of(s, c)] == c,
    decreases s.len(),
{
    if s.len() > 0 && s[0] != c {
        let t = s.drop_first();
        lemma_index_of_bounds(t, c);
        assert forall|j: int| 0 <= j < index_of(s, c) implies s[j] != c by {
            if j > 0 {
                assert(s[j] == t[j - 1]);
            }
        }
    }
}

/// A position with no `c` before it, and `c` at it unless it is the end, is `index_of`.
pub proof fn lemma_index_of_is(s: Seq<char>, c: char, k: int)
    requires
        0 <= k <= s.len(),
        forall|j: int| 0 <= j < k ==> s[j] != c,
        k < s.len() ==> s[k] == c,
    ensures
        index_of(s, c) == k,
    decreases s.len(),
{
    if s.len() > 0 && s[0] != c {
        let t = s.drop_first();
        assert forall|j: int| 0 <= j < k - 1 implies t[j] != c by {
            assert(t[j] == s[j + 1]);
        }
        lemma_index_of_is(t, c, k - 1);
    }
}

/// Position of the last `c` in `s`, or `-1` where there is none.
pub open spec fn last_index_of(s: Seq<char>, c: char) -> int
    decreases s.len(),
{
    if s.len() == 0 {
        -1
    } else if s.last() == c {
        s.len() - 1
    } else {
        last_index_of(s.drop_last(), c)
    }
}

/// A position holding `c` with no `c` after it is `last_index_of`; so is `-1`
/// where `c` does not occur.
pub proof fn lemma_last_index_of_is(s: Seq<char>, c: char, k: int)
    requires
        -1 <= k < s.len(),
        forall|j: int| k < j < s.len() ==> s[j] != c,
        k >= 0 ==> s[k] == c,
    ensures
        last_index_of(s, c) == k,
    decreases s.len(),
{
    if s.len() > 0 && s.last() != c {
        lemma_last_index_of_is(s.drop_last(), c, k);
    }
}

/// `s` without its leading white space.
pub open spec fn trim_start(s: Seq<char>) -> Seq<char>
    decreases s.len(),
{
    if s.len() > 0 && is_space(s[0]) {
        trim_start(s.drop_first())
    } else {
        s
    }
}

/// `s` without its trailing white space.
pub open spec fn trim_end(s: Seq<char>) -> Seq<char>
    decreases s.len(),
{
    if s.len() > 0 && is_space(s.last()) {
        trim_end(s.drop_last())
    } else {
        s
    }
}

/// `s` without leading and trailing white space.
pub open spec fn trim(s: Seq<char>) -> Seq<char> {
    trim_end(trim_start(s))
}

/// Neither the first nor the last character is white space.
pub open spec fn is_trimmed(s: Seq<char>) -> bool {
    s.len() > 0 ==> !is_space(s[0]) && !is_space(s.last())
}

/// The first position in `v[from..to]` that holds no white space, or `to`.
pub fn skip_spaces(v: &Vec<char>, from: usize, to: usize) -> (a: usize)
    requires
        from <= to <= v.len(),
    ensures
        from <= a <= to,
        v@.subrange(a as int, to as int) == trim_start(v@.subrange(from as int, to as int)),
{
    let mut a: usize = from;
    while a < to && is_whitespace(v[a])
        invariant
            from <= a <= to <= v.len(),
            trim_start(v@.subrange(from as int, to as int)) == trim_start(
                v@.subrange(a as int, to as int),
            ),
        decreases to - a,
    {
        assert(v@.subrange(a as int, to as int).drop_first() =~= v@.subrange(a + 1, to as int));
        a += 1;
    }
    a
}

/// The bounds of `v[from..to]` without its leading and trailing white space.
pub fn trim_bounds(v: &Vec<char>, from: usize, to: usize) -> (r: (usize, usize))
    requires
        from <= to <= v.len(),
    ensures
        from <= r.0 <= r.1 <= to,
        v@.subrange(r.0 as int, r.1 as int) == trim(v@.subrange(from as int, to as int)),
{
    let a = skip_spaces(v, from, to);
    let mut b: usize = to;
    while b > a && is_whitespace(v[b - 1])
        invariant
            a <= b <= to <= v.len(),
            trim_end(v@.subrange(a as int, to as int)) == trim_end(v@.subrange(a as int, b as int)),
        decreases b - a,
    {
        assert(v@.subrange(a as int, b as int).drop_last() =~= v@.subrange(a as int, b - 1));
        b -= 1;
    }
    (a, b)
}

/// The text `v[from..to]` without its leading and trailing white space.
pub fn trimmed_string(v: &Vec<char>, from: usize, to: usize) -> (s: String)
    requires
        from <= to <= v.len(),
    ensures
        s@ == trim(v@.subrange(from as int, to as int)),
{
    let (a, b) = trim_bounds(v, from, to);
    to_string_range(v, a, b)
}

/// The first position in `v[from..to]` that holds `c`, or `to`.
pub fn find_char(v: &Vec<char>, from: usize, to: usize, c: char) -> (k: usize)
    requires
        from <= to <= v.len(),
    ensures
        from <= k <= to,
        k - from == index_of(v@.subrange(from as int, to as int), c),
{
    let mut k: usize = from;
    while k < to && v[k] != c
        invariant
            from <= k <= to <= v.len(),
            forall|j: int| from <= j < k ==> v@[j] != c,
        decreases to - k,
    {
        k += 1;
    }
    proof {
        lemma_index_of_is(v@.subrange(from as int, to as int), c, k - from);
    }
    k
}

/// The last position in `v[from..to]` that holds `c`, or `None`.
pub fn rfind_char(v: &Vec<char>, from: usize, to: usize, c: char) -> (r: Option<usize>)
    requires
        from <= to <= v.len(),
    ensures
        match r {
            Some(k) => from <= k < to && k - from == last_index_of(
                v@.subrange(from as int, to as int),
                c,
            ),
            None => last_index_of(v@.subrange(from as int, to as int), c) == -1,
        },
{
    let mut k: usize = to;
    while k > from && v[k - 1] != c
        invariant
            from <= k <= to <= v.len(),
            forall|j: int| k <= j < to ==> v@[j] != c,
        decreases k - from,
    {
        k -= 1;
    }
    proof {
        lemma_last_index_of_is(v@.subrange(from as int, to as int), c, k - from - 1);
    }
    if k > from {
        Some(k - 1)
    } else {
        None
    }
}

/// Tells whether `v[from..]` begins with the characters of `p`.
pub fn starts_with(v: &Vec<char>, from: usize, p: &str) -> (r: bool)
    requires
        from <= v.len(),
    ensures
        r == p@.is_prefix_of(v@.skip(from as int)),
{
    let n = p.unicode_len();
    if v.len() - from < n {
        return false;
    }
    let mut i: usize = 0;
    while i < n
        invariant
            0 <= i <= n == p@.len(),
            from + n <= v.len(),
            forall|j: int| 0 <= j < i ==> v@[from + j] == p@[j],
        decreases n - i,
    {
        if v[from + i] != p.get_char(i) {
            assert(v@.skip(from as int)[i as int] != p@[i as int]);
            return false;
        }
        i += 1;
    }
    assert(v@.skip(from as int).subrange(0, n as int) =~= p@);
    true
}

/// The pieces of `s` between occurrences of `sep`; one piece where there is none.
pub open spec fn split(s: Seq<char>, sep: char) -> Seq<Seq<char>>
    decreases s.len(),
{
    let k = index_of(s, sep);
    if 0 <= k < s.len() {
        seq![s.take(k)] + split(s.skip(k + 1), sep)
    } else {
        seq![s]
    }
}

/// The lines of `s`: the pieces between line feeds, without an empty piece
/// after the last line feed.
pub open spec fn lines(s: Seq<char>) -> Seq<Seq<char>>
    decreases s.len(),
{
    let k = index_of(s, '\n');
    if s.len() == 0 {
        seq![]
    } else if 0 <= k < s.len() {
        seq![s.take(k)] + lines(s.skip(k + 1))
    } else {
        seq![s]
    }
}

/// `l` without one carriage return at its end.
pub open spec fn strip_cr(l: Seq<char>) -> Seq<char> {
    if l.len() > 0 && l.last() == '\r' {
        l.drop_last()
    } else {
        l
    }
}

/// The lines of `s` as an editor shows them: split at line feeds, a carriage
/// return just before a line feed taken out with it, and no empty line after
/// the last line feed.
pub open spec fn text_lines(s: Seq<char>) -> Seq<Seq<char>>
    decreases s.len(),
{
    let k = index_of(s, '\n');
    if s.len() == 0 {
        seq![]
    } else if 0 <= k < s.len() {
        seq![strip_cr(s.take(k))] + text_lines(s.skip(k + 1))
    } else {
        seq![s]
    }
}

/// The items of `items` with `sep` between each two.
pub open spec fn join(items: Seq<Seq<char>>, sep: Seq<char>) -> Seq<char>
    decreases items.len(),
{
    if items.len() == 0 {
        seq![]
    } else if items.len() == 1 {
        items[0]
    } else {
        join(items.drop_last(), sep) + sep + items.last()
    }
}

/// Each line of `s` without its leading and trailing white space.
pub open spec fn trimmed_lines(s: Seq<char>) -> Seq<Seq<char>> {
    lines(s).map_values(|l: Seq<char>| trim(l))
}

/// The lines of `v`, each trimmed.
pub fn split_trimmed_lines(v: &Vec<char>) -> (r: Vec<Vec<char>>)
    ensures
        rows(r@) == trimmed_lines(v@),
{
    let mut r: Vec<Vec<char>> = Vec::new();
    let mut start: usize = 0;
    let n = v.len();
    assert(v@.skip(0) =~= v@);
    while start < n
        invariant
            start <= n == v.len(),
            trimmed_lines(v@) == rows(r@) + trimmed_lines(v@.skip(start as int)),
        decreases n - start,
    {
        let k = find_char(v, start, n, '\n');
        let (a, b) = trim_bounds(v, start, k);
        let line = copy_range(v, a, b);
        let ghost rest = v@.skip(start as int);
        let ghost old_rows = rows(r@);
        proof {
            assert(v@.subrange(start as int, n as int) =~= rest);
            assert(rest.take(k - start) =~= v@.subrange(start as int, k as int));
            lemma_index_of_bounds(rest, '\n');
        }
        r.push(line);
        if k < n {
            proof {
                assert(rest.skip(k - start + 1) =~= v@.skip(k + 1));
                let tail = lines(v@.skip(k + 1));
                assert(lines(rest) == seq![rest.take(k - start)] + tail);
                assert(trimmed_lines(rest) =~= seq![trim(rest.take(k - start))] + trimmed_lines(
                    v@.skip(k + 1),
                ));
                assert(rows(r@) =~= old_rows + seq![trim(rest.take(k - start))]);
            }
            start = k + 1;
        } else {
            proof {
                assert(v@.skip(n as int) =~= Seq::<char>::empty());
                assert(lines(rest) == seq![rest]);
                assert(rest.take(k - start) =~= rest);
                assert(trimmed_lines(rest) =~= seq![trim(rest)]);
                assert(trimmed_lines(v@.skip(n as int)) =~= Seq::<Seq<char>>::empty());
                assert(rows(r@) =~= old_rows + seq![trim(rest)]);
            }
            start = n;
        }
    }
    assert(trimmed_lines(v@.skip(n as int)) =~= Seq::<Seq<char>>::empty());
    assert(rows(r@) + Seq::<Seq<char>>::empty() =~= rows(r@));
    r
}

/// The lines of `v` as an editor shows them.
pub fn split_text_lines(v: &Vec<char>) -> (r: Vec<String>)
    ensures
        texts(r@) == text_lines(v@),
{
    let mut r: Vec<String> = Vec::new();
    let mut start: usize = 0;
    let n = v.len();
    assert(v@.skip(0) =~= v@);
    assert(texts(r@) =~= Seq::<Seq<char>>::empty());
    while start < n
        invariant
            start <= n == v.len(),
            text_lines(v@) == texts(r@) + text_lines(v@.skip(start as int)),
        decreases n - start,
    {
        let k = find_char(v, start, n, '\n');
        let ghost rest = v@.skip(start as int);
        let ghost had = texts(r@);
        proof {
            assert(v@.subrange(start as int, n as int) =~= rest);
            assert(rest.take(k - start) =~= v@.subrange(start as int, k as int));
        }
        if k < n {
            let end = if k > start && v[k - 1] == '\r' {
                k - 1
            } else {
                k
            };
            let line = to_string_range(v, start, end);
            proof {
                let whole = rest.take(k - start);
                if end < k {
                    assert(whole.drop_last() =~= v@.subrange(start as int, end as int));
                }
                assert(line@ == strip_cr(whole));
                assert(rest.skip(k - start + 1) =~= v@.skip(k + 1));
            }
            r.push(line);
            assert(texts(r@) =~= had.push(line@));
            assert(had + (seq![line@] + text_lines(v@.skip(k + 1))) =~= had.push(line@)
                + text_lines(v@.skip(k + 1)));
            start = k + 1;
        } else {
            let line = to_string_range(v, start, n);
            r.push(line);
            proof {
                assert(rest.take(k - start) =~= rest);
                assert(texts(r@) =~= had.push(line@));
                assert(v@.skip(n as int) =~= Seq::<char>::empty());
                assert(had + seq![rest] =~= had.push(line@) + text_lines(v@.skip(n as int)));
            }
            start = n;
        }
    }
    assert(v@.skip(n as int) =~= Seq::<char>::empty());
    assert(texts(r@) + Seq::<Seq<char>>::empty() =~= texts(r@));
    r
}

/// The items of `items` with `sep` between each two, as one string.
pub fn join_strings(items: &Vec<String>, sep: &str) -> (out: String)
    ensures
        out@ == join(texts(items@), sep@),
{
    let mut out = String::new();
    if items.len() == 0 {
        return out;
    }
    out.append(items[0].as_str());
    let mut i: usize = 1;
    assert(texts(items@).take(1) =~= seq![items@[0]@]);
    assert(out@ =~= items@[0]@);
    while i < items.len()
        invariant
            1 <= i <= items.len(),
            out@ == join(texts(items@).take(i as int), sep@),
        decreases items.len() - i,
    {
        let ghost had = out@;
        out.append(sep);
        out.append(items[i].as_str());
        proof {
            let next = texts(items@).take(i + 1);
            assert(next.drop_last() =~= texts(items@).take(i as int));
            assert(next.last() == items@[i as int]@);
        }
        i += 1;
    }
    assert(texts(items@).take(items.len() as int) =~= texts(items@));
    out
}

/// The lower-case form of a text, as `str::to_lowercase` gives it.
pub uninterp spec fn lowercase(s: Seq<char>) -> Seq<char>;

/// `str::to_lowercase` maps a text to its lower-case form by the Unicode
/// rules; the result depends on the text alone.
pub assume_specification[ str::to_lowercase ](s: &str) -> (r: String)
    ensures
        r@ == lowercase(s@),
;

/// `char::len_utf8` gives the number of bytes that the character takes in UTF-8.
pub assume_specification[ char::len_utf8 ](c: char) -> (n: usize)
    ensures
        n == encode_scalar(c as u32).len(),
;

/// The position at which a character is put into a text of `len`
/// characters: `at`, or the end where `at` lies behind it.
pub open spec fn clamped(at: int, len: int) -> int {
    if at < len {
        at
    } else {
        len
    }
}

/// How many bytes the first `n` characters of `s` take in UTF-8; those of the
/// whole text where it has fewer characters.
pub open spec fn byte_offset(s: Seq<char>, n: int) -> int {
    encode_utf8(s.take(clamped(n, s.len() as int))).len() as int
}

/// The UTF-8 form of a text is that of its parts, one after the other.
pub proof fn lemma_encode_concat(a: Seq<char>, b: Seq<char>)
    ensures
        encode_utf8(a + b) == encode_utf8(a) + encode_utf8(b),
    decreases a.len(),
{
    if a.len() == 0 {
        assert(a + b =~= b);
        assert(encode_utf8(a) + encode_utf8(b) =~= encode_utf8(b));
    } else {
        assert((a + b).drop_first() =~= a.drop_first() + b);
        assert((a + b)[0] == a[0]);
        lemma_encode_concat(a.drop_first(), b);
        assert(encode_scalar(a[0] as u32) + (encode_utf8(a.drop_first()) + encode_utf8(b))
            =~= (encode_scalar(a[0] as u32) + encode_utf8(a.drop_first())) + encode_utf8(b));
    }
}

/// The byte at which the character at position `char_idx` of `text`
/// begins, or the length of the text in bytes where it has fewer characters.
pub fn char_to_byte_index(text: &str, char_idx: usize) -> (r: usize)
    ensures
        r == byte_offset(text@, char_idx as int),
{
    let total = text.as_bytes().len();
    let chars = to_chars(text);
    let n = chars.len();
    let ghost s = text@;
    let mut bytes: usize = 0;
    let mut i: usize = 0;
    assert(s.take(0) =~= Seq::<char>::empty());
    while i < n && i < char_idx
        invariant
            i <= n == s.len(),
            i <= char_idx,
            chars@ == s,
            total == encode_utf8(s).len(),
            bytes == encode_utf8(s.take(i as int)).len(),
        decreases n - i,
    {
        let width = chars[i].len_utf8();
        proof {
            let one = seq![s[i as int]];
            assert(s.take(i + 1) =~= s.take(i as int) + one);
            lemma_encode_concat(s.take(i as int), one);
            assert(one.drop_first() =~= Seq::<char>::empty());
            assert(encode_utf8(one.drop_first()) =~= Seq::<u8>::empty());
            assert(one[0] == s[i as int]);
            assert(encode_utf8(one) =~= encode_scalar(s[i as int] as u32));
            assert(s =~= s.take(i + 1) + s.skip(i + 1));
            lemma_encode_concat(s.take(i + 1), s.skip(i + 1));
        }
        bytes = bytes + width;
        i += 1;
    }
    bytes
}

/// A copy of `v[from..to]`.
pub fn copy_range(v: &Vec<char>, from: usize, to: usize) -> (r: Vec<char>)
    requires
        from <= to <= v.len(),
    ensures
        r@ == v@.subrange(from as int, to as int),
{
    let mut r: Vec<char> = Vec::new();
    let mut i: usize = from;
    while i < to
        invariant
            from <= i <= to <= v.len(),
            r@ =~= v@.subrange(from as int, i as int),
        decreases to - i,
    {
        r.push(v[i]);
        i += 1;
    }
    r
}

/// `needle` occurs in `hay` as a run of consecutive characters.
pub open spec fn contains(hay: Seq<char>, needle: Seq<char>) -> bool {
    exists|i: int| occurs_at(hay, needle, i)
}

/// `needle` occurs in `hay` at position `i`.
pub open spec fn occurs_at(hay: Seq<char>, needle: Seq<char>, i: int) -> bool {
    0 <= i && i + needle.len() <= hay.len() && hay.subrange(i, i + needle.len()) == needle
}

/// Tells whether `needle` occurs in `hay` at position `i`.
fn matches_at(hay: &Vec<char>, needle: &Vec<char>, i: usize) -> (r: bool)
    requires
        i + needle.len() <= hay.len(),
    ensures
        r == occurs_at(hay@, needle@, i as int),
{
    let n = needle.len();
    let mut j: usize = 0;
    while j < n
        invariant
            0 <= j <= n == needle.len(),
            i + n <= hay.len(),
            forall|k: int| 0 <= k < j ==> hay@[i + k] == needle@[k],
        decreases n - j,
    {
        if hay[i + j] != needle[j] {
            assert(hay@.subrange(i as int, i + n)[j as int] != needle@[j as int]);
            return false;
        }
        j += 1;
    }
    assert(hay@.subrange(i as int, i + n) =~= needle@);
    true
}

/// Tells whether `needle` occurs in `hay`.
pub fn contains_chars(hay: &Vec<char>, needle: &Vec<char>) -> (r: bool)
    ensures
        r == contains(hay@, needle@),
{
    let n = needle.len();
    let h = hay.len();
    if n > h {
        return false;
    }
    let last: usize = h - n;
    let mut i: usize = 0;
    loop
        invariant
            n == needle.len(),
            h == hay.len(),
            last == h - n,
            0 <= i <= last,
            forall|k: int| 0 <= k < i ==> !occurs_at(hay@, needle@, k),
        decreases last - i,
    {
        if matches_at(hay, needle, i) {
            return true;
        }
        if i == last {
            return false;
        }
        i += 1;
    }
}

} // verus!
