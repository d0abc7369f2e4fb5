//! Reading catalog text: what the text means, and the reader that computes it.
//!
//! The text is read line by line, each line without its surrounding white
//! space. Blank lines separate blocks. A block is a run of `#` lines followed
//! by the `msgctxt`, `msgid` and `msgstr` fields, each a keyword line and the
//! quoted lines that continue it. A line that fits nowhere is reported and
//! passed over; reading never fails.

use crate::escape::{is_quoted, quoted_body, unescape, unescape_range};
use crate::gettext::{entry_views, PoEntry};
use crate::header::Header;
use crate::model::{assign, unique_keys, EntryView};
use crate::text::{
    find_char, index_of, last_index_of, lines, rfind_char, rows,
    skip_spaces, starts_with, texts, trim, trim_start, trimmed_string,
};
use vstd::prelude::*;

verus! {

/// What was wrong with a line.
#[derive(Debug, Clone, Copy, PartialEq, Eq)]
pub enum ParseErrorKind {
    /// The line begins no block and continues none.
    UnexpectedLine,
    /// A `msgctxt` line without a quoted literal.
    Msgctxt,
    /// A line continuing `msgctxt` that is no quoted literal.
    MsgctxtLiteral,
    /// A `msgid` line without a quoted literal.
    Msgid,
    /// A line continuing `msgid` that is no quoted literal.
    MsgidLiteral,
    /// A `msgstr` line without a quoted literal.
    Msgstr,
    /// A line continuing `msgstr` that is no quoted literal.
    MsgstrLiteral,
}

/// A line that could not be read, by its number (the first line is 1).
#[derive(Debug, Clone, Copy, PartialEq, Eq)]
pub struct ParseError {
    pub line: usize,
    pub kind: ParseErrorKind,
}

impl ParseError {
    /// A sentence that says what was wrong.
    pub fn message(&self) -> (s: String)
        ensures
            s@ == Self::message_of(self.kind),
    {
        match self.kind {
            ParseErrorKind::UnexpectedLine => String::from_str("Unexpected line"),
            ParseErrorKind::Msgctxt => String::from_str("Failed to parse msgctxt"),
            ParseErrorKind::MsgctxtLiteral => String::from_str(
                "Failed to parse msgctxt string literal",
            ),
            ParseErrorKind::Msgid => String::from_str("Failed to parse msgid"),
            ParseErrorKind::MsgidLiteral => String::from_str("Failed to parse msgid string literal"),
            ParseErrorKind::Msgstr => String::from_str("Failed to parse msgstr"),
            ParseErrorKind::MsgstrLiteral => String::from_str(
                "Failed to parse msgstr string literal",
            ),
        }
    }

    /// The sentence for each kind of error.
    pub open spec fn message_of(kind: ParseErrorKind) -> Seq<char> {
        match kind {
            ParseErrorKind::UnexpectedLine => "Unexpected line"@,
            ParseErrorKind::Msgctxt => "Failed to parse msgctxt"@,
            ParseErrorKind::MsgctxtLiteral => "Failed to parse msgctxt string literal"@,
            ParseErrorKind::Msgid => "Failed to parse msgid"@,
            ParseErrorKind::MsgidLiteral => "Failed to parse msgid string literal"@,
            ParseErrorKind::Msgstr => "Failed to parse msgstr"@,
            ParseErrorKind::MsgstrLiteral => "Failed to parse msgstr string literal"@,
        }
    }
}

/// The value of a quoted line: what stands between its first and last
/// character, decoded.
pub open spec fn literal_value(line: Seq<char>) -> Option<Seq<char>> {
    if is_quoted(line) {
        Some(unescape(quoted_body(line)))
    } else {
        None
    }
}

/// The value on a keyword line: after the keyword and at least one white
/// space, what stands between the first double quote and the last one of the
/// line, decoded.
pub open spec fn keyword_value(line: Seq<char>, keyword: Seq<char>) -> Option<Seq<char>> {
    let rest = line.skip(keyword.len() as int);
    let lit = trim_start(rest);
    let close = last_index_of(lit, '"');
    if keyword.is_prefix_of(line) && lit.len() < rest.len() && lit.len() > 0 && lit[0] == '"'
        && close > 0 {
        Some(unescape(lit.subrange(1, close)))
    } else {
        None
    }
}

/// A comment line of any kind. A line that begins with `#~` is none.
pub open spec fn is_meta_line(l: Seq<char>) -> bool {
    l.len() > 0 && l[0] == '#' && !(l.len() > 1 && l[1] == '~')
}

/// The flags on a flag line: the pieces between commas, each trimmed.
pub open spec fn flag_list(s: Seq<char>) -> Seq<Seq<char>>
    decreases s.len(),
{
    let k = index_of(s, ',');
    if 0 <= k < s.len() {
        seq![trim(s.take(k))] + flag_list(s.skip(k + 1))
    } else {
        seq![trim(s)]
    }
}

/// The entry after one comment line: `#.` adds an extracted comment, `#:` a
/// reference, `#,` flags, any other a translator comment.
pub open spec fn add_meta(e: EntryView, l: Seq<char>) -> EntryView {
    if l.len() > 1 && l[1] == '.' {
        EntryView { extracted_comments: e.extracted_comments.push(trim(l.skip(2))), ..e }
    } else if l.len() > 1 && l[1] == ':' {
        EntryView { references: e.references.push(trim(l.skip(2))), ..e }
    } else if l.len() > 1 && l[1] == ',' {
        EntryView { flags: e.flags + flag_list(l.skip(2)), ..e }
    } else {
        EntryView { comments: e.comments.push(trim(l.skip(1))), ..e }
    }
}

/// The entry after the comment lines that begin at line `i`, and the line that
/// follows them.
pub open spec fn scan_meta(ls: Seq<Seq<char>>, i: int, e: EntryView) -> (EntryView, int)
    decreases ls.len() - i,
{
    if 0 <= i < ls.len() && is_meta_line(ls[i]) {
        scan_meta(ls, i + 1, add_meta(e, ls[i]))
    } else {
        (e, i)
    }
}

/// One field of a block: its value, the line that follows it, and what was
/// reported on the way.
pub struct FieldScan {
    pub value: Seq<char>,
    pub next: int,
    pub errors: Seq<ParseError>,
}

/// A line that continues a field: it begins with a double quote.
pub open spec fn is_continuation(l: Seq<char>) -> bool {
    l.len() > 0 && l[0] == '"'
}

/// The field after the continuation lines that begin at line `i`. A
/// continuation line that is no quoted literal is reported and adds nothing.
pub open spec fn scan_literals(
    ls: Seq<Seq<char>>,
    i: int,
    value: Seq<char>,
    errors: Seq<ParseError>,
    kind: ParseErrorKind,
) -> FieldScan
    decreases ls.len() - i,
{
    if 0 <= i < ls.len() && is_continuation(ls[i]) {
        match literal_value(ls[i]) {
            Some(t) => scan_literals(ls, i + 1, value + t, errors, kind),
            None => scan_literals(
                ls,
                i + 1,
                value,
                errors.push(ParseError { line: (i + 1) as usize, kind }),
                kind,
            ),
        }
    } else {
        FieldScan { value, next: i, errors }
    }
}

/// The field that begins at line `i`, if that line begins with `keyword`. A
/// keyword line without a quoted literal is reported and gives the empty value.
pub open spec fn scan_field(
    ls: Seq<Seq<char>>,
    i: int,
    keyword: Seq<char>,
    on_keyword: ParseErrorKind,
    on_literal: ParseErrorKind,
) -> Option<FieldScan> {
    if 0 <= i < ls.len() && keyword.is_prefix_of(ls[i]) {
        match keyword_value(ls[i], keyword) {
            Some(v) => Some(scan_literals(ls, i + 1, v, seq![], on_literal)),
            None => Some(
                scan_literals(
                    ls,
                    i + 1,
                    seq![],
                    seq![ParseError { line: (i + 1) as usize, kind: on_keyword }],
                    on_literal,
                ),
            ),
        }
    } else {
        None
    }
}

/// Where reading goes on after an optional field that began at line `i`.
pub open spec fn after(f: Option<FieldScan>, i: int) -> int {
    match f {
        Some(s) => s.next,
        None => i,
    }
}

/// What an optional field reported.
pub open spec fn reported(f: Option<FieldScan>) -> Seq<ParseError> {
    match f {
        Some(s) => s.errors,
        None => seq![],
    }
}

/// A block: the entry it describes, the line that follows it, and what was
/// reported on the way.
pub struct Block {
    pub entry: EntryView,
    pub next: int,
    pub errors: Seq<ParseError>,
}

/// The block that begins at line `i`.
pub open spec fn parse_block(ls: Seq<Seq<char>>, i: int) -> Block {
    let (e0, j0) = scan_meta(ls, i, EntryView::empty());
    let c = scan_field(
        ls,
        j0,
        "msgctxt"@,
        ParseErrorKind::Msgctxt,
        ParseErrorKind::MsgctxtLiteral,
    );
    let j1 = after(c, j0);
    let m = scan_field(ls, j1, "msgid"@, ParseErrorKind::Msgid, ParseErrorKind::MsgidLiteral);
    let j2 = after(m, j1);
    let t = scan_field(ls, j2, "msgstr"@, ParseErrorKind::Msgstr, ParseErrorKind::MsgstrLiteral);
    let entry = EntryView {
        msgctxt: match c {
            Some(f) => Some(f.value),
            None => None,
        },
        msgid: match m {
            Some(f) => f.value,
            None => seq![],
        },
        msgstr: match t {
            Some(f) => f.value,
            None => seq![],
        },
        ..e0
    };
    Block {
        entry: entry.with_status(),
        next: after(t, j2),
        errors: reported(c) + reported(m) + reported(t),
    }
}

/// The header after one line of the header text: a line with a colon sets the
/// field named before the colon to what follows it, both trimmed.
pub open spec fn add_header_line(h: Seq<(Seq<char>, Seq<char>)>, l: Seq<char>) -> Seq<
    (Seq<char>, Seq<char>),
> {
    let k = index_of(l, ':');
    if 0 <= k < l.len() {
        assign(h, trim(l.take(k)), trim(l.skip(k + 1)))
    } else {
        h
    }
}

/// The header after the lines `ls`, taken in order.
pub open spec fn merge_lines(h: Seq<(Seq<char>, Seq<char>)>, ls: Seq<Seq<char>>) -> Seq<
    (Seq<char>, Seq<char>),
>
    decreases ls.len(),
{
    if ls.len() == 0 {
        h
    } else {
        merge_lines(add_header_line(h, ls[0]), ls.drop_first())
    }
}

/// What reading gave: header fields, entries, and the lines reported.
pub struct Parsed {
    pub header: Seq<(Seq<char>, Seq<char>)>,
    pub entries: Seq<EntryView>,
    pub errors: Seq<ParseError>,
}

/// What reading the lines from line `i` on adds to what was read before.
///
/// `first` says that no block was read yet. Only the first block can be the
/// header: it is, if its `msgid` is empty. A later block with an empty `msgid`
/// is dropped.
pub open spec fn parse_from(
    ls: Seq<Seq<char>>,
    i: int,
    first: bool,
    header: Seq<(Seq<char>, Seq<char>)>,
    entries: Seq<EntryView>,
    errors: Seq<ParseError>,
) -> Parsed
    decreases ls.len() - i,
{
    if !(0 <= i < ls.len()) {
        Parsed { header, entries, errors }
    } else if ls[i].len() == 0 {
        parse_from(ls, i + 1, first, header, entries, errors)
    } else {
        let b = parse_block(ls, i);
        if !(i < b.next <= ls.len()) {
            parse_from(
                ls,
                i + 1,
                first,
                header,
                entries,
                errors.push(
                    ParseError { line: (i + 1) as usize, kind: ParseErrorKind::UnexpectedLine },
                ),
            )
        } else if b.entry.msgid.len() == 0 && first {
            parse_from(
                ls,
                b.next,
                false,
                merge_lines(header, lines(b.entry.msgstr)),
                entries,
                errors + b.errors,
            )
        } else if b.entry.msgid.len() > 0 {
            parse_from(ls, b.next, false, header, entries.push(b.entry), errors + b.errors)
        } else {
            parse_from(ls, b.next, false, header, entries, errors + b.errors)
        }
    }
}

/// What the trimmed lines `ls` mean.
pub open spec fn parse_lines(ls: Seq<Seq<char>>) -> Parsed {
    parse_from(ls, 0, true, seq![], seq![], seq![])
}

/// What the catalog text `text` means.
pub open spec fn parse_text(text: Seq<char>) -> Parsed {
    parse_lines(crate::text::trimmed_lines(text))
}

/// Decodes a quoted line.
pub fn read_literal(line: &Vec<char>) -> (r: Option<String>)
    ensures
        match r {
            Some(s) => literal_value(line@) == Some(s@),
            None => literal_value(line@) is None,
        },
{
    let n = line.len();
    if n >= 2 && line[0] == '"' && line[n - 1] == '"' {
        Some(unescape_range(line, 1, n - 1))
    } else {
        None
    }
}

/// Decodes the literal on a line that begins with `keyword`.
fn read_keyword_value(line: &Vec<char>, keyword: &str) -> (r: Option<String>)
    requires
        keyword@.is_prefix_of(line@),
    ensures
        match r {
            Some(s) => keyword_value(line@, keyword@) == Some(s@),
            None => keyword_value(line@, keyword@) is None,
        },
{
    let klen = keyword.unicode_len();
    let n = line.len();
    let a = skip_spaces(line, klen, n);
    proof {
        assert(line@.subrange(klen as int, n as int) =~= line@.skip(klen as int));
    }
    if a > klen && a < n && line[a] == '"' {
        match rfind_char(line, a, n, '"') {
            Some(q) => {
                if q > a {
                    let s = unescape_range(line, a + 1, q);
                    proof {
                        let lit = line@.subrange(a as int, n as int);
                        assert(lit.subrange(1, q - a) =~= line@.subrange(a + 1, q as int));
                    }
                    Some(s)
                } else {
                    None
                }
            },
            None => None,
        }
    } else {
        None
    }
}

/// Reads the flags on a flag line from position `from` on and appends them.
fn read_flags(line: &Vec<char>, from: usize, flags: &mut Vec<String>)
    requires
        from <= line.len(),
    ensures
        texts(final(flags)@) == texts(old(flags)@) + flag_list(line@.skip(from as int)),
{
    let n = line.len();
    let ghost before = texts(flags@);
    let ghost goal = before + flag_list(line@.skip(from as int));
    let mut start: usize = from;
    let mut done = false;
    while !done
        invariant
            n == line.len(),
            from <= start <= n,
            !done ==> goal == texts(flags@) + flag_list(line@.skip(start as int)),
            done ==> goal == texts(flags@),
        decreases n - start + (if done { 0int } else { 1int }),
    {
        let k = find_char(line, start, n, ',');
        let piece = trimmed_string(line, start, k);
        let ghost rest = line@.skip(start as int);
        let ghost had = texts(flags@);
        proof {
            assert(line@.subrange(start as int, n as int) =~= rest);
            assert(rest.take(k - start) =~= line@.subrange(start as int, k as int));
        }
        flags.push(piece);
        assert(texts(flags@) =~= had.push(piece@));
        if k < n {
            proof {
                assert(rest.skip(k - start + 1) =~= line@.skip(k + 1));
                assert(had + (seq![piece@] + flag_list(line@.skip(k + 1))) =~= had.push(piece@)
                    + flag_list(line@.skip(k + 1)));
            }
            start = k + 1;
        } else {
            proof {
                assert(rest.take(k - start) =~= rest);
                assert(had + seq![piece@] =~= had.push(piece@));
            }
            done = true;
        }
    }
}

/// Tells whether `line` is a comment line.
fn is_meta(line: &Vec<char>) -> (r: bool)
    ensures
        r == is_meta_line(line@),
{
    line.len() > 0 && line[0] == '#' && !(line.len() > 1 && line[1] == '~')
}

/// Adds what a comment line says to the entry.
fn read_meta_line(entry: &mut PoEntry, line: &Vec<char>)
    requires
        is_meta_line(line@),
    ensures
        final(entry)@ == add_meta(old(entry)@, line@),
{
    let n = line.len();
    if n > 1 && line[1] == '.' {
        let s = trimmed_string(line, 2, n);
        assert(line@.subrange(2, n as int) =~= line@.skip(2));
        entry.extracted_comments.push(s);
        assert(texts(entry.extracted_comments@) =~= texts(old(entry).extracted_comments@).push(s@));
    } else if n > 1 && line[1] == ':' {
        let s = trimmed_string(line, 2, n);
        assert(line@.subrange(2, n as int) =~= line@.skip(2));
        entry.references.push(s);
        assert(texts(entry.references@) =~= texts(old(entry).references@).push(s@));
    } else if n > 1 && line[1] == ',' {
        read_flags(line, 2, &mut entry.flags);
    } else {
        let s = trimmed_string(line, 1, n);
        assert(line@.subrange(1, n as int) =~= line@.skip(1));
        entry.comments.push(s);
        assert(texts(entry.comments@) =~= texts(old(entry).comments@).push(s@));
    }
}

/// Reads the comment lines that begin at line `start` into the entry.
fn read_meta(lines: &Vec<Vec<char>>, start: usize, entry: &mut PoEntry) -> (j: usize)
    requires
        start <= lines.len(),
    ensures
        start <= j <= lines.len(),
        scan_meta(rows(lines@), start as int, old(entry)@) == (final(entry)@, j as int),
        final(entry)@.msgctxt == old(entry)@.msgctxt,
        final(entry)@.msgid == old(entry)@.msgid,
        final(entry)@.msgstr == old(entry)@.msgstr,
{
    let ghost e0 = entry@;
    let mut i: usize = start;
    while i < lines.len() && is_meta(&lines[i])
        invariant
            start <= i <= lines.len(),
            entry@.msgctxt == e0.msgctxt,
            entry@.msgid == e0.msgid,
            entry@.msgstr == e0.msgstr,
            scan_meta(rows(lines@), start as int, e0) == scan_meta(rows(lines@), i as int, entry@),
        decreases lines.len() - i,
    {
        read_meta_line(entry, &lines[i]);
        i += 1;
    }
    i
}

/// Reads the field that begins at line `i`, if that line begins with `keyword`.
fn read_field(
    lines: &Vec<Vec<char>>,
    i: usize,
    keyword: &str,
    on_keyword: ParseErrorKind,
    on_literal: ParseErrorKind,
    errors: &mut Vec<ParseError>,
) -> (r: Option<(String, usize)>)
    requires
        i <= lines.len(),
    ensures
        match scan_field(rows(lines@), i as int, keyword@, on_keyword, on_literal) {
            None => r is None && final(errors)@ == old(errors)@,
            Some(f) => r matches Some((v, j)) && v@ == f.value && j == f.next && i < j
                <= lines.len() && final(errors)@ == old(errors)@ + f.errors,
        },
{
    let ghost ls = rows(lines@);
    let ghost had = errors@;
    if i >= lines.len() {
        assert(errors@ =~= had);
        return None;
    }
    assert(lines@[i as int]@.skip(0) =~= lines@[i as int]@);
    if !starts_with(&lines[i], 0, keyword) {
        return None;
    }
    let mut value: String;
    let ghost mut local: Seq<ParseError>;
    match read_keyword_value(&lines[i], keyword) {
        Some(v) => {
            value = v;
            proof {
                local = seq![];
            }
        },
        None => {
            value = String::new();
            errors.push(ParseError { line: i + 1, kind: on_keyword });
            proof {
                local = seq![ParseError { line: (i + 1) as usize, kind: on_keyword }];
            }
        },
    }
    let ghost first = scan_literals(ls, i + 1, value@, local, on_literal);
    let mut j: usize = i + 1;
    assert(errors@ =~= had + local);
    while j < lines.len() && lines[j].len() > 0 && lines[j][0] == '"'
        invariant
            i < j <= lines.len(),
            ls == rows(lines@),
            errors@ == had + local,
            first == scan_literals(ls, j as int, value@, local, on_literal),
        decreases lines.len() - j,
    {
        match read_literal(&lines[j]) {
            Some(t) => {
                value.append(t.as_str());
            },
            None => {
                errors.push(ParseError { line: j + 1, kind: on_literal });
                proof {
                    local = local.push(ParseError { line: (j + 1) as usize, kind: on_literal });
                }
                assert(errors@ =~= had + local);
            },
        }
        j += 1;
    }
    Some((value, j))
}

/// Reads the block that begins at line `i`.
fn read_block(lines: &Vec<Vec<char>>, i: usize, errors: &mut Vec<ParseError>) -> (r: (
    PoEntry,
    usize,
))
    requires
        i <= lines.len(),
    ensures
        r.0@ == parse_block(rows(lines@), i as int).entry,
        r.1 == parse_block(rows(lines@), i as int).next,
        i <= r.1 <= lines.len(),
        final(errors)@ == old(errors)@ + parse_block(rows(lines@), i as int).errors,
{
    let ghost had = errors@;
    let ghost ls = rows(lines@);
    let mut entry = PoEntry::new();
    let mut j = read_meta(lines, i, &mut entry);
    let ghost e0 = entry@;
    let ghost c = scan_field(
        ls,
        j as int,
        "msgctxt"@,
        ParseErrorKind::Msgctxt,
        ParseErrorKind::MsgctxtLiteral,
    );
    match read_field(
        lines,
        j,
        "msgctxt",
        ParseErrorKind::Msgctxt,
        ParseErrorKind::MsgctxtLiteral,
        errors,
    ) {
        Some((v, next)) => {
            entry.msgctxt = Some(v);
            j = next;
        },
        None => {},
    }
    let ghost m = scan_field(
        ls,
        j as int,
        "msgid"@,
        ParseErrorKind::Msgid,
        ParseErrorKind::MsgidLiteral,
    );
    match read_field(lines, j, "msgid", ParseErrorKind::Msgid, ParseErrorKind::MsgidLiteral, errors) {
        Some((v, next)) => {
            entry.msgid = v;
            j = next;
        },
        None => {},
    }
    let ghost t = scan_field(
        ls,
        j as int,
        "msgstr"@,
        ParseErrorKind::Msgstr,
        ParseErrorKind::MsgstrLiteral,
    );
    match read_field(
        lines,
        j,
        "msgstr",
        ParseErrorKind::Msgstr,
        ParseErrorKind::MsgstrLiteral,
        errors,
    ) {
        Some((v, next)) => {
            entry.msgstr = v;
            j = next;
        },
        None => {},
    }
    entry.update_status();
    proof {
        assert(errors@ =~= had + (reported(c) + reported(m) + reported(t)));
    }
    (entry, j)
}

/// Merges the `name: value` lines of the header text into the header.
pub fn merge_header(header: &mut Header, text: &Vec<char>)
    ensures
        final(header)@ == merge_lines(old(header)@, lines(text@)),
        unique_keys(old(header)@) ==> unique_keys(final(header)@),
{
    let n = text.len();
    let ghost h0 = header@;
    let mut start: usize = 0;
    assert(text@.skip(0) =~= text@);
    while start < n
        invariant
            start <= n == text.len(),
            merge_lines(h0, lines(text@)) == merge_lines(header@, lines(text@.skip(start as int))),
            unique_keys(h0) ==> unique_keys(header@),
        decreases n - start,
    {
        let ghost rest = text@.skip(start as int);
        let ghost had = header@;
        let k = find_char(text, start, n, '\n');
        let c = find_char(text, start, k, ':');
        proof {
            assert(text@.subrange(start as int, n as int) =~= rest);
            assert(rest.take(k - start) =~= text@.subrange(start as int, k as int));
            let line = rest.take(k - start);
            assert(line.take(c - start) =~= text@.subrange(start as int, c as int));
            if c < k {
                assert(line.skip(c - start + 1) =~= text@.subrange(c + 1, k as int));
            }
        }
        if c < k {
            let key = trimmed_string(text, start, c);
            let value = trimmed_string(text, c + 1, k);
            header.insert(key, value);
        }
        proof {
            let line = rest.take(k - start);
            assert(header@ == add_header_line(had, line));
            if k < n {
                let tail = lines(rest.skip(k - start + 1));
                assert(lines(rest) == seq![line] + tail);
                assert((seq![line] + tail).drop_first() =~= tail);
                assert(rest.skip(k - start + 1) =~= text@.skip(k + 1));
            } else {
                assert(line =~= rest);
                assert(lines(rest) == seq![rest]);
                assert(seq![rest].drop_first() =~= Seq::<Seq<char>>::empty());
                assert(text@.skip(n as int) =~= Seq::<char>::empty());
            }
        }
        if k < n {
            start = k + 1;
        } else {
            start = n;
        }
    }
    assert(text@.skip(n as int) =~= Seq::<char>::empty());
}

/// Reads a catalog from its trimmed lines.
pub fn read_lines(lines: &Vec<Vec<char>>) -> (r: (Header, Vec<PoEntry>, Vec<ParseError>))
    ensures
        r.0@ == parse_lines(rows(lines@)).header,
        entry_views(r.1@) == parse_lines(rows(lines@)).entries,
        r.2@ == parse_lines(rows(lines@)).errors,
        unique_keys(r.0@),
{
    let ghost ls = rows(lines@);
    let mut header = Header::new();
    let mut entries: Vec<PoEntry> = Vec::new();
    let mut errors: Vec<ParseError> = Vec::new();
    let mut first = true;
    let mut i: usize = 0;
    assert(entry_views(entries@) =~= Seq::<EntryView>::empty());
    while i < lines.len()
        invariant
            i <= lines.len(),
            ls == rows(lines@),
            unique_keys(header@),
            parse_lines(ls) == parse_from(
                ls,
                i as int,
                first,
                header@,
                entry_views(entries@),
                errors@,
            ),
        decreases lines.len() - i,
    {
        if lines[i].len() == 0 {
            i += 1;
        } else {
            let ghost had = errors@;
            let ghost views = entry_views(entries@);
            let mut found: Vec<ParseError> = Vec::new();
            let (entry, next) = read_block(lines, i, &mut found);
            assert(found@ =~= parse_block(ls, i as int).errors);
            if next <= i {
                errors.push(ParseError { line: i + 1, kind: ParseErrorKind::UnexpectedLine });
                i += 1;
            } else {
                let mut found = found;
                errors.append(&mut found);
                if entry.msgid.as_str().is_empty() && first {
                    let text = crate::text::to_chars(entry.msgstr.as_str());
                    merge_header(&mut header, &text);
                } else if !entry.msgid.as_str().is_empty() {
                    entries.push(entry);
                    assert(entry_views(entries@) =~= views.push(entry@));
                }
                first = false;
                i = next;
            }
        }
    }
    (header, entries, errors)
}

} // verus!
