//! Writing a catalog as text: what the text is, and the writer that produces it.
//!
//! The header comes first, as a block with an empty `msgid` whose `msgstr`
//! holds one `name: value` line per field. Each entry follows as a block: its
//! comments, extracted comments, references, one line of flags, then
//! `msgctxt`, `msgid` and `msgstr`. A blank line ends every block.

use crate::escape::{escape, escape_into};
use crate::gettext::{entry_views, PoEntry};
use crate::header::Header;
use crate::model::EntryView;
use crate::text::{join, join_strings, texts};
use vstd::prelude::*;

verus! {

/// The text made of the lines `ls`, each followed by a line feed.
pub open spec fn join_lines(ls: Seq<Seq<char>>) -> Seq<char>
    decreases ls.len(),
{
    if ls.len() == 0 {
        seq![]
    } else {
        join_lines(ls.drop_last()) + ls.last() + seq!['\n']
    }
}

/// The line of one header field: the escaped name, a colon and a space, the
/// escaped value and an escaped line feed, all in double quotes.
pub open spec fn header_line(name: Seq<char>, value: Seq<char>) -> Seq<char> {
    "\""@ + escape(name) + ": "@ + escape(value) + "\\n\""@
}

/// The lines of the header fields, in order.
pub open spec fn field_lines(h: Seq<(Seq<char>, Seq<char>)>) -> Seq<Seq<char>> {
    Seq::new(h.len(), |i: int| header_line(h[i].0, h[i].1))
}

/// The lines of the header block; none where the header has no field.
pub open spec fn header_lines(h: Seq<(Seq<char>, Seq<char>)>) -> Seq<Seq<char>> {
    if h.len() == 0 {
        seq![]
    } else {
        seq!["msgid \"\""@, "msgstr \"\""@] + field_lines(h) + seq![Seq::<char>::empty()]
    }
}

/// Each item of `items` behind `prefix`.
pub open spec fn with_prefix(prefix: Seq<char>, items: Seq<Seq<char>>) -> Seq<Seq<char>> {
    Seq::new(items.len(), |i: int| prefix + items[i])
}

/// The flags separated by a comma and a space.
pub open spec fn join_flags(flags: Seq<Seq<char>>) -> Seq<char> {
    join(flags, ", "@)
}

/// The line of flags; none where there is no flag.
pub open spec fn flag_lines(flags: Seq<Seq<char>>) -> Seq<Seq<char>> {
    if flags.len() > 0 {
        seq!["#, "@ + join_flags(flags)]
    } else {
        seq![]
    }
}

/// A keyword line: the keyword with its opening quote, the escaped value, and
/// the closing quote.
pub open spec fn quoted_line(opening: Seq<char>, value: Seq<char>) -> Seq<char> {
    opening + escape(value) + "\""@
}

/// The `msgctxt` line; none where the entry has no context.
pub open spec fn context_lines(msgctxt: Option<Seq<char>>) -> Seq<Seq<char>> {
    match msgctxt {
        Some(c) => seq![quoted_line("msgctxt \""@, c)],
        None => seq![],
    }
}

/// The lines of one entry's block.
pub open spec fn entry_lines(e: EntryView) -> Seq<Seq<char>> {
    with_prefix("# "@, e.comments) + with_prefix("#. "@, e.extracted_comments) + with_prefix(
        "#: "@,
        e.references,
    ) + flag_lines(e.flags) + context_lines(e.msgctxt) + seq![
        quoted_line("msgid \""@, e.msgid),
        quoted_line("msgstr \""@, e.msgstr),
        Seq::<char>::empty(),
    ]
}

/// The lines of the blocks of `es`, in order.
pub open spec fn entries_lines(es: Seq<EntryView>) -> Seq<Seq<char>>
    decreases es.len(),
{
    if es.len() == 0 {
        seq![]
    } else {
        entries_lines(es.drop_last()) + entry_lines(es.last())
    }
}

/// The lines of a catalog.
pub open spec fn catalog_lines(h: Seq<(Seq<char>, Seq<char>)>, es: Seq<EntryView>) -> Seq<
    Seq<char>,
> {
    header_lines(h) + entries_lines(es)
}

/// The text of a catalog.
pub open spec fn serialize(h: Seq<(Seq<char>, Seq<char>)>, es: Seq<EntryView>) -> Seq<char> {
    join_lines(catalog_lines(h, es))
}

/// Joining distributes over concatenation.
pub proof fn lemma_join_concat(a: Seq<Seq<char>>, b: Seq<Seq<char>>)
    ensures
        join_lines(a + b) == join_lines(a) + join_lines(b),
    decreases b.len(),
{
    if b.len() == 0 {
        assert(a + b =~= a);
        assert(join_lines(a) + join_lines(b) =~= join_lines(a));
    } else {
        assert((a + b).drop_last() =~= a + b.drop_last());
        assert((a + b).last() == b.last());
        lemma_join_concat(a, b.drop_last());
        assert(join_lines(a) + join_lines(b.drop_last()) + b.last() + seq!['\n'] =~= join_lines(a)
            + (join_lines(b.drop_last()) + b.last() + seq!['\n']));
    }
}

/// One more line joined is the text so far, the line, and a line feed.
pub proof fn lemma_join_push(ls: Seq<Seq<char>>, l: Seq<char>)
    ensures
        join_lines(ls.push(l)) == join_lines(ls) + l + seq!['\n'],
{
    assert(ls.push(l).drop_last() =~= ls);
}

/// Appends `prefix`, `body` and a line feed.
fn put_line(out: &mut String, prefix: &str, body: &str)
    ensures
        final(out)@ == old(out)@ + (prefix@ + body@) + seq!['\n'],
{
    out.append(prefix);
    out.append(body);
    out.push('\n');
    assert(out@ =~= old(out)@ + (prefix@ + body@) + seq!['\n']);
}

/// Appends a keyword line and a line feed.
fn put_quoted(out: &mut String, opening: &str, value: &str)
    ensures
        final(out)@ == old(out)@ + quoted_line(opening@, value@) + seq!['\n'],
{
    out.append(opening);
    escape_into(out, value);
    out.append("\"");
    out.push('\n');
    assert(out@ =~= old(out)@ + quoted_line(opening@, value@) + seq!['\n']);
}

/// Appends the line of one header field and a line feed.
fn put_header_field(out: &mut String, name: &str, value: &str)
    ensures
        final(out)@ == old(out)@ + header_line(name@, value@) + seq!['\n'],
{
    out.append("\"");
    escape_into(out, name);
    out.append(": ");
    escape_into(out, value);
    out.append("\\n\"");
    out.push('\n');
    assert(out@ =~= old(out)@ + header_line(name@, value@) + seq!['\n']);
}

/// Appends the line of flags and a line feed.
fn put_flags(out: &mut String, flags: &Vec<String>)
    ensures
        final(out)@ == old(out)@ + ("#, "@ + join_flags(texts(flags@))) + seq!['\n'],
{
    let joined = join_strings(flags, ", ");
    put_line(out, "#, ", joined.as_str());
}

/// Appends one line behind `prefix` for each item.
fn put_prefixed(
    out: &mut String,
    prefix: &str,
    items: &Vec<String>,
    Ghost(start): Ghost<Seq<char>>,
    Ghost(had): Ghost<Seq<Seq<char>>>,
)
    requires
        old(out)@ == start + join_lines(had),
    ensures
        final(out)@ == start + join_lines(had + with_prefix(prefix@, texts(items@))),
{
    let mut i: usize = 0;
    assert(had + with_prefix(prefix@, texts(items@).take(0)) =~= had);
    while i < items.len()
        invariant
            i <= items.len(),
            out@ == start + join_lines(had + with_prefix(prefix@, texts(items@).take(i as int))),
        decreases items.len() - i,
    {
        let ghost done = had + with_prefix(prefix@, texts(items@).take(i as int));
        put_line(out, prefix, items[i].as_str());
        proof {
            lemma_join_push(done, prefix@ + items@[i as int]@);
            assert(done.push(prefix@ + items@[i as int]@) =~= had + with_prefix(
                prefix@,
                texts(items@).take(i + 1),
            ));
            assert(out@ =~= start + join_lines(done.push(prefix@ + items@[i as int]@)));
        }
        i += 1;
    }
    assert(texts(items@).take(items.len() as int) =~= texts(items@));
}

/// Appends the block of one entry.
fn put_entry(out: &mut String, entry: &PoEntry)
    ensures
        final(out)@ == old(out)@ + join_lines(entry_lines(entry@)),
{
    let ghost start = out@;
    let ghost e = entry@;
    let ghost mut ls: Seq<Seq<char>> = seq![];
    assert(out@ =~= start + join_lines(ls));
    put_prefixed(out, "# ", &entry.comments, Ghost(start), Ghost(ls));
    proof {
        ls = ls + with_prefix("# "@, e.comments);
    }
    put_prefixed(out, "#. ", &entry.extracted_comments, Ghost(start), Ghost(ls));
    proof {
        ls = ls + with_prefix("#. "@, e.extracted_comments);
    }
    put_prefixed(out, "#: ", &entry.references, Ghost(start), Ghost(ls));
    proof {
        ls = ls + with_prefix("#: "@, e.references);
    }
    if entry.flags.len() > 0 {
        put_flags(out, &entry.flags);
        proof {
            lemma_join_push(ls, "#, "@ + join_flags(e.flags));
            assert(out@ =~= start + join_lines(ls.push("#, "@ + join_flags(e.flags))));
            ls = ls.push("#, "@ + join_flags(e.flags));
        }
    }
    assert(ls =~= with_prefix("# "@, e.comments) + with_prefix("#. "@, e.extracted_comments)
        + with_prefix("#: "@, e.references) + flag_lines(e.flags));
    match &entry.msgctxt {
        Some(c) => {
            put_quoted(out, "msgctxt \"", c.as_str());
            proof {
                lemma_join_push(ls, quoted_line("msgctxt \""@, c@));
                assert(out@ =~= start + join_lines(ls.push(quoted_line("msgctxt \""@, c@))));
                ls = ls.push(quoted_line("msgctxt \""@, c@));
            }
        },
        None => {},
    }
    assert(ls =~= with_prefix("# "@, e.comments) + with_prefix("#. "@, e.extracted_comments)
        + with_prefix("#: "@, e.references) + flag_lines(e.flags) + context_lines(e.msgctxt));
    put_quoted(out, "msgid \"", entry.msgid.as_str());
    proof {
        lemma_join_push(ls, quoted_line("msgid \""@, e.msgid));
        assert(out@ =~= start + join_lines(ls.push(quoted_line("msgid \""@, e.msgid))));
        ls = ls.push(quoted_line("msgid \""@, e.msgid));
    }
    put_quoted(out, "msgstr \"", entry.msgstr.as_str());
    proof {
        lemma_join_push(ls, quoted_line("msgstr \""@, e.msgstr));
        assert(out@ =~= start + join_lines(ls.push(quoted_line("msgstr \""@, e.msgstr))));
        ls = ls.push(quoted_line("msgstr \""@, e.msgstr));
    }
    out.push('\n');
    proof {
        lemma_join_push(ls, Seq::<char>::empty());
        assert(out@ =~= start + join_lines(ls.push(Seq::<char>::empty())));
        ls = ls.push(Seq::<char>::empty());
        assert(ls =~= entry_lines(e));
    }
}

/// Appends the header block; nothing where the header has no field.
fn put_header(out: &mut String, header: &Header)
    ensures
        final(out)@ == old(out)@ + join_lines(header_lines(header@)),
{
    let ghost start = out@;
    let n = header.len();
    if n == 0 {
        assert(out@ =~= start + join_lines(header_lines(header@)));
        return ;
    }
    let ghost top = seq!["msgid \"\""@, "msgstr \"\""@];
    put_line(out, "msgid \"\"", "");
    put_line(out, "msgstr \"\"", "");
    proof {
        reveal_strlit("");
        assert("msgid \"\""@ + ""@ =~= "msgid \"\""@);
        assert("msgstr \"\""@ + ""@ =~= "msgstr \"\""@);
        lemma_join_push(seq![], "msgid \"\""@);
        lemma_join_push(seq!["msgid \"\""@], "msgstr \"\""@);
        assert(seq!["msgid \"\""@].push("msgstr \"\""@) =~= top);
        assert(Seq::<Seq<char>>::empty().push("msgid \"\""@) =~= seq!["msgid \"\""@]);
        assert(out@ =~= start + join_lines(top));
        assert(top + field_lines(header@.take(0)) =~= top);
    }
    let mut i: usize = 0;
    while i < n
        invariant
            i <= n == header@.len(),
            top == seq!["msgid \"\""@, "msgstr \"\""@],
            out@ == start + join_lines(top + field_lines(header@.take(i as int))),
        decreases n - i,
    {
        let ghost done = top + field_lines(header@.take(i as int));
        put_header_field(out, header.key_at(i).as_str(), header.value_at(i).as_str());
        proof {
            let l = header_line(header@[i as int].0, header@[i as int].1);
            lemma_join_push(done, l);
            assert(done.push(l) =~= top + field_lines(header@.take(i + 1)));
            assert(out@ =~= start + join_lines(done.push(l)));
        }
        i += 1;
    }
    out.push('\n');
    proof {
        assert(header@.take(n as int) =~= header@);
        let done = top + field_lines(header@);
        lemma_join_push(done, Seq::<char>::empty());
        assert(done.push(Seq::<char>::empty()) =~= header_lines(header@));
        assert(out@ =~= start + join_lines(done.push(Seq::<char>::empty())));
    }
}

/// The text of the catalog with header `header` and entries `entries`.
pub fn write_catalog(header: &Header, entries: &Vec<PoEntry>) -> (out: String)
    ensures
        out@ == serialize(header@, entry_views(entries@)),
{
    let mut out = String::new();
    let ghost es = entry_views(entries@);
    put_header(&mut out, header);
    let mut i: usize = 0;
    proof {
        assert(out@ =~= join_lines(header_lines(header@)));
        assert(header_lines(header@) + entries_lines(es.take(0)) =~= header_lines(header@));
    }
    while i < entries.len()
        invariant
            i <= entries.len(),
            es == entry_views(entries@),
            out@ == join_lines(header_lines(header@) + entries_lines(es.take(i as int))),
        decreases entries.len() - i,
    {
        let ghost done = header_lines(header@) + entries_lines(es.take(i as int));
        put_entry(&mut out, &entries[i]);
        proof {
            lemma_join_concat(done, entry_lines(es[i as int]));
            assert(es.take(i + 1).drop_last() =~= es.take(i as int));
            assert(es.take(i + 1).last() == es[i as int]);
            assert(done + entry_lines(es[i as int]) =~= header_lines(header@) + entries_lines(
                es.take(i + 1),
            ));
        }
        i += 1;
    }
    assert(es.take(entries.len() as int) =~= es);
    out
}

} // verus!
