//! JSON strings and arrays: how they are written, and that a reader gets back what was
//! written.

use vstd::prelude::*;

use crate::entry::hex_digit;
use crate::text::{join, joined, texts};

verus! {

/// A character as it stands in a JSON string: backslashes, quotes and every control
/// character escaped.
pub open spec fn escaped_char(c: char) -> Seq<char> {
    let v = c as u32;
    if c == '\\' {
        seq!['\\', '\\']
    } else if c == '"' {
        seq!['\\', '"']
    } else if c == '\n' {
        seq!['\\', 'n']
    } else if c == '\t' {
        seq!['\\', 't']
    } else if c == '\r' {
        seq!['\\', 'r']
    } else if v < 0x20 {
        seq!['\\', 'u', '0', '0', hex_digit(v as int / 16), hex_digit(v as int % 16)]
    } else {
        seq![c]
    }
}

/// A text as it stands in a JSON string.
pub open spec fn escaped(s: Seq<char>) -> Seq<char>
    decreases s.len(),
{
    if s.len() == 0 {
        Seq::empty()
    } else {
        escaped(s.drop_last()) + escaped_char(s.last())
    }
}

/// A text as a JSON string.
pub open spec fn quoted(s: Seq<char>) -> Seq<char> {
    seq!['"'] + escaped(s) + seq!['"']
}

/// `items` as a JSON array.
pub open spec fn json_array(items: Seq<Seq<char>>) -> Seq<char> {
    seq!['['] + joined(items, ","@) + seq![']']
}

/// The hexadecimal digit of value `d`.
fn hex_char(d: u8) -> (r: char)
    requires
        d < 16,
    ensures
        r == hex_digit(d as int),
{
    if d < 10 {
        (48 + d) as char
    } else {
        (87 + d) as char
    }
}

/// Writes a text as a JSON string.
pub fn quote(s: &str) -> (r: String)
    ensures
        r@ == quoted(s@),
{
    let mut out = String::new();
    out.push('"');
    for c in it: s.chars()
        invariant
            it.seq() == s@,
            out@ == seq!['"'] + escaped(s@.take(it.index())),
    {
        let ghost before = out@;
        let v: u32 = c as u32;
        if c == '\\' {
            out.push('\\');
            out.push('\\');
        } else if c == '"' {
            out.push('\\');
            out.push('"');
        } else if c == '\n' {
            out.push('\\');
            out.push('n');
        } else if c == '\t' {
            out.push('\\');
            out.push('t');
        } else if c == '\r' {
            out.push('\\');
            out.push('r');
        } else if v < 0x20 {
            let low: u8 = v as u8;
            out.push('\\');
            out.push('u');
            out.push('0');
            out.push('0');
            out.push(hex_char(low / 16));
            out.push(hex_char(low % 16));
        } else {
            out.push(c);
        }
        proof {
            let done = s@.take(it.index() as int + 1);
            assert(done.drop_last() =~= s@.take(it.index() as int));
            assert(done.last() == c);
            assert(out@ =~= before + escaped_char(c));
            assert(out@ =~= seq!['"'] + escaped(done));
        }
    }
    assert(s@.take(s@.len() as int) =~= s@);
    out.push('"');
    assert(out@ =~= quoted(s@));
    out
}

/// Puts `items` into a JSON array.
pub fn bracketed(items: &Vec<String>) -> (r: String)
    ensures
        r@ == json_array(texts(items@)),
{
    let mut out = String::new();
    out.push('[');
    out.append(join(items, ",").as_str());
    out.push(']');
    assert(out@ =~= json_array(texts(items@)));
    out
}

/// The value of a hexadecimal digit, in either case.
pub open spec fn hex_value(c: char) -> Option<int> {
    if '0' <= c <= '9' {
        Some(c as int - 48)
    } else if 'a' <= c <= 'f' {
        Some(c as int - 87)
    } else if 'A' <= c <= 'F' {
        Some(c as int - 55)
    } else {
        None
    }
}

/// The character that four hexadecimal digits at `i` stand for; none for half a
/// surrogate pair.
pub open spec fn unicode_at(t: Seq<char>, i: int) -> Option<char> {
    match (hex_value(t[i]), hex_value(t[i + 1]), hex_value(t[i + 2]), hex_value(t[i + 3])) {
        (Some(a), Some(b), Some(c), Some(d)) => {
            let v = 0x1000 * a + 0x100 * b + 0x10 * c + d;
            if 0xD800 <= v <= 0xDFFF {
                None
            } else {
                Some(v as char)
            }
        },
        _ => None,
    }
}

/// The character that an escape of one character stands for.
pub open spec fn short_escape(c: char) -> Option<char> {
    if c == '"' || c == '\\' || c == '/' {
        Some(c)
    } else if c == 'n' {
        Some('\n')
    } else if c == 't' {
        Some('\t')
    } else if c == 'r' {
        Some('\r')
    } else if c == 'b' {
        Some(8 as char)
    } else if c == 'f' {
        Some(12 as char)
    } else {
        None
    }
}

/// A reading with one more character in front.
pub open spec fn with_front(c: char, r: Option<(Seq<char>, Seq<char>)>) -> Option<
    (Seq<char>, Seq<char>),
> {
    match r {
        Some((s, rest)) => Some((seq![c] + s, rest)),
        None => None,
    }
}

/// Reads the rest of a JSON string, behind its opening quote: its text, and what comes
/// behind its closing quote. A raw control character is no JSON.
pub open spec fn read_body(t: Seq<char>) -> Option<(Seq<char>, Seq<char>)>
    decreases t.len(),
{
    if t.len() == 0 || (t[0] as u32) < 0x20 {
        None
    } else if t[0] == '"' {
        Some((Seq::empty(), t.skip(1)))
    } else if t[0] != '\\' {
        with_front(t[0], read_body(t.skip(1)))
    } else if t.len() >= 6 && t[1] == 'u' {
        match unicode_at(t, 2) {
            Some(c) => with_front(c, read_body(t.skip(6))),
            None => None,
        }
    } else if t.len() >= 2 && short_escape(t[1]) is Some {
        with_front(short_escape(t[1])->0, read_body(t.skip(2)))
    } else {
        None
    }
}

/// Reads a JSON string: its text, and what comes behind it.
pub open spec fn read_string(t: Seq<char>) -> Option<(Seq<char>, Seq<char>)> {
    if t.len() > 0 && t[0] == '"' {
        read_body(t.skip(1))
    } else {
        None
    }
}

/// Reads JSON values separated by commas, up to the bracket that ends the text.
pub open spec fn read_values<T>(
    t: Seq<char>,
    value: spec_fn(Seq<char>) -> Option<(T, Seq<char>)>,
) -> Option<Seq<T>>
    decreases t.len(),
{
    match value(t) {
        Some((v, rest)) => if rest.len() == 0 || rest.len() >= t.len() {
            None
        } else if rest == seq![']'] {
            Some(seq![v])
        } else if rest[0] == ',' {
            match read_values(rest.skip(1), value) {
                Some(more) => Some(seq![v] + more),
                None => None,
            }
        } else {
            None
        },
        None => None,
    }
}

/// Reads a text that is a JSON array, each of whose values `value` reads.
pub open spec fn read_array<T>(
    t: Seq<char>,
    value: spec_fn(Seq<char>) -> Option<(T, Seq<char>)>,
) -> Option<Seq<T>> {
    if t == seq!['[', ']'] {
        Some(Seq::empty())
    } else if t.len() > 0 && t[0] == '[' {
        read_values(t.skip(1), value)
    } else {
        None
    }
}

/// An escaped text begins with its first character, escaped.
proof fn lemma_escaped_front(s: Seq<char>)
    requires
        s.len() > 0,
    ensures
        escaped(s) == escaped_char(s[0]) + escaped(s.skip(1)),
    decreases s.len(),
{
    if s.len() == 1 {
        assert(s.drop_last() =~= Seq::empty());
        assert(s.skip(1) =~= Seq::empty());
        assert(escaped(s) =~= escaped_char(s[0]) + escaped(s.skip(1)));
    } else {
        lemma_escaped_front(s.drop_last());
        assert(s.drop_last().skip(1) =~= s.skip(1).drop_last());
        assert(escaped(s) =~= escaped_char(s[0]) + escaped(s.skip(1)));
    }
}

/// One escaped character is read as that character.
proof fn lemma_char_reads_back(c: char, rest: Seq<char>)
    ensures
        read_body(escaped_char(c) + rest) == with_front(c, read_body(rest)),
{
    let t = escaped_char(c) + rest;
    let n = escaped_char(c).len() as int;
    assert(t.skip(n) =~= rest);
    let v = c as u32;
    if v < 0x20 && c != '\n' && c != '\t' && c != '\r' {
        assert(v as int / 16 == 0 || v as int / 16 == 1);
        assert(hex_value('0') == Some(0int));
        assert(hex_value(hex_digit(v as int / 16)) == Some(v as int / 16));
        assert(hex_value(hex_digit(v as int % 16)) == Some(v as int % 16));
        assert(unicode_at(t, 2) == Some(c));
    }
}

/// Unescaping gives the text back: a JSON string reader that meets what [`quote`] wrote
/// reads the text that it was given, whatever characters it holds, and stops right
/// behind it.
pub proof fn law_quoted_text_reads_back(s: Seq<char>, rest: Seq<char>)
    ensures
        read_string(quoted(s) + rest) == Some((s, rest)),
{
    let t = quoted(s) + rest;
    lemma_body_reads_back(s, rest);
    assert(t.skip(1) =~= escaped(s) + (seq!['"'] + rest));
}

proof fn lemma_body_reads_back(s: Seq<char>, rest: Seq<char>)
    ensures
        read_body(escaped(s) + (seq!['"'] + rest)) == Some((s, rest)),
    decreases s.len(),
{
    let end = seq!['"'] + rest;
    if s.len() == 0 {
        assert(escaped(s) + end =~= end);
        assert(end.skip(1) =~= rest);
        assert(s =~= Seq::empty());
    } else {
        let more = escaped(s.skip(1)) + end;
        lemma_escaped_front(s);
        lemma_body_reads_back(s.skip(1), rest);
        lemma_char_reads_back(s[0], more);
        assert(escaped(s) + end =~= escaped_char(s[0]) + more);
        assert(seq![s[0]] + s.skip(1) =~= s);
    }
}

/// A joined text begins with its first part.
proof fn lemma_joined_front(parts: Seq<Seq<char>>, sep: Seq<char>)
    requires
        parts.len() > 1,
    ensures
        joined(parts, sep) == parts[0] + sep + joined(parts.skip(1), sep),
    decreases parts.len(),
{
    let front = parts.drop_last();
    let back = parts.skip(1);
    if parts.len() == 2 {
        assert(joined(front, sep) == parts[0]);
        assert(joined(back, sep) == parts[1]);
    } else {
        lemma_joined_front(front, sep);
        assert(front.skip(1) =~= back.drop_last());
        assert(back.last() == parts.last());
        assert(joined(parts, sep) =~= parts[0] + sep + joined(back, sep));
    }
}

/// A JSON array reader gets back the values of an array, in order, with nothing lost and
/// nothing added, where it can read each of them whatever comes behind it.
pub proof fn law_array_reads_back<T>(
    items: Seq<Seq<char>>,
    values: Seq<T>,
    value: spec_fn(Seq<char>) -> Option<(T, Seq<char>)>,
)
    requires
        items.len() == values.len(),
        forall|i: int, rest: Seq<char>|
            0 <= i < items.len() ==> #[trigger] value(items[i] + rest) == Some((values[i], rest)),
        forall|i: int| 0 <= i < items.len() ==> (#[trigger] items[i]).len() > 0,
    ensures
        read_array(json_array(items), value) == Some(values),
{
    let t = json_array(items);
    if items.len() == 0 {
        assert(t =~= seq!['[', ']']);
        assert(values =~= Seq::empty());
    } else {
        lemma_values_read_back(items, values, value);
        assert(t.skip(1) =~= joined(items, ","@) + seq![']']);
        assert(joined(items, ","@).len() > 0) by {
            assert(items[0].len() > 0);
            if items.len() > 1 {
                lemma_joined_front(items, ","@);
            }
        }
    }
}

proof fn lemma_values_read_back<T>(
    items: Seq<Seq<char>>,
    values: Seq<T>,
    value: spec_fn(Seq<char>) -> Option<(T, Seq<char>)>,
)
    requires
        items.len() == values.len(),
        items.len() > 0,
        forall|i: int, rest: Seq<char>|
            0 <= i < items.len() ==> #[trigger] value(items[i] + rest) == Some((values[i], rest)),
        forall|i: int| 0 <= i < items.len() ==> (#[trigger] items[i]).len() > 0,
    ensures
        read_values(joined(items, ","@) + seq![']'], value) == Some(values),
    decreases items.len(),
{
    let t = joined(items, ","@) + seq![']'];
    assert(items[0].len() > 0);
    if items.len() == 1 {
        assert(value(items[0] + seq![']']) == Some((values[0], seq![']'])));
        assert(values =~= seq![values[0]]);
    } else {
        let more_items = items.skip(1);
        let more_values = values.skip(1);
        assert forall|i: int, rest: Seq<char>|
            0 <= i < more_items.len() implies #[trigger] value(more_items[i] + rest) == Some(
            (more_values[i], rest),
        ) by {
            assert(value(items[i + 1] + rest) == Some((values[i + 1], rest)));
        }
        assert forall|i: int| 0 <= i < more_items.len() implies (#[trigger] more_items[i]).len()
            > 0 by {
            assert(items[i + 1].len() > 0);
        }
        lemma_values_read_back(more_items, more_values, value);
        lemma_joined_front(items, ","@);
        reveal_strlit(",");
        assert(","@ =~= seq![',']);
        let tail = joined(more_items, ","@) + seq![']'];
        let rest = seq![','] + tail;
        assert(t =~= items[0] + rest);
        assert(value(items[0] + rest) == Some((values[0], rest)));
        assert(rest.skip(1) =~= tail);
        assert(rest.len() > 1);
        assert(seq![values[0]] + more_values =~= values);
    }
}

} // verus!
