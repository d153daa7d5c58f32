//! Text building blocks: joining, splitting, trimming, letter case, and decimal
//! numerals.

use vstd::prelude::*;

verus! {

/// `String::push` appends one character.
pub assume_specification[ String::push ](s: &mut String, c: char)
    ensures
        final(s)@ == old(s)@.push(c),
;

/// The texts of a sequence of strings.
pub open spec fn texts(parts: Seq<String>) -> Seq<Seq<char>> {
    parts.map_values(|s: String| s@)
}

/// `parts` one after another, with `sep` between each two neighbours.
pub open spec fn joined(parts: Seq<Seq<char>>, sep: Seq<char>) -> Seq<char>
    decreases parts.len(),
{
    if parts.len() == 0 {
        Seq::empty()
    } else if parts.len() == 1 {
        parts[0]
    } else {
        joined(parts.drop_last(), sep) + sep + parts.last()
    }
}

/// The decimal digit of value `d` (less than ten).
pub open spec fn digit(d: nat) -> char {
    (48 + d) as char
}

/// The decimal numeral of `n`, without leading zeros.
pub open spec fn decimal(n: nat) -> Seq<char>
    decreases n,
{
    if n < 10 {
        seq![digit(n)]
    } else {
        decimal(n / 10).push(digit(n % 10))
    }
}

/// Joins `parts` with `sep`.
pub fn join(parts: &Vec<String>, sep: &str) -> (r: String)
    ensures
        r@ == joined(texts(parts@), sep@),
{
    let mut out = String::new();
    let mut i: usize = 0;
    assert(texts(parts@.take(0)) =~= Seq::empty());
    while i < parts.len()
        invariant
            i <= parts@.len(),
            out@ == joined(texts(parts@.take(i as int)), sep@),
        decreases parts@.len() - i,
    {
        if i > 0 {
            out.append(sep);
        }
        out.append(parts[i].as_str());
        proof {
            let next = texts(parts@.take(i + 1));
            assert(next.drop_last() =~= texts(parts@.take(i as int)));
            assert(next.last() == parts@[i as int]@);
            if i == 0 {
                assert(out@ =~= next[0]);
            }
        }
        i = i + 1;
    }
    assert(parts@.take(parts@.len() as int) =~= parts@);
    out
}

/// Writes `n` in decimal.
pub fn decimal_string(n: u64) -> (r: String)
    ensures
        r@ == decimal(n as nat),
    decreases n,
{
    let mut out = if n < 10 {
        String::new()
    } else {
        decimal_string(n / 10)
    };
    let d: u8 = (n % 10) as u8;
    out.push((48 + d) as char);
    proof {
        if n < 10 {
            assert(out@ =~= decimal(n as nat));
        }
    }
    out
}

/// The characters of a text.
pub fn chars_of(s: &str) -> (r: Vec<char>)
    ensures
        r@ == s@,
{
    let mut out: Vec<char> = Vec::new();
    for c in it: s.chars()
        invariant
            it.seq() == s@,
            out@ == s@.take(it.index()),
    {
        out.push(c);
        assert(out@ =~= s@.take(it.index() as int + 1));
    }
    assert(s@.take(s@.len() as int) =~= s@);
    out
}

/// The text of the characters from `from` up to `to`.
pub fn text_of(chars: &Vec<char>, from: usize, to: usize) -> (r: String)
    requires
        from <= to <= chars@.len(),
    ensures
        r@ == chars@.subrange(from as int, to as int),
{
    let mut out = String::new();
    let mut i: usize = from;
    while i < to
        invariant
            from <= i <= to <= chars@.len(),
            out@ == chars@.subrange(from as int, i as int),
        decreases to - i,
    {
        out.push(chars[i]);
        assert(out@ =~= chars@.subrange(from as int, i + 1));
        i = i + 1;
    }
    out
}

/// The lowercase form of an ASCII letter; any other character as it is.
pub open spec fn ascii_lower(c: char) -> char {
    if 65 <= c as u32 <= 90 {
        (c as u32 + 32) as char
    } else {
        c
    }
}

/// A text with its ASCII letters in lowercase.
pub open spec fn ascii_lowered(s: Seq<char>) -> Seq<char> {
    s.map_values(|c: char| ascii_lower(c))
}

/// The lowercase form of an ASCII letter; any other character as it is.
pub fn lower_char(c: char) -> (r: char)
    ensures
        r == ascii_lower(c),
{
    let v: u32 = c as u32;
    if 65 <= v && v <= 90 {
        (v as u8 + 32) as char
    } else {
        c
    }
}

/// A text with its ASCII letters in lowercase.
pub fn to_lowercase(s: &str) -> (r: String)
    ensures
        r@ == ascii_lowered(s@),
{
    let mut out = String::new();
    for c in it: s.chars()
        invariant
            it.seq() == s@,
            out@ == ascii_lowered(s@.take(it.index())),
    {
        out.push(lower_char(c));
        assert(out@ =~= ascii_lowered(s@.take(it.index() as int + 1)));
    }
    assert(s@.take(s@.len() as int) =~= s@);
    out
}

/// Tests whether two texts are the same.
pub fn same_text(a: &str, b: &str) -> (r: bool)
    ensures
        r == (a@ == b@),
{
    a.to_string() == b.to_string()
}

/// Tests whether a text holds a character.
pub fn has_char(s: &str, c: char) -> (r: bool)
    ensures
        r == s@.contains(c),
{
    let chars = chars_of(s);
    let mut i: usize = 0;
    while i < chars.len()
        invariant
            chars@ == s@,
            i <= chars@.len(),
            forall|j: int| 0 <= j < i ==> chars@[j] != c,
        decreases chars@.len() - i,
    {
        if chars[i] == c {
            return true;
        }
        i = i + 1;
    }
    false
}

/// Whether `part` stands at `i` in `s`.
pub open spec fn stands_at(s: Seq<char>, part: Seq<char>, i: int) -> bool {
    0 <= i && i + part.len() <= s.len() && s.subrange(i, i + part.len()) == part
}

/// Tests whether a text stands somewhere in another.
pub fn has_text(s: &str, part: &str) -> (r: bool)
    ensures
        r == exists|i: int| stands_at(s@, part@, i),
{
    let whole = chars_of(s);
    let piece = chars_of(part);
    let total: usize = whole.len();
    let wanted: usize = piece.len();
    if wanted == 0 {
        assert(s@.subrange(0, 0) =~= part@);
        assert(stands_at(s@, part@, 0));
        return true;
    }
    let mut i: usize = 0;
    while i < total && wanted <= total - i
        invariant
            whole@ == s@,
            piece@ == part@,
            total == whole@.len(),
            wanted == piece@.len(),
            i <= total,
            forall|j: int| 0 <= j < i ==> !stands_at(s@, part@, j),
        decreases total - i,
    {
        let mut k: usize = 0;
        while k < wanted && whole[i + k] == piece[k]
            invariant
                total == whole@.len(),
                wanted == piece@.len(),
                i + wanted <= total,
                k <= wanted,
                forall|j: int| 0 <= j < k ==> whole@[i + j] == piece@[j],
            decreases wanted - k,
        {
            k = k + 1;
        }
        if k == wanted {
            assert(s@.subrange(i as int, i + part@.len()) =~= part@);
            assert(stands_at(s@, part@, i as int));
            return true;
        }
        assert(!stands_at(s@, part@, i as int)) by {
            if stands_at(s@, part@, i as int) {
                assert(s@.subrange(i as int, i + part@.len())[k as int] == part@[k as int]);
            }
        }
        i = i + 1;
    }
    assert(forall|j: int| !stands_at(s@, part@, j));
    false
}

/// The pieces of `s` between occurrences of `c`: one more than there are of them.
pub open spec fn split_on(s: Seq<char>, c: char) -> Seq<Seq<char>>
    decreases s.len(),
{
    if s.len() == 0 {
        seq![Seq::empty()]
    } else {
        let before = split_on(s.drop_last(), c);
        if s.last() == c {
            before.push(Seq::empty())
        } else {
            before.drop_last().push(before.last().push(s.last()))
        }
    }
}

/// Splits a text at each `c`.
pub fn split(s: &str, c: char) -> (r: Vec<String>)
    ensures
        texts(r@) == split_on(s@, c),
{
    let chars = chars_of(s);
    let mut out: Vec<String> = Vec::new();
    let mut start: usize = 0;
    let mut i: usize = 0;
    assert(split_on(chars@.take(0), c) =~~= texts(out@).push(chars@.subrange(0, 0)));
    while i < chars.len()
        invariant
            start <= i <= chars@.len(),
            split_on(chars@.take(i as int), c) == texts(out@).push(
                chars@.subrange(start as int, i as int),
            ),
        decreases chars@.len() - i,
    {
        let ghost done = texts(out@);
        let ghost piece = chars@.subrange(start as int, i as int);
        proof {
            let next = chars@.take(i + 1);
            assert(next.drop_last() =~= chars@.take(i as int));
            assert(next.last() == chars@[i as int]);
            assert(done.push(piece).drop_last() =~= done);
        }
        if chars[i] == c {
            out.push(text_of(&chars, start, i));
            start = i + 1;
            assert(texts(out@) =~= done.push(piece));
            assert(chars@.subrange(i + 1, i + 1) =~= Seq::empty());
        } else {
            assert(chars@.subrange(start as int, i + 1) =~= piece.push(chars@[i as int]));
        }
        i = i + 1;
    }
    let ghost done = texts(out@);
    out.push(text_of(&chars, start, chars.len()));
    assert(texts(out@) =~= done.push(chars@.subrange(start as int, chars@.len() as int)));
    assert(chars@.take(chars@.len() as int) =~= s@);
    out
}

/// The Unicode white space characters.
pub open spec fn is_space(c: char) -> bool {
    let v = c as u32;
    ||| 0x09 <= v <= 0x0D
    ||| v == 0x20
    ||| v == 0x85
    ||| v == 0xA0
    ||| v == 0x1680
    ||| 0x2000 <= v <= 0x200A
    ||| v == 0x2028
    ||| v == 0x2029
    ||| v == 0x202F
    ||| v == 0x205F
    ||| v == 0x3000
}

/// Tests whether a character is white space.
fn check_space(c: char) -> (r: bool)
    ensures
        r == is_space(c),
{
    let v: u32 = c as u32;
    (0x09 <= v && v <= 0x0D) || v == 0x20 || v == 0x85 || v == 0xA0 || v == 0x1680 || (0x2000 <= v
        && v <= 0x200A) || v == 0x2028 || v == 0x2029 || v == 0x202F || v == 0x205F || v == 0x3000
}

/// `t` is `s` without the white space at both ends.
pub open spec fn trims_to(s: Seq<char>, t: Seq<char>) -> bool {
    exists|from: int, to: int| #[trigger] trim_bounds(s, from, to) && t == s.subrange(from, to)
}

/// The characters from `from` up to `to` are what remains of `s` without the white
/// space at both ends; nothing remains of a text that is all white space.
pub open spec fn trim_bounds(s: Seq<char>, from: int, to: int) -> bool {
    &&& 0 <= from <= to <= s.len()
    &&& forall|i: int| 0 <= i < from ==> is_space(#[trigger] s[i])
    &&& forall|i: int| to <= i < s.len() ==> is_space(#[trigger] s[i])
    &&& from < to ==> !is_space(s[from]) && !is_space(s[to - 1])
}

/// A text without the white space at both ends.
pub open spec fn trimmed(s: Seq<char>) -> Seq<char> {
    choose|t: Seq<char>| trims_to(s, t)
}

/// There is only one way to trim.
proof fn lemma_trim_unique(s: Seq<char>, a: Seq<char>, b: Seq<char>)
    requires
        trims_to(s, a),
        trims_to(s, b),
    ensures
        a == b,
{
    let (f1, t1) = choose|from: int, to: int|
        #[trigger] trim_bounds(s, from, to) && a == s.subrange(from, to);
    let (f2, t2) = choose|from: int, to: int|
        #[trigger] trim_bounds(s, from, to) && b == s.subrange(from, to);
    if f1 < t1 && f2 < t2 {
        if f1 < f2 {
            assert(is_space(s[f1]));
        }
        if f2 < f1 {
            assert(is_space(s[f2]));
        }
        if t1 < t2 {
            assert(is_space(s[t2 - 1]));
        }
        if t2 < t1 {
            assert(is_space(s[t1 - 1]));
        }
    } else if f1 < t1 {
        if f1 < f2 {
            assert(is_space(s[f1]));
        } else {
            assert(is_space(s[f1]));
        }
    } else if f2 < t2 {
        if f2 < f1 {
            assert(is_space(s[f2]));
        } else {
            assert(is_space(s[f2]));
        }
    } else {
        assert(a =~= b);
    }
}

/// Takes the white space off both ends of a text.
pub fn trim(s: &str) -> (r: String)
    ensures
        r@ == trimmed(s@),
        trims_to(s@, r@),
{
    let chars = chars_of(s);
    let mut from: usize = 0;
    while from < chars.len() && check_space(chars[from])
        invariant
            from <= chars@.len(),
            forall|i: int| 0 <= i < from ==> is_space(#[trigger] chars@[i]),
        decreases chars@.len() - from,
    {
        from = from + 1;
    }
    let mut to: usize = chars.len();
    while from < to && check_space(chars[to - 1])
        invariant
            from <= to <= chars@.len(),
            forall|i: int| to <= i < chars@.len() ==> is_space(#[trigger] chars@[i]),
        decreases to,
    {
        to = to - 1;
    }
    let r = text_of(&chars, from, to);
    proof {
        assert(trim_bounds(s@, from as int, to as int));
        assert(trims_to(s@, r@));
        lemma_trim_unique(s@, r@, trimmed(s@));
    }
    r
}

/// Joining adds nothing but separators: a single part is itself, and one more part comes
/// behind one more separator.
pub proof fn law_joined_grows_by_a_part(parts: Seq<Seq<char>>, sep: Seq<char>, more: Seq<char>)
    ensures
        joined(Seq::empty(), sep) == Seq::<char>::empty(),
        joined(seq![more], sep) == more,
        parts.len() > 0 ==> joined(parts.push(more), sep) == joined(parts, sep) + sep + more,
        parts.len() > 0 ==> joined(parts.push(more), sep).len() == joined(parts, sep).len()
            + sep.len() + more.len(),
{
    assert(parts.push(more).drop_last() =~= parts);
}

/// The value of a decimal numeral; `None` where a character is no digit or there is none.
pub open spec fn decimal_value(s: Seq<char>) -> Option<nat>
    decreases s.len(),
{
    if s.len() == 0 || !('0' <= s.last() <= '9') {
        None
    } else {
        let last = (s.last() as int - '0' as int) as nat;
        if s.len() == 1 {
            Some(last)
        } else {
            match decimal_value(s.drop_last()) {
                Some(v) => Some(v * 10 + last),
                None => None,
            }
        }
    }
}

/// A number written in decimal reads back as itself, and has no leading zero.
pub proof fn law_decimal_reads_back(n: nat)
    ensures
        decimal_value(decimal(n)) == Some(n),
        n > 0 ==> decimal(n)[0] != '0',
    decreases n,
{
    if n >= 10 {
        law_decimal_reads_back(n / 10);
        assert(decimal(n).drop_last() =~= decimal(n / 10));
        assert(n == (n / 10) * 10 + n % 10);
        assert(decimal(n)[0] == decimal(n / 10)[0]);
    }
}

/// Splitting takes nothing away but the separators: the pieces, joined again, are the
/// text, and no piece holds a separator.
pub proof fn law_split_text_joins_again(s: Seq<char>, c: char)
    ensures
        split_on(s, c).len() > 0,
        joined(split_on(s, c), seq![c]) == s,
        forall|i: int| 0 <= i < split_on(s, c).len() ==> !(#[trigger] split_on(s, c)[i]).contains(c),
    decreases s.len(),
{
    let pieces = split_on(s, c);
    if s.len() == 0 {
        assert(joined(pieces, seq![c]) =~= s);
    } else {
        let before = split_on(s.drop_last(), c);
        law_split_text_joins_again(s.drop_last(), c);
        if s.last() == c {
            assert(pieces.drop_last() =~= before);
            assert(joined(pieces, seq![c]) =~= s);
        } else {
            let longer = before.last().push(s.last());
            assert(pieces.drop_last() =~= before.drop_last());
            assert(pieces.last() == longer);
            assert(s =~= s.drop_last().push(s.last()));
            if before.len() == 1 {
                assert(joined(before, seq![c]) == before[0]);
                assert(joined(pieces, seq![c]) =~= s);
            } else {
                let front = joined(before.drop_last(), seq![c]) + seq![c];
                assert(joined(before, seq![c]) == front + before.last());
                assert(joined(pieces, seq![c]) == front + longer);
                assert(joined(pieces, seq![c]) =~= s);
            }
            assert forall|i: int| 0 <= i < pieces.len() implies !(#[trigger] pieces[i]).contains(
                c,
            ) by {
                if i < pieces.len() - 1 {
                    assert(pieces[i] == before[i]);
                } else {
                    assert(!before.last().contains(c));
                    if longer.contains(c) {
                        let k = longer.index_of(c);
                        assert(k < before.last().len());
                        assert(before.last()[k] == c);
                    }
                }
            }
        }
    }
}

/// Trimming takes white space off the ends and nothing else: what is left stands in the
/// text with nothing but white space around it, and neither begins nor ends with any.
pub proof fn law_trimming_takes_white_space_only(s: Seq<char>, from: int, to: int)
    requires
        0 <= from <= to <= s.len(),
        forall|i: int| 0 <= i < from ==> is_space(#[trigger] s[i]),
        forall|i: int| to <= i < s.len() ==> is_space(#[trigger] s[i]),
        from < to ==> !is_space(s[from]) && !is_space(s[to - 1]),
    ensures
        trimmed(s) == s.subrange(from, to),
{
    assert(trim_bounds(s, from, to));
    assert(trims_to(s, s.subrange(from, to)));
    lemma_trim_unique(s, s.subrange(from, to), trimmed(s));
}

/// A blank, a tab and a line break are white space; a visible ASCII character is not.
pub proof fn law_visible_characters_are_no_space(c: char)
    ensures
        is_space(' ') && is_space('\t') && is_space('\n') && is_space('\r'),
        0x20 < c as u32 <= 0x7E ==> !is_space(c),
{
}

/// Lowering changes the capital letters A to Z, each into its small letter, and nothing
/// else; lowering twice is lowering once.
pub proof fn law_lowering_changes_capitals_only(s: Seq<char>, i: int)
    requires
        0 <= i < s.len(),
    ensures
        ascii_lowered(s).len() == s.len(),
        'A' as u32 <= s[i] as u32 <= 'Z' as u32 ==> ascii_lowered(s)[i] as u32 == s[i] as u32 + 32,
        !('A' as u32 <= s[i] as u32 <= 'Z' as u32) ==> ascii_lowered(s)[i] == s[i],
        ascii_lowered(ascii_lowered(s)) == ascii_lowered(s),
{
    assert forall|j: int| 0 <= j < s.len() implies ascii_lower(ascii_lower(s[j])) == ascii_lower(
        s[j],
    ) by {
        lemma_lowered_letter(s[j]);
    }
    lemma_lowered_letter(s[i]);
    assert(ascii_lowered(ascii_lowered(s)) =~= ascii_lowered(s));
}

/// A lowered letter is a small one.
proof fn lemma_lowered_letter(c: char)
    ensures
        65 <= c as u32 <= 90 ==> ascii_lower(c) as u32 == c as u32 + 32,
        ascii_lower(ascii_lower(c)) == ascii_lower(c),
{
}

/// A part stands at a place exactly where the text reads so from there on.
pub proof fn law_part_stands_where_it_reads(s: Seq<char>, part: Seq<char>, i: int)
    ensures
        stands_at(s, part, i) <==> 0 <= i && i + part.len() <= s.len() && s.subrange(
            i,
            i + part.len(),
        ) == part,
{
}

} // verus!
