//! Text as sequences of characters: cutting it at separators, into lines,
//! searching it and reading decimal numbers from it.

use vstd::prelude::*;
use vstd::string::*;

verus! {

/// The pieces of `s` between occurrences of `sep`. A text without `sep` is one
/// piece; `n` occurrences give `n + 1` pieces, some of which may be empty.
pub open spec fn split(s: Seq<char>, sep: char) -> Seq<Seq<char>>
    decreases s.len(),
{
    if s.len() == 0 {
        seq![Seq::<char>::empty()]
    } else {
        let before = split(s.drop_last(), sep);
        if s.last() == sep {
            before.push(Seq::<char>::empty())
        } else {
            before.drop_last().push(before.last().push(s.last()))
        }
    }
}

/// `pieces` put together again with `sep` between neighbours.
pub open spec fn join(pieces: Seq<Seq<char>>, sep: char) -> Seq<char>
    decreases pieces.len(),
{
    if pieces.len() == 0 {
        Seq::<char>::empty()
    } else if pieces.len() == 1 {
        pieces[0]
    } else {
        join(pieces.drop_last(), sep).push(sep) + pieces.last()
    }
}

/// A line without the carriage return that a `"\r\n"` ending leaves behind.
pub open spec fn without_cr(line: Seq<char>) -> Seq<char> {
    if line.len() > 0 && line.last() == '\r' {
        line.drop_last()
    } else {
        line
    }
}

/// The lines of `s`. A line ends at `'\n'` or, for the last one, at the end of
/// the text; a `'\r'` directly before the `'\n'` belongs to the line ending.
/// A final line ending opens no further, empty line.
pub open spec fn lines(s: Seq<char>) -> Seq<Seq<char>> {
    let pieces = split(s, '\n');
    let ended = Seq::new((pieces.len() - 1) as nat, |i: int| without_cr(pieces[i]));
    if pieces.last().len() > 0 {
        ended.push(pieces.last())
    } else {
        ended
    }
}

/// `needle` stands in `hay` at position `i`.
pub open spec fn occurs_at(hay: Seq<char>, needle: Seq<char>, i: int) -> bool {
    &&& 0 <= i
    &&& i + needle.len() <= hay.len()
    &&& hay.subrange(i, i + needle.len()) == needle
}

/// `needle` stands somewhere in `hay`.
pub open spec fn contains_text(hay: Seq<char>, needle: Seq<char>) -> bool {
    exists|i: int| occurs_at(hay, needle, i)
}

pub open spec fn is_digit(c: char) -> bool {
    '0' <= c <= '9'
}

pub open spec fn digit_value(c: char) -> nat {
    (c as int - '0' as int) as nat
}

pub open spec fn all_digits(s: Seq<char>) -> bool {
    forall|i: int| 0 <= i < s.len() ==> is_digit(#[trigger] s[i])
}

/// The number that the decimal digits `s` write.
pub open spec fn decimal_value(s: Seq<char>) -> nat
    decreases s.len(),
{
    if s.len() == 0 {
        0
    } else {
        decimal_value(s.drop_last()) * 10 + digit_value(s.last())
    }
}

/// What `s` says as an unsigned decimal number: one or more digits and nothing
/// else, with a value that fits.
pub open spec fn number_of(s: Seq<char>) -> Option<u32> {
    if s.len() > 0 && all_digits(s) && decimal_value(s) <= u32::MAX {
        Some(decimal_value(s) as u32)
    } else {
        None
    }
}

/// The views of the strings of `v`, in order.
pub open spec fn texts(v: Seq<String>) -> Seq<Seq<char>> {
    Seq::new(v.len(), |i: int| v[i]@)
}

/// `String::push` of std: appends one character to the string.
#[verifier::external_body]
fn push_char(s: &mut String, c: char)
    ensures
        final(s)@ == old(s)@.push(c),
{
    s.push(c)
}

/// The characters of `s` in a vector, for access by position.
pub fn chars_of(s: &str) -> (v: Vec<char>)
    ensures
        v@ == s@,
{
    let mut v: Vec<char> = Vec::new();
    for c in it: s.chars()
        invariant
            v@ == it.seq().take(it.index() as int),
    {
        v.push(c);
    }
    v
}

/// The text that `v` holds from position `from` up to, not including, `to`.
pub fn text_of(v: &Vec<char>, from: usize, to: usize) -> (s: String)
    requires
        from <= to <= v.len(),
    ensures
        s@ == v@.subrange(from as int, to as int),
{
    let mut s = String::new();
    let mut i: usize = from;
    while i < to
        invariant
            from <= i <= to <= v.len(),
            s@ == v@.subrange(from as int, i as int),
        decreases to - i,
    {
        push_char(&mut s, v[i]);
        i = i + 1;
        assert(v@.subrange(from as int, i as int) == v@.subrange(from as int, i as int - 1).push(
            v@[i as int - 1],
        ));
    }
    s
}

/// One more character at the end either opens a new, empty piece or
/// lengthens the last piece.
pub proof fn lemma_split_step(s: Seq<char>, sep: char, c: char)
    ensures
        split(s, sep).len() >= 1,
        c == sep ==> split(s.push(c), sep) == split(s, sep).push(Seq::<char>::empty()),
        c != sep ==> split(s.push(c), sep) == split(s, sep).drop_last().push(
            split(s, sep).last().push(c),
        ),
    decreases s.len(),
{
    if s.len() > 0 {
        lemma_split_step(s.drop_last(), sep, s.last());
    }
    assert(s.push(c).drop_last() == s);
}

/// Cutting a text at a separator loses nothing: no piece holds the separator,
/// and the pieces joined with it are the text again.
pub proof fn lemma_split_joins(s: Seq<char>, sep: char)
    ensures
        split(s, sep).len() >= 1,
        forall|k: int| 0 <= k < split(s, sep).len() ==> !(#[trigger] split(s, sep)[k]).contains(sep),
        join(split(s, sep), sep) == s,
    decreases s.len(),
{
    if s.len() == 0 {
        assert(join(split(s, sep), sep) == s);
    } else {
        let t = s.drop_last();
        let c = s.last();
        lemma_split_joins(t, sep);
        lemma_split_step(t, sep, c);
        assert(t.push(c) == s);
        let before = split(t, sep);
        let now = split(s, sep);
        if c == sep {
            assert(now.drop_last() == before);
            assert(join(now, sep) == join(before, sep).push(sep) + Seq::<char>::empty());
            assert(join(now, sep) == s);
        } else {
            lemma_join_last(before, sep, c);
            assert forall|k: int| 0 <= k < now.len() implies !(#[trigger] now[k]).contains(sep) by {
                if k < now.len() - 1 {
                    assert(now[k] == before[k]);
                } else {
                    let last = before.last();
                    assert(!last.contains(sep));
                    if now[k].contains(sep) {
                        let j = choose|j: int| 0 <= j < now[k].len() && now[k][j] == sep;
                        assert(j < last.len());
                        assert(last[j] == sep);
                    }
                }
            }
        }
    }
}

/// A character added to the last piece is a character added to the whole.
proof fn lemma_join_last(pieces: Seq<Seq<char>>, sep: char, c: char)
    requires
        pieces.len() >= 1,
    ensures
        join(pieces.drop_last().push(pieces.last().push(c)), sep) == join(pieces, sep).push(c),
{
    let grown = pieces.drop_last().push(pieces.last().push(c));
    if pieces.len() == 1 {
        assert(grown[0] == pieces[0].push(c));
    } else {
        assert(grown.drop_last() == pieces.drop_last());
        assert(grown.last() == pieces.last().push(c));
        assert(join(grown, sep) == join(pieces.drop_last(), sep).push(sep) + pieces.last().push(c));
        assert(join(pieces.drop_last(), sep).push(sep) + pieces.last().push(c) == (join(
            pieces.drop_last(),
            sep,
        ).push(sep) + pieces.last()).push(c));
    }
}

/// Cuts `chars` at every `sep`.
pub fn split_text(chars: &Vec<char>, sep: char) -> (pieces: Vec<String>)
    ensures
        texts(pieces@) == split(chars@, sep),
{
    let mut pieces: Vec<String> = Vec::new();
    let mut start: usize = 0;
    let mut pos: usize = 0;
    assert(chars@.take(0) == Seq::<char>::empty());
    assert(texts(pieces@).push(chars@.subrange(0, 0)) == split(chars@.take(0), sep));
    while pos < chars.len()
        invariant
            start <= pos <= chars.len(),
            texts(pieces@).push(chars@.subrange(start as int, pos as int)) == split(
                chars@.take(pos as int),
                sep,
            ),
        decreases chars.len() - pos,
    {
        let ghost done = texts(pieces@);
        let ghost current = chars@.subrange(start as int, pos as int);
        proof {
            lemma_split_step(chars@.take(pos as int), sep, chars@[pos as int]);
            assert(chars@.take(pos as int).push(chars@[pos as int]) == chars@.take(pos as int + 1));
            assert(done.push(current).drop_last() == done);
        }
        if chars[pos] == sep {
            let piece = text_of(chars, start, pos);
            pieces.push(piece);
            start = pos + 1;
            proof {
                assert(texts(pieces@) == done.push(current));
                assert(chars@.subrange(start as int, pos as int + 1) == Seq::<char>::empty());
            }
        } else {
            proof {
                assert(chars@.subrange(start as int, pos as int + 1) == current.push(
                    chars@[pos as int],
                ));
            }
        }
        pos = pos + 1;
    }
    let ghost done = texts(pieces@);
    let piece = text_of(chars, start, pos);
    pieces.push(piece);
    proof {
        assert(chars@.take(pos as int) == chars@);
        assert(texts(pieces@) == done.push(chars@.subrange(start as int, pos as int)));
    }
    pieces
}

/// `s` without one final `'\r'`, if it has one.
fn strip_cr(s: String) -> (r: String)
    ensures
        r@ == without_cr(s@),
{
    let chars = chars_of(s.as_str());
    let n: usize = chars.len();
    if n > 0 && chars[n - 1] == '\r' {
        let r = text_of(&chars, 0, n - 1);
        assert(chars@.subrange(0, n as int - 1) == chars@.drop_last());
        r
    } else {
        s
    }
}

/// The lines of `text`; see [`lines`].
pub fn split_lines(text: &str) -> (r: Vec<String>)
    ensures
        texts(r@) == lines(text@),
{
    let chars = chars_of(text);
    let mut pieces = split_text(&chars, '\n');
    proof {
        lemma_split_step(chars@, '\n', 'x');
    }
    let ghost all = texts(pieces@);
    let last = pieces.pop().unwrap();
    assert(texts(pieces@) == all.drop_last());
    assert(last@ == all.last());
    let mut r: Vec<String> = Vec::new();
    let n: usize = pieces.len();
    let mut i: usize = 0;
    while i < n
        invariant
            i <= n,
            n == pieces.len(),
            all.len() == n + 1,
            texts(pieces@) == all.drop_last(),
            texts(r@) == Seq::new(i as nat, |k: int| without_cr(all[k])),
        decreases n - i,
    {
        let ghost before = texts(r@);
        let line = strip_cr(pieces[i].clone());
        assert(texts(pieces@)[i as int] == pieces@[i as int]@);
        assert(all.drop_last()[i as int] == all[i as int]);
        r.push(line);
        i = i + 1;
        assert(texts(r@) == before.push(without_cr(all[i as int - 1])));
    }
    if last.as_str().unicode_len() > 0 {
        let ghost before = texts(r@);
        r.push(last);
        assert(texts(r@) == before.push(all.last()));
    }
    r
}

/// Whether `needle` stands in `hay` at position `at`.
fn matches_at(hay: &Vec<char>, needle: &Vec<char>, at: usize) -> (r: bool)
    requires
        at + needle.len() <= hay.len(),
    ensures
        r == occurs_at(hay@, needle@, at as int),
{
    let mut k: usize = 0;
    while k < needle.len()
        invariant
            k <= needle.len(),
            at + needle.len() <= hay.len(),
            forall|j: int| 0 <= j < k ==> hay@[at + j] == needle@[j],
        decreases needle.len() - k,
    {
        if hay[at + k] != needle[k] {
            assert(hay@.subrange(at as int, at + needle.len())[k as int] != needle@[k as int]);
            return false;
        }
        k = k + 1;
    }
    assert(hay@.subrange(at as int, at + needle.len()) == needle@);
    true
}

/// Whether `needle` stands somewhere in `hay`. The empty text stands in every
/// text.
pub fn has_text(hay: &str, needle: &str) -> (r: bool)
    ensures
        r == contains_text(hay@, needle@),
{
    let h = chars_of(hay);
    let n = chars_of(needle);
    if n.len() > h.len() {
        return false;
    }
    let limit: usize = h.len() - n.len();
    let mut at: usize = 0;
    loop
        invariant
            at <= limit,
            limit == h.len() - n.len(),
            h@ == hay@,
            n@ == needle@,
            forall|i: int| 0 <= i < at ==> !occurs_at(hay@, needle@, i),
        decreases limit - at,
    {
        if matches_at(&h, &n, at) {
            return true;
        }
        if at == limit {
            return false;
        }
        at = at + 1;
    }
}

/// The value of a decimal digit.
fn digit_of(c: char) -> (r: Option<u32>)
    ensures
        r is Some <==> is_digit(c),
        r is Some ==> r->0 == digit_value(c),
{
    if '0' <= c && c <= '9' {
        Some(c as u32 - '0' as u32)
    } else {
        None
    }
}

/// More digits never write a smaller number.
proof fn lemma_decimal_grows(s: Seq<char>, k: int)
    requires
        0 <= k <= s.len(),
    ensures
        decimal_value(s.take(k)) <= decimal_value(s),
    decreases s.len() - k,
{
    if k < s.len() {
        lemma_decimal_grows(s, k + 1);
        assert(s.take(k + 1).drop_last() == s.take(k));
    } else {
        assert(s.take(k) == s);
    }
}

/// Whether two texts are the same, character by character.
pub fn same_text(a: &str, b: &str) -> (r: bool)
    ensures
        r == (a@ == b@),
{
    let x = chars_of(a);
    let y = chars_of(b);
    if x.len() != y.len() {
        return false;
    }
    let mut i: usize = 0;
    while i < x.len()
        invariant
            i <= x.len(),
            x.len() == y.len(),
            x@ == a@,
            y@ == b@,
            forall|j: int| 0 <= j < i ==> x@[j] == y@[j],
        decreases x.len() - i,
    {
        if x[i] != y[i] {
            return false;
        }
        i = i + 1;
    }
    assert(x@ =~= y@);
    true
}

/// Reads `s` as an unsigned decimal number; see [`number_of`].
pub fn parse_number(s: &str) -> (r: Option<u32>)
    ensures
        r == number_of(s@),
{
    let chars = chars_of(s);
    if chars.len() == 0 {
        return None;
    }
    let mut value: u32 = 0;
    let mut i: usize = 0;
    assert(chars@.take(0) == Seq::<char>::empty());
    while i < chars.len()
        invariant
            i <= chars.len(),
            chars@ == s@,
            all_digits(chars@.take(i as int)),
            value == decimal_value(chars@.take(i as int)),
        decreases chars.len() - i,
    {
        let ghost head = chars@.take(i as int);
        proof {
            assert(chars@.take(i as int + 1).drop_last() == head);
            lemma_decimal_grows(chars@, i as int + 1);
        }
        match digit_of(chars[i]) {
            None => {
                assert(!is_digit(s@[i as int]));
                return None;
            },
            Some(d) => {
                if value > (u32::MAX - d) / 10 {
                    return None;
                }
                value = value * 10 + d;
            },
        }
        i = i + 1;
        assert forall|j: int| 0 <= j < i implies is_digit(#[trigger] chars@.take(i as int)[j]) by {
            if j < i - 1 {
                assert(head[j] == chars@[j]);
            }
        }
    }
    assert(chars@.take(i as int) == chars@);
    Some(value)
}

} // verus!
