//! Text as sequences of characters: trimming, splitting, searching, numbers.

use vstd::prelude::*;
use vstd::string::*;

verus! {

/// `String::push` appends one character.
pub assume_specification[ String::push ](s: &mut String, c: char)
    ensures
        final(s)@ == old(s)@.push(c),
;

/// `String::push_str` appends every character of `t`.
pub assume_specification[ String::push_str ](s: &mut String, t: &str)
    ensures
        final(s)@ == old(s)@ + t@,
;

/// The characters with the Unicode `White_Space` property.
pub open spec fn is_white_space(c: char) -> bool {
    ||| '\u{9}' <= c <= '\u{d}'
    ||| c == ' '
    ||| c == '\u{85}'
    ||| c == '\u{a0}'
    ||| c == '\u{1680}'
    ||| '\u{2000}' <= c <= '\u{200a}'
    ||| c == '\u{2028}'
    ||| c == '\u{2029}'
    ||| c == '\u{202f}'
    ||| c == '\u{205f}'
    ||| c == '\u{3000}'
}

pub fn white_space(c: char) -> (white: bool)
    ensures
        white == is_white_space(c),
{
    ('\u{9}' <= c && c <= '\u{d}') || c == ' ' || c == '\u{85}' || c == '\u{a0}' || c == '\u{1680}'
        || ('\u{2000}' <= c && c <= '\u{200a}') || c == '\u{2028}' || c == '\u{2029}'
        || c == '\u{202f}' || c == '\u{205f}' || c == '\u{3000}'
}

/// The characters of `s`, in order.
pub fn chars_of(s: &str) -> (chars: Vec<char>)
    ensures
        chars@ == s@,
{
    let mut chars: Vec<char> = Vec::new();
    for c in iter: s.chars()
        invariant
            iter.seq() == s@,
            chars@ == s@.take(iter.index()),
    {
        chars.push(c);
        assert(s@.take(iter.index() + 1) =~= s@.take(iter.index()).push(c));
    }
    assert(s@.take(s@.len() as int) =~= s@);
    chars
}

/// The text made of `chars` in the half-open range `from..to`.
pub fn text_of(chars: &Vec<char>, from: usize, to: usize) -> (text: String)
    requires
        from <= to <= chars@.len(),
    ensures
        text@ == chars@.subrange(from as int, to as int),
{
    let mut text = String::new();
    let mut i: usize = from;
    while i < to
        invariant
            from <= i <= to <= chars@.len(),
            text@ == chars@.subrange(from as int, i as int),
        decreases to - i,
    {
        text.push(chars[i]);
        assert(chars@.subrange(from as int, i + 1) =~= chars@.subrange(from as int, i as int).push(
            chars@[i as int],
        ));
        i = i + 1;
    }
    text
}

/// `s` without the white space before its first other character.
pub open spec fn trim_start(s: Seq<char>) -> Seq<char>
    decreases s.len(),
{
    if s.len() > 0 && is_white_space(s[0]) {
        trim_start(s.drop_first())
    } else {
        s
    }
}

/// `s` without the white space after its last other character.
pub open spec fn trim_end(s: Seq<char>) -> Seq<char>
    decreases s.len(),
{
    if s.len() > 0 && is_white_space(s.last()) {
        trim_end(s.drop_last())
    } else {
        s
    }
}

/// `s` without the white space on either side.
pub open spec fn trimmed(s: Seq<char>) -> Seq<char> {
    trim_end(trim_start(s))
}

/// Whether `s` holds nothing but white space.
pub open spec fn is_blank(s: Seq<char>) -> bool {
    forall|i: int| 0 <= i < s.len() ==> is_white_space(#[trigger] s[i])
}

pub proof fn lemma_trim_start_from(s: Seq<char>, from: int)
    requires
        0 <= from <= s.len(),
        is_blank(s.take(from)),
        from < s.len() ==> !is_white_space(s[from]),
    ensures
        trim_start(s) == s.skip(from),
    decreases from,
{
    if from == 0 {
        assert(s.skip(0) =~= s);
    } else {
        assert(is_white_space(s.take(from)[0]));
        let rest = s.drop_first();
        assert forall|i: int| 0 <= i < from - 1 implies is_white_space(
            #[trigger] rest.take(from - 1)[i],
        ) by {
            assert(rest.take(from - 1)[i] == s.take(from)[i + 1]);
        }
        lemma_trim_start_from(rest, from - 1);
        assert(rest.skip(from - 1) =~= s.skip(from));
    }
}

pub proof fn lemma_trim_end_to(s: Seq<char>, to: int)
    requires
        0 <= to <= s.len(),
        is_blank(s.skip(to)),
        to > 0 ==> !is_white_space(s[to - 1]),
    ensures
        trim_end(s) == s.take(to),
    decreases s.len() - to,
{
    if to == s.len() {
        assert(s.take(to) =~= s);
    } else {
        assert(s.skip(to)[s.len() - 1 - to] == s.last());
        let rest = s.drop_last();
        assert forall|i: int| 0 <= i < rest.len() - to implies is_white_space(
            #[trigger] rest.skip(to)[i],
        ) by {
            assert(rest.skip(to)[i] == s.skip(to)[i]);
        }
        lemma_trim_end_to(rest, to);
        assert(rest.take(to) =~= s.take(to));
    }
}

/// Text is blank exactly when nothing is left of it after trimming.
pub proof fn lemma_blank_trims_to_nothing(s: Seq<char>)
    ensures
        is_blank(s) <==> trimmed(s).len() == 0,
    decreases s.len(),
{
    if s.len() == 0 {
    } else if is_white_space(s[0]) {
        let rest = s.drop_first();
        lemma_blank_trims_to_nothing(rest);
        if is_blank(rest) {
            assert forall|i: int| 0 <= i < s.len() implies is_white_space(#[trigger] s[i]) by {
                if i > 0 {
                    assert(rest[i - 1] == s[i]);
                }
            }
        }
        if is_blank(s) {
            assert forall|i: int| 0 <= i < rest.len() implies is_white_space(#[trigger] rest[i]) by {
                assert(rest[i] == s[i + 1]);
            }
        }
    } else {
        lemma_trim_end_keeps_first(s);
    }
}

proof fn lemma_trim_end_keeps_first(s: Seq<char>)
    requires
        s.len() > 0,
        !is_white_space(s[0]),
    ensures
        trim_end(s).len() > 0,
    decreases s.len(),
{
    if is_white_space(s.last()) {
        lemma_trim_end_keeps_first(s.drop_last());
    }
}

/// `str::trim`: the part of `s` between its first and last character that is
/// not white space.
pub fn trim<'a>(s: &'a str) -> (rest: &'a str)
    ensures
        rest@ == trimmed(s@),
{
    let chars = chars_of(s);
    let mut from: usize = 0;
    while from < chars.len() && white_space(chars[from])
        invariant
            from <= chars@.len(),
            chars@ == s@,
            is_blank(s@.take(from as int)),
        decreases chars@.len() - from,
    {
        from = from + 1;
    }
    let mut to: usize = chars.len();
    proof {
        lemma_trim_start_from(s@, from as int);
    }
    let ghost rest = s@.skip(from as int);
    while to > from && white_space(chars[to - 1])
        invariant
            from <= to <= chars@.len(),
            chars@ == s@,
            rest == s@.skip(from as int),
            is_blank(rest.skip(to - from)),
        decreases to,
    {
        to = to - 1;
        assert forall|i: int| 0 <= i < rest.len() - (to - from) implies is_white_space(
            #[trigger] rest.skip(to - from)[i],
        ) by {
            if i > 0 {
                assert(rest.skip(to - from)[i] == rest.skip(to + 1 - from)[i - 1]);
            }
        }
    }
    proof {
        lemma_trim_end_to(rest, to - from);
        assert(s@.subrange(from as int, to as int) =~= rest.take(to - from));
    }
    s.substring_char(from, to)
}

/// `str::trim_end`: `s` up to its last character that is not white space.
pub fn trim_tail<'a>(s: &'a str) -> (rest: &'a str)
    ensures
        rest@ == trim_end(s@),
{
    let chars = chars_of(s);
    let mut to: usize = chars.len();
    while to > 0 && white_space(chars[to - 1])
        invariant
            to <= chars@.len(),
            chars@ == s@,
            is_blank(s@.skip(to as int)),
        decreases to,
    {
        to = to - 1;
        assert forall|i: int| 0 <= i < s@.len() - to implies is_white_space(
            #[trigger] s@.skip(to as int)[i],
        ) by {
            if i > 0 {
                assert(s@.skip(to as int)[i] == s@.skip(to + 1)[i - 1]);
            }
        }
    }
    proof {
        lemma_trim_end_to(s@, to as int);
        assert(s@.subrange(0, to as int) =~= s@.take(to as int));
    }
    s.substring_char(0, to)
}

/// Whether `s` holds nothing but white space.
pub fn blank(s: &str) -> (b: bool)
    ensures
        b == is_blank(s@),
{
    for c in iter: s.chars()
        invariant
            iter.seq() == s@,
            is_blank(s@.take(iter.index())),
    {
        if !white_space(c) {
            assert(!is_white_space(s@[iter.index()]));
            return false;
        }
        assert forall|i: int| 0 <= i < iter.index() + 1 implies is_white_space(
            #[trigger] s@.take(iter.index() + 1)[i],
        ) by {
            if i < iter.index() {
                assert(s@.take(iter.index() + 1)[i] == s@.take(iter.index())[i]);
            }
        }
    }
    assert(s@.take(s@.len() as int) =~= s@);
    true
}

/// The items rendered one after another.
pub open spec fn rendered<T>(items: Seq<T>, line: spec_fn(T) -> Seq<char>) -> Seq<char> {
    items.flat_map(line)
}

pub proof fn lemma_rendered_none<T>(items: Seq<T>, line: spec_fn(T) -> Seq<char>)
    ensures
        rendered(items.take(0), line) == Seq::<char>::empty(),
{
    reveal_with_fuel(Seq::flatten, 2);
    assert(items.take(0).map_values(line) =~= Seq::<Seq<char>>::empty());
}

pub proof fn lemma_rendered_next<T>(items: Seq<T>, line: spec_fn(T) -> Seq<char>, i: int)
    requires
        0 <= i < items.len(),
    ensures
        rendered(items.take(i + 1), line) == rendered(items.take(i), line) + line(items[i]),
{
    items.lemma_flat_map_take_append(line, i);
}

/// The character that writes one decimal digit.
pub open spec fn digit(d: nat) -> char {
    ('0' as u32 + d) as char
}

/// The shortest decimal form of `n`.
pub open spec fn decimal(n: nat) -> Seq<char>
    decreases n,
{
    if n < 10 {
        seq![digit(n)]
    } else {
        decimal(n / 10).push(digit(n % 10))
    }
}

/// The decimal form of `n`, with a minus sign in front of a negative number.
pub open spec fn signed_decimal(n: int) -> Seq<char> {
    if n < 0 {
        seq!['-'] + decimal((-n) as nat)
    } else {
        decimal(n as nat)
    }
}

fn digit_char(d: u8) -> (c: char)
    requires
        d < 10,
    ensures
        c == digit(d as nat),
{
    (48u8 + d) as char
}

/// `n` in decimal.
pub fn decimal_text(n: u64) -> (text: String)
    ensures
        text@ == decimal(n as nat),
    decreases n,
{
    let mut text = if n < 10 {
        String::new()
    } else {
        decimal_text(n / 10)
    };
    text.push(digit_char((n % 10) as u8));
    assert(n < 10 ==> text@ =~= seq![digit(n as nat)]);
    text
}

/// `n` in decimal, with its sign where it is negative.
pub fn signed_text(n: i64) -> (text: String)
    ensures
        text@ == signed_decimal(n as int),
{
    if n < 0 {
        let mut text = String::new();
        text.push('-');
        let magnitude: u64 = if n == i64::MIN {
            9223372036854775808
        } else {
            (-n) as u64
        };
        text.push_str(decimal_text(magnitude).as_str());
        assert(text@ =~= seq!['-'] + decimal((-n) as nat));
        text
    } else {
        decimal_text(n as u64)
    }
}

/// Whether two texts hold the same characters.
pub fn same(a: &str, b: &str) -> (equal: bool)
    ensures
        equal == (a@ == b@),
{
    let left = a.as_bytes();
    let right = b.as_bytes();
    let equal = same_bytes(left, right);
    proof {
        vstd::utf8::encode_utf8_decode_utf8(a@);
        vstd::utf8::encode_utf8_decode_utf8(b@);
    }
    equal
}

/// Whether two byte strings are equal.
pub fn same_bytes(a: &[u8], b: &[u8]) -> (equal: bool)
    ensures
        equal == (a@ == b@),
{
    if a.len() != b.len() {
        return false;
    }
    let mut i: usize = 0;
    while i < a.len()
        invariant
            i <= a@.len(),
            a@.len() == b@.len(),
            a@.take(i as int) == b@.take(i as int),
        decreases a@.len() - i,
    {
        if a[i] != b[i] {
            return false;
        }
        assert(a@.take(i + 1) =~= a@.take(i as int).push(a@[i as int]));
        assert(b@.take(i + 1) =~= b@.take(i as int).push(b@[i as int]));
        i = i + 1;
    }
    assert(a@.take(i as int) =~= a@);
    assert(b@.take(i as int) =~= b@);
    true
}

/// Whether `part` stands in `s` at index `i`.
pub open spec fn occurs_at(s: Seq<char>, part: Seq<char>, i: int) -> bool {
    &&& 0 <= i <= s.len() - part.len()
    &&& s.subrange(i, i + part.len()) == part
}

/// Whether `part` stands somewhere in `s`.
pub open spec fn contains_text(s: Seq<char>, part: Seq<char>) -> bool {
    exists|i: int| occurs_at(s, part, i)
}

/// Whether `part` stands in `chars` at index `i`.
fn matches_at(chars: &Vec<char>, part: &Vec<char>, i: usize) -> (found: bool)
    requires
        i <= chars@.len() - part@.len(),
    ensures
        found == occurs_at(chars@, part@, i as int),
{
    let size: usize = chars.len();
    let mut k: usize = 0;
    while k < part.len()
        invariant
            k <= part@.len(),
            size == chars@.len(),
            i <= chars@.len() - part@.len(),
            forall|j: int| 0 <= j < k ==> chars@[i + j] == part@[j],
        decreases part@.len() - k,
    {
        if chars[i + k] != part[k] {
            assert(chars@.subrange(i as int, i + part@.len())[k as int] != part@[k as int]);
            return false;
        }
        k = k + 1;
    }
    assert(chars@.subrange(i as int, i + part@.len()) =~= part@);
    true
}

/// Whether `part` stands in the characters `from..to`.
pub fn range_contains(chars: &Vec<char>, from: usize, to: usize, part: &Vec<char>) -> (found: bool)
    requires
        from <= to <= chars@.len(),
    ensures
        found == contains_text(chars@.subrange(from as int, to as int), part@),
{
    let ghost whole = chars@.subrange(from as int, to as int);
    let mut i: usize = from;
    while part.len() <= to - i
        invariant
            from <= i <= to <= chars@.len(),
            whole == chars@.subrange(from as int, to as int),
            forall|j: int| 0 <= j < i - from ==> !occurs_at(whole, part@, j),
        decreases to - i,
    {
        assert(whole.subrange(i - from, i - from + part@.len()) =~= chars@.subrange(
            i as int,
            i + part@.len(),
        ));
        if matches_at(chars, part, i) {
            assert(occurs_at(whole, part@, i - from));
            return true;
        }
        assert(part@.len() > 0) by {
            if part@.len() == 0 {
                assert(chars@.subrange(i as int, i as int) =~= part@);
            }
        }
        i = i + 1;
    }
    false
}

/// Whether `part` stands somewhere in `s`.
pub fn contains(s: &str, part: &str) -> (found: bool)
    ensures
        found == contains_text(s@, part@),
{
    let chars = chars_of(s);
    let wanted = chars_of(part);
    let found = range_contains(&chars, 0, chars.len(), &wanted);
    assert(s@.subrange(0, s@.len() as int) =~= s@);
    found
}

/// Whether the character `c` stands in `s`.
pub fn contains_char(s: &str, c: char) -> (found: bool)
    ensures
        found == s@.contains(c),
{
    for d in iter: s.chars()
        invariant
            iter.seq() == s@,
            forall|i: int| 0 <= i < iter.index() ==> s@[i] != c,
    {
        if d == c {
            assert(s@[iter.index()] == c);
            return true;
        }
    }
    false
}

/// What is left of `s` behind `prefix`, where `s` begins with it.
pub fn strip_prefix(s: &str, prefix: &str) -> (rest: Option<String>)
    ensures
        rest is Some <==> prefix@.is_prefix_of(s@),
        rest matches Some(r) ==> r@ == s@.skip(prefix@.len() as int),
{
    let chars = chars_of(s);
    let wanted = chars_of(prefix);
    if wanted.len() <= chars.len() && matches_at(&chars, &wanted, 0) {
        let rest = text_of(&chars, wanted.len(), chars.len());
        assert(rest@ =~= s@.skip(prefix@.len() as int));
        Some(rest)
    } else {
        None
    }
}

/// What is left of `s` before `suffix`, where `s` ends with it.
pub fn strip_suffix(s: &str, suffix: &str) -> (rest: Option<String>)
    ensures
        rest is Some <==> suffix@.is_suffix_of(s@),
        rest matches Some(r) ==> r@ == s@.take(s@.len() - suffix@.len()),
{
    let chars = chars_of(s);
    let wanted = chars_of(suffix);
    if wanted.len() <= chars.len() && matches_at(&chars, &wanted, chars.len() - wanted.len()) {
        let rest = text_of(&chars, 0, chars.len() - wanted.len());
        assert(rest@ =~= s@.take(s@.len() - suffix@.len()));
        Some(rest)
    } else {
        None
    }
}

/// The index of the first `c` in `s`, or the length of `s` where there is none.
pub open spec fn first_index(s: Seq<char>, c: char) -> int
    decreases s.len(),
{
    if s.len() == 0 || s[0] == c {
        0
    } else {
        1 + first_index(s.drop_first(), c)
    }
}

pub proof fn lemma_first_index(s: Seq<char>, c: char, n: int)
    requires
        0 <= n <= s.len(),
        forall|i: int| 0 <= i < n ==> s[i] != c,
        n < s.len() ==> s[n] == c,
    ensures
        first_index(s, c) == n,
    decreases n,
{
    if n > 0 {
        let rest = s.drop_first();
        assert forall|i: int| 0 <= i < n - 1 implies rest[i] != c by {
            assert(rest[i] == s[i + 1]);
        }
        lemma_first_index(rest, c, n - 1);
    }
}

pub proof fn lemma_first_index_bounds(s: Seq<char>, c: char)
    ensures
        0 <= first_index(s, c) <= s.len(),
        forall|i: int| 0 <= i < first_index(s, c) ==> s[i] != c,
        first_index(s, c) < s.len() ==> s[first_index(s, c)] == c,
    decreases s.len(),
{
    if s.len() > 0 && s[0] != c {
        let rest = s.drop_first();
        lemma_first_index_bounds(rest, c);
        assert forall|i: int| 0 <= i < first_index(s, c) implies s[i] != c by {
            if i > 0 {
                assert(rest[i - 1] == s[i]);
            }
        }
    }
}

/// A line without the carriage return that ends it.
pub open spec fn without_return(line: Seq<char>) -> Seq<char> {
    if line.len() > 0 && line.last() == '\r' {
        line.drop_last()
    } else {
        line
    }
}

/// The lines of `s`: a line ends at a newline, which a carriage return may
/// precede; what stands behind the last newline is a line unless it is empty.
pub open spec fn lines(s: Seq<char>) -> Seq<Seq<char>>
    decreases s.len(),
    via lines_decreases
{
    let end = first_index(s, '\n');
    if s.len() == 0 {
        seq![]
    } else if end == s.len() {
        seq![s]
    } else {
        seq![without_return(s.take(end))] + lines(s.skip(end + 1))
    }
}

#[via_fn]
proof fn lines_decreases(s: Seq<char>) {
    lemma_first_index_bounds(s, '\n');
}

/// Where each line of `chars` begins and ends.
pub fn line_ranges(chars: &Vec<char>) -> (ranges: Vec<(usize, usize)>)
    ensures
        ranges@.len() == lines(chars@).len(),
        forall|i: int|
            0 <= i < ranges@.len() ==> {
                let (from, to) = #[trigger] ranges@[i];
                &&& from <= to <= chars@.len()
                &&& chars@.subrange(from as int, to as int) == lines(chars@)[i]
            },
{
    let mut ranges: Vec<(usize, usize)> = Vec::new();
    let mut start: usize = 0;
    assert(chars@.skip(0) =~= chars@);
    while start < chars.len()
        invariant
            start <= chars@.len(),
            lines(chars@).len() == ranges@.len() + lines(chars@.skip(start as int)).len(),
            lines(chars@).skip(ranges@.len() as int) == lines(chars@.skip(start as int)),
            forall|i: int|
                0 <= i < ranges@.len() ==> {
                    let (from, to) = #[trigger] ranges@[i];
                    &&& from <= to <= chars@.len()
                    &&& chars@.subrange(from as int, to as int) == lines(chars@)[i]
                },
        decreases chars@.len() - start,
    {
        let ghost rest = chars@.skip(start as int);
        let ghost before = ranges@.len() as int;
        let mut end: usize = start;
        while end < chars.len() && chars[end] != '\n'
            invariant
                start <= end <= chars@.len(),
                rest == chars@.skip(start as int),
                forall|i: int| 0 <= i < end - start ==> rest[i] != '\n',
            decreases chars@.len() - end,
        {
            end = end + 1;
        }
        proof {
            lemma_first_index(rest, '\n', end - start);
            reveal_with_fuel(lines, 2);
            assert(lines(chars@)[before] == lines(chars@).skip(before)[0]);
        }
        if end == chars.len() {
            assert(chars@.subrange(start as int, end as int) =~= rest);
            assert(chars@.skip(end as int) =~= Seq::<char>::empty());
            assert(lines(chars@).skip(before + 1) =~= seq![]);
            ranges.push((start, end));
            start = end;
        } else {
            let to: usize = if end > start && chars[end - 1] == '\r' {
                end - 1
            } else {
                end
            };
            assert(chars@.subrange(start as int, to as int) =~= without_return(
                rest.take(end - start),
            ));
            assert(chars@.skip(end + 1) =~= rest.skip(end - start + 1));
            assert(lines(chars@).skip(before + 1) =~= lines(chars@).skip(before).skip(1));
            assert(lines(rest).skip(1) =~= lines(rest.skip(end - start + 1)));
            ranges.push((start, to));
            start = end + 1;
        }
    }
    assert(chars@.skip(start as int) =~= Seq::<char>::empty());
    ranges
}

/// The number of bytes that write `c` in UTF-8.
pub fn utf8_width(c: char) -> (width: usize)
    ensures
        width == vstd::utf8::encode_scalar(c as u32).len(),
        1 <= width <= 4,
{
    let code: u32 = c as u32;
    proof {
        vstd::utf8::char_is_scalar(c);
    }
    if code <= 0x7f {
        1
    } else if code <= 0x7ff {
        2
    } else if code <= 0xffff {
        3
    } else {
        4
    }
}

/// Encoding is piecewise: the encoding of a text is that of its parts in turn.
pub proof fn lemma_encode_concat(a: Seq<char>, b: Seq<char>)
    ensures
        vstd::utf8::encode_utf8(a + b) == vstd::utf8::encode_utf8(a) + vstd::utf8::encode_utf8(b),
    decreases a.len(),
{
    if a.len() == 0 {
        assert(a + b =~= b);
        assert(vstd::utf8::encode_utf8(a) + vstd::utf8::encode_utf8(b) =~= vstd::utf8::encode_utf8(b));
    } else {
        assert((a + b).drop_first() =~= a.drop_first() + b);
        lemma_encode_concat(a.drop_first(), b);
        assert(vstd::utf8::encode_utf8(a + b) =~= vstd::utf8::encode_utf8(a)
            + vstd::utf8::encode_utf8(b));
    }
}

pub proof fn lemma_encode_push(a: Seq<char>, c: char)
    ensures
        vstd::utf8::encode_utf8(a.push(c)) == vstd::utf8::encode_utf8(a)
            + vstd::utf8::encode_scalar(c as u32),
{
    lemma_encode_concat(a, seq![c]);
    assert(a.push(c) =~= a + seq![c]);
    reveal_with_fuel(vstd::utf8::encode_utf8, 2);
    assert(seq![c].drop_first() =~= Seq::<char>::empty());
    assert(vstd::utf8::encode_utf8(seq![c]) =~= vstd::utf8::encode_scalar(c as u32));
}

/// The characters of an optional text.
pub open spec fn optional(text: Option<String>) -> Option<Seq<char>> {
    match text {
        Some(t) => Some(t@),
        None => None,
    }
}

/// The characters of each text of a list.
pub open spec fn texts(list: Seq<String>) -> Seq<Seq<char>> {
    list.map_values(|t: String| t@)
}

pub fn copy_text(text: &str) -> (copy: String)
    ensures
        copy@ == text@,
{
    text.to_owned()
}

pub fn copy_optional(text: &Option<String>) -> (copy: Option<String>)
    ensures
        optional(copy) == optional(*text),
{
    match text {
        Some(t) => Some(copy_text(t.as_str())),
        None => None,
    }
}

pub fn copy_texts(list: &Vec<String>) -> (copy: Vec<String>)
    ensures
        texts(copy@) == texts(list@),
{
    let mut copy: Vec<String> = Vec::new();
    let mut i: usize = 0;
    while i < list.len()
        invariant
            i <= list@.len(),
            texts(copy@) == texts(list@).take(i as int),
        decreases list@.len() - i,
    {
        let ghost before = copy@;
        copy.push(copy_text(list[i].as_str()));
        assert(texts(copy@) =~= texts(before).push(list@[i as int]@));
        assert(texts(list@).take(i + 1) =~= texts(list@).take(i as int).push(list@[i as int]@));
        i = i + 1;
    }
    assert(texts(list@).take(i as int) =~= texts(list@));
    copy
}

/// Whether `list` holds `text`.
pub fn lists(list: &Vec<String>, text: &str) -> (found: bool)
    ensures
        found == texts(list@).contains(text@),
{
    let mut i: usize = 0;
    while i < list.len()
        invariant
            i <= list@.len(),
            forall|j: int| 0 <= j < i ==> texts(list@)[j] != text@,
        decreases list@.len() - i,
    {
        if same(list[i].as_str(), text) {
            assert(texts(list@)[i as int] == text@);
            return true;
        }
        i = i + 1;
    }
    false
}

/// Whether two optional texts are equal.
pub fn same_optional(a: &Option<String>, b: &Option<String>) -> (equal: bool)
    ensures
        equal == (optional(*a) == optional(*b)),
{
    match (a, b) {
        (Some(x), Some(y)) => same(x.as_str(), y.as_str()),
        (None, None) => true,
        _ => false,
    }
}

/// The text of an optional text, or `default` where there is none.
pub open spec fn text_or(text: Option<Seq<char>>, default: Seq<char>) -> Seq<char> {
    match text {
        Some(t) => t,
        None => default,
    }
}

pub fn optional_or<'a>(text: &'a Option<String>, default: &'a str) -> (value: &'a str)
    ensures
        value@ == text_or(optional(*text), default@),
{
    match text {
        Some(t) => t.as_str(),
        None => default,
    }
}

/// Whether `c` is one of the ten decimal digits.
pub open spec fn is_digit(c: char) -> bool {
    '0' <= c <= '9'
}

/// The number that a row of decimal digits writes.
pub open spec fn digits_value(s: Seq<char>) -> nat
    decreases s.len(),
{
    if s.len() == 0 {
        0
    } else {
        digits_value(s.drop_last()) * 10 + (s.last() as u32 - '0' as u32) as nat
    }
}

/// The digits of a number, behind the plus sign that may precede them.
pub open spec fn unsigned_digits(s: Seq<char>) -> Seq<char> {
    if s.len() > 0 && s[0] == '+' {
        s.drop_first()
    } else {
        s
    }
}

/// What `s` reads as an unsigned number that is at most `max`: decimal digits,
/// at least one, behind an optional plus sign, and nothing else.
pub open spec fn parsed_unsigned(s: Seq<char>, max: nat) -> Option<nat> {
    let digits = unsigned_digits(s);
    if digits.len() > 0 && (forall|i: int| 0 <= i < digits.len() ==> is_digit(#[trigger] digits[i]))
        && digits_value(digits) <= max {
        Some(digits_value(digits))
    } else {
        None
    }
}

pub proof fn lemma_digits_value_grows(s: Seq<char>, n: int)
    requires
        0 <= n <= s.len(),
        forall|i: int| n <= i < s.len() ==> is_digit(#[trigger] s[i]),
    ensures
        digits_value(s.take(n)) <= digits_value(s),
    decreases s.len() - n,
{
    if n == s.len() {
        assert(s.take(n) =~= s);
    } else {
        lemma_digits_value_grows(s.drop_last(), n);
        assert(s.drop_last().take(n) =~= s.take(n));
        assert(is_digit(s[s.len() - 1]));
        assert(digits_value(s) >= digits_value(s.drop_last()));
    }
}

/// Reads an unsigned number that is at most `max`, as `str::parse` does.
pub fn parse_unsigned(s: &str, max: u64) -> (number: Option<u64>)
    ensures
        match number {
            Some(n) => parsed_unsigned(s@, max as nat) == Some(n as nat),
            None => parsed_unsigned(s@, max as nat) is None,
        },
{
    let chars = chars_of(s);
    let from: usize = if chars.len() > 0 && chars[0] == '+' {
        1
    } else {
        0
    };
    let ghost digits = unsigned_digits(s@);
    assert(digits =~= chars@.skip(from as int));
    if chars.len() == from {
        return None;
    }
    let mut number: u64 = 0;
    let mut i: usize = from;
    assert(digits.take(0) =~= Seq::<char>::empty());
    while i < chars.len()
        invariant
            from <= i <= chars@.len(),
            from < chars@.len(),
            digits == chars@.skip(from as int),
            digits == unsigned_digits(s@),
            forall|j: int| 0 <= j < i - from ==> is_digit(#[trigger] digits[j]),
            number == digits_value(digits.take(i - from)),
            number <= max,
        decreases chars@.len() - i,
    {
        let c = chars[i];
        assert(digits[i - from] == c);
        if !('0' <= c && c <= '9') {
            return None;
        }
        let d: u64 = (c as u32 - 48) as u64;
        assert(digits.take(i + 1 - from).drop_last() =~= digits.take(i - from));
        assert(digits_value(digits.take(i + 1 - from)) == number * 10 + d);
        if number > max / 10 || d > max - number * 10 {
            proof {
                if forall|j: int| 0 <= j < digits.len() ==> is_digit(#[trigger] digits[j]) {
                    lemma_digits_value_grows(digits, i + 1 - from);
                }
            }
            return None;
        }
        number = number * 10 + d;
        i = i + 1;
    }
    assert(digits.take(i - from) =~= digits);
    Some(number)
}

/// `std::str::from_utf8`, as an owned text: bytes are a text exactly where they
/// are valid UTF-8, and the text is then encoded as these bytes.
#[verifier::external_body]
pub(crate) fn decode_text(bytes: &[u8]) -> (text: Option<String>)
    ensures
        text is Some <==> vstd::utf8::valid_utf8(bytes@),
        text matches Some(t) ==> vstd::utf8::encode_utf8(t@) == bytes@,
{
    std::str::from_utf8(bytes).ok().map(str::to_owned)
}

/// The text that bytes encode.
pub open spec fn decoded(bytes: Seq<u8>) -> Option<Seq<char>> {
    if vstd::utf8::valid_utf8(bytes) {
        Some(vstd::utf8::decode_utf8(bytes))
    } else {
        None
    }
}

/// The text that bytes encode, where they are valid UTF-8.
pub fn text_of_bytes(bytes: &[u8]) -> (text: Option<String>)
    ensures
        optional(text) == decoded(bytes@),
        text matches Some(t) ==> vstd::utf8::encode_utf8(t@) == bytes@,
{
    let text = decode_text(bytes);
    proof {
        if text is Some {
            vstd::utf8::encode_utf8_decode_utf8(text->0@);
        }
    }
    text
}

/// The text that bytes show, with a replacement character for what is not
/// UTF-8.
pub uninterp spec fn lossy_text(bytes: Seq<u8>) -> Seq<char>;

/// `String::from_utf8_lossy`, as an owned text: it depends on the bytes alone,
/// and on valid UTF-8 it is the text that the bytes encode.
#[verifier::external_body]
pub(crate) fn show_bytes(bytes: &[u8]) -> (text: String)
    ensures
        text@ == lossy_text(bytes@),
        vstd::utf8::valid_utf8(bytes@) ==> vstd::utf8::encode_utf8(text@) == bytes@,
{
    String::from_utf8_lossy(bytes).into_owned()
}

/// `n` in decimal, for numbers of any size that is used.
pub fn wide_decimal_text(n: u128) -> (text: String)
    ensures
        text@ == decimal(n as nat),
    decreases n,
{
    let mut text = if n < 10 {
        String::new()
    } else {
        wide_decimal_text(n / 10)
    };
    text.push(digit_char((n % 10) as u8));
    assert(n < 10 ==> text@ =~= seq![digit(n as nat)]);
    text
}

/// `n` in decimal, with its sign where it is negative.
pub fn wide_signed_text(n: i128) -> (text: String)
    requires
        n > i128::MIN,
    ensures
        text@ == signed_decimal(n as int),
{
    if n < 0 {
        let mut text = String::new();
        text.push('-');
        text.push_str(wide_decimal_text((-n) as u128).as_str());
        assert(text@ =~= seq!['-'] + decimal((-n) as nat));
        text
    } else {
        wide_decimal_text(n as u128)
    }
}

/// An upper-case letter of the Latin alphabet as its lower-case letter.
pub open spec fn lower_char(c: char) -> char {
    if 'A' <= c <= 'Z' {
        (c as u32 + 32) as char
    } else {
        c
    }
}

/// `str::to_ascii_lowercase`.
pub open spec fn lower_ascii(s: Seq<char>) -> Seq<char> {
    s.map_values(|c: char| lower_char(c))
}

pub fn ascii_lowercase(s: &str) -> (lower: String)
    ensures
        lower@ == lower_ascii(s@),
{
    let mut lower = String::new();
    for c in iter: s.chars()
        invariant
            iter.seq() == s@,
            lower@ == lower_ascii(s@.take(iter.index())),
    {
        let small = if 'A' <= c && c <= 'Z' {
            (c as u8 + 32) as char
        } else {
            c
        };
        let ghost before = lower@;
        lower.push(small);
        proof {
            assert(s@.take(iter.index() + 1) =~= s@.take(iter.index()).push(c));
            assert(lower_ascii(s@.take(iter.index() + 1)) =~= before.push(lower_char(c)));
        }
    }
    assert(s@.take(s@.len() as int) =~= s@);
    lower
}

/// A text in lower case.
pub uninterp spec fn lower_text(s: Seq<char>) -> Seq<char>;

/// `str::to_lowercase`: the lower case of a text by Unicode's rules, which
/// depends on the text alone.
#[verifier::external_body]
pub(crate) fn lowercase(s: &str) -> (lower: String)
    ensures
        lower@ == lower_text(s@),
{
    s.to_lowercase()
}

/// Texts with a separator between them.
pub open spec fn separated(parts: Seq<Seq<char>>, separator: Seq<char>) -> Seq<char>
    decreases parts.len(),
{
    if parts.len() == 0 {
        seq![]
    } else if parts.len() == 1 {
        parts[0]
    } else {
        separated(parts.drop_last(), separator) + separator + parts.last()
    }
}

pub fn join_texts(parts: &Vec<String>, separator: &str) -> (text: String)
    ensures
        text@ == separated(texts(parts@), separator@),
{
    let ghost all = texts(parts@);
    let mut text = String::new();
    let mut i: usize = 0;
    assert(text@ =~= separated(all.take(0), separator@));
    while i < parts.len()
        invariant
            i <= parts@.len(),
            all == texts(parts@),
            text@ == separated(all.take(i as int), separator@),
        decreases parts@.len() - i,
    {
        proof {
            assert(all.take(i + 1).drop_last() =~= all.take(i as int));
            assert(all.take(i + 1).last() == parts@[i as int]@);
        }
        if i > 0 {
            text.push_str(separator);
            text.push_str(parts[i].as_str());
        } else {
            text = copy_text(parts[i].as_str());
            assert(all.take(1)[0] == parts@[0]@);
        }
        i = i + 1;
    }
    assert(all.take(i as int) =~= all);
    text
}

/// The decimal form of a number is made of digits, has no superfluous zero in
/// front, and reads as the number again.
pub proof fn law_a_decimal_reads_back(n: nat)
    ensures
        decimal(n).len() > 0,
        forall|i: int| 0 <= i < decimal(n).len() ==> '0' <= #[trigger] decimal(n)[i] <= '9',
        n > 0 ==> decimal(n)[0] != '0',
        n == 0 ==> decimal(n) == seq!['0'],
        digits_value(decimal(n)) == n,
        parsed_unsigned(decimal(n), n) == Some(n),
    decreases n,
{
    if n < 10 {
        assert(decimal(n).drop_last() =~= seq![]);
        assert(digits_value(seq![]) == 0);
        assert(decimal(n).last() == digit(n));
    } else {
        law_a_decimal_reads_back(n / 10);
        assert(decimal(n).drop_last() =~= decimal(n / 10));
        assert(decimal(n)[0] == decimal(n / 10)[0]);
        assert forall|i: int| 0 <= i < decimal(n).len() implies '0' <= #[trigger] decimal(n)[i]
            <= '9' by {
            if i < decimal(n / 10).len() {
                assert(decimal(n)[i] == decimal(n / 10)[i]);
            }
        }
    }
    assert forall|i: int| 0 <= i < decimal(n).len() implies is_digit(#[trigger] decimal(n)[i]) by {}
    assert(decimal(n)[0] != '+');
}

/// A text without its outer white space: what is cut off on either side is white
/// space, and what is left neither begins nor ends with any.
pub proof fn law_trimming_cuts_white_space(s: Seq<char>)
    ensures
        exists|before: Seq<char>, after: Seq<char>|
            is_blank(before) && is_blank(after) && #[trigger] (before + trimmed(s) + after) == s,
        trimmed(s).len() > 0 ==> !is_white_space(trimmed(s)[0]) && !is_white_space(
            trimmed(s).last(),
        ),
        exists|after: Seq<char>| is_blank(after) && #[trigger] (trim_end(s) + after) == s,
        trim_end(s).len() > 0 ==> !is_white_space(trim_end(s).last()),
{
    lemma_cut_start(s);
    let before = choose|before: Seq<char>| is_blank(before) && #[trigger] (before + trim_start(s)) == s;
    lemma_cut_end(trim_start(s));
    lemma_cut_end(s);
    let after = choose|after: Seq<char>|
        is_blank(after) && #[trigger] (trim_end(trim_start(s)) + after) == trim_start(s);
    assert(before + trimmed(s) + after =~= s);
    if trimmed(s).len() > 0 {
        assert(trimmed(s)[0] == trim_start(s)[0]);
    }
}

proof fn lemma_cut_start(s: Seq<char>)
    ensures
        exists|before: Seq<char>| is_blank(before) && #[trigger] (before + trim_start(s)) == s,
        trim_start(s).len() > 0 ==> !is_white_space(trim_start(s)[0]),
    decreases s.len(),
{
    if s.len() > 0 && is_white_space(s[0]) {
        lemma_cut_start(s.drop_first());
        let rest = choose|rest: Seq<char>|
            is_blank(rest) && #[trigger] (rest + trim_start(s.drop_first())) == s.drop_first();
        let before = seq![s[0]] + rest;
        assert(before + trim_start(s) =~= seq![s[0]] + (rest + trim_start(s.drop_first())));
        assert(seq![s[0]] + s.drop_first() =~= s);
        assert(is_blank(before));
    } else {
        assert(Seq::<char>::empty() + trim_start(s) =~= s);
        assert(is_blank(Seq::<char>::empty()));
    }
}

proof fn lemma_cut_end(s: Seq<char>)
    ensures
        exists|after: Seq<char>| is_blank(after) && #[trigger] (trim_end(s) + after) == s,
        trim_end(s).len() > 0 ==> !is_white_space(trim_end(s).last()),
    decreases s.len(),
{
    if s.len() > 0 && is_white_space(s.last()) {
        lemma_cut_end(s.drop_last());
        let rest = choose|rest: Seq<char>|
            is_blank(rest) && #[trigger] (trim_end(s.drop_last()) + rest) == s.drop_last();
        let after = rest.push(s.last());
        assert(trim_end(s) + after =~= (trim_end(s.drop_last()) + rest).push(s.last()));
        assert(s.drop_last().push(s.last()) =~= s);
        assert(is_blank(after));
    } else {
        assert(trim_end(s) + Seq::<char>::empty() =~= s);
        assert(is_blank(Seq::<char>::empty()));
    }
}

/// A text stands in another one exactly where that is made of something before it,
/// the text, and something behind it.
pub proof fn law_a_part_has_a_place(s: Seq<char>, part: Seq<char>)
    ensures
        contains_text(s, part) <==> exists|before: Seq<char>, after: Seq<char>| #[trigger]
            (before + part + after) == s,
{
    if contains_text(s, part) {
        let i = choose|i: int| occurs_at(s, part, i);
        assert(s.take(i) + part + s.skip(i + part.len()) =~= s);
    }
    if exists|before: Seq<char>, after: Seq<char>| #[trigger] (before + part + after) == s {
        let (before, after) = choose|before: Seq<char>, after: Seq<char>| #[trigger]
            (before + part + after) == s;
        assert(s.subrange(before.len() as int, before.len() as int + part.len()) =~= part);
        assert(occurs_at(s, part, before.len() as int));
    }
}

/// The lines of a text hold all of it: with a newline behind each line they are the
/// text again, which need not end with one itself. No line holds a newline. A text
/// with carriage returns has the lines that it has without those that stand before
/// a newline.
pub proof fn law_lines_hold_the_whole_text(s: Seq<char>)
    requires
        !s.contains('\r'),
    ensures
        lines(s).map_values(|line: Seq<char>| line.push('\n')).flatten() == if s.len() == 0
            || s.last() == '\n' {
            s
        } else {
            s.push('\n')
        },
        forall|i: int| 0 <= i < lines(s).len() ==> !(#[trigger] lines(s)[i]).contains('\n'),
    decreases s.len(),
{
    let end = first_index(s, '\n');
    let ended = |line: Seq<char>| line.push('\n');
    lemma_first_index_bounds(s, '\n');
    reveal_with_fuel(Seq::flatten, 3);
    if s.len() == 0 {
        assert(lines(s).map_values(ended) =~= seq![]);
    } else if end == s.len() {
        let all = lines(s).map_values(ended);
        assert(all =~= seq![s.push('\n')]);
        assert(all.drop_first() =~= seq![]);
        assert(all.flatten() =~= s.push('\n'));
        if s.contains('\n') {
            let i = choose|i: int| 0 <= i < s.len() && s[i] == '\n';
            assert(s[i] != '\n');
        }
        assert(s.last() != '\n') by {
            assert(s[s.len() - 1] != '\n');
        }
    } else {
        let rest = s.skip(end + 1);
        assert(!rest.contains('\r')) by {
            if rest.contains('\r') {
                let i = choose|i: int| 0 <= i < rest.len() && rest[i] == '\r';
                assert(s[i + end + 1] == '\r');
            }
        }
        law_lines_hold_the_whole_text(rest);
        let head = s.take(end);
        assert(without_return(head) == head) by {
            if head.len() > 0 && head.last() == '\r' {
                assert(s[end - 1] == '\r');
            }
        }
        let all = lines(s).map_values(ended);
        assert(lines(s)[0] == head);
        assert(all[0] == head.push('\n'));
        assert(lines(s).drop_first() =~= lines(rest));
        assert(all.drop_first() =~= lines(rest).map_values(ended));
        assert(all.flatten() == all[0] + all.drop_first().flatten());
        if rest.len() == 0 {
            assert(s.last() == '\n');
            assert(all.flatten() =~= s);
        } else {
            assert(rest.last() == s.last());
            if s.last() == '\n' {
                assert(all[0] + rest =~= s);
            } else {
                assert(all[0] + rest.push('\n') =~= s.push('\n'));
            }
        }
        assert(!head.contains('\n')) by {
            if head.contains('\n') {
                let i = choose|i: int| 0 <= i < head.len() && head[i] == '\n';
                assert(s[i] != '\n');
            }
        }
        assert forall|i: int| 0 <= i < lines(s).len() implies !(#[trigger] lines(s)[i]).contains(
            '\n',
        ) by {
            if i > 0 {
                assert(lines(s)[i] == lines(rest)[i - 1]);
            }
        }
    }
}

/// A carriage return that stands before a newline belongs to the end of its line
/// and not to the line.
pub proof fn law_a_return_belongs_to_the_line_end(head: Seq<char>, rest: Seq<char>)
    requires
        !head.contains('\n'),
    ensures
        lines(head + seq!['\r', '\n'] + rest) == seq![head] + lines(rest),
{
    let s = head + seq!['\r', '\n'] + rest;
    let end = head.len() as int + 1;
    assert forall|i: int| 0 <= i < end implies s[i] != '\n' by {
        if i < head.len() {
            assert(head[i] == s[i]);
            assert(head.contains(head[i]));
        }
    }
    lemma_first_index(s, '\n', end);
    assert(s.take(end) =~= head.push('\r'));
    assert(without_return(s.take(end)) =~= head);
    assert(s.skip(end + 1) =~= rest);
}

/// Texts with a separator between them: the separator stands behind every text but
/// the last.
pub proof fn law_separators_stand_between(parts: Seq<Seq<char>>, separator: Seq<char>, last: Seq<char>)
    ensures
        separated(parts.push(last), separator) == parts.map_values(
            |part: Seq<char>| part + separator,
        ).flatten() + last,
        separated(seq![], separator) == Seq::<char>::empty(),
    decreases parts.len(),
{
    let with = |part: Seq<char>| part + separator;
    let all = parts.push(last);
    reveal_with_fuel(Seq::flatten, 2);
    if parts.len() == 0 {
        assert(parts.map_values(with) =~= seq![]);
        assert(Seq::<Seq<char>>::empty().flatten() =~= seq![]);
    } else {
        law_separators_stand_between(parts.drop_last(), separator, parts.last());
        assert(all.drop_last() =~= parts);
        assert(parts.drop_last().push(parts.last()) =~= parts);
        let ended = parts.map_values(with);
        ended.lemma_flatten_and_flatten_alt_are_equivalent();
        ended.drop_last().lemma_flatten_and_flatten_alt_are_equivalent();
        assert(ended.drop_last() =~= parts.drop_last().map_values(with));
        assert(ended.last() == parts.last() + separator);
        assert(ended.flatten_alt() == ended.drop_last().flatten_alt() + ended.last());
        assert(separated(all, separator) =~= ended.flatten() + last);
    }
}

/// Only the letters from `A` to `Z` change in ASCII lower case.
pub proof fn law_lower_case_changes_capitals(s: Seq<char>)
    ensures
        lower_ascii(s).len() == s.len(),
        forall|i: int|
            0 <= i < s.len() ==> if 'A' <= s[i] <= 'Z' {
                #[trigger] lower_ascii(s)[i] as u32 == s[i] as u32 + 32
            } else {
                lower_ascii(s)[i] == s[i]
            },
{
}

pub proof fn lemma_ten_parts(
    a: Seq<char>,
    b: Seq<char>,
    c: Seq<char>,
    d: Seq<char>,
    e: Seq<char>,
    f: Seq<char>,
    g: Seq<char>,
    h: Seq<char>,
    i: Seq<char>,
    j: Seq<char>,
)
    ensures
        seq![a, b, c, d, e, f, g, h, i, j].flatten() == a + b + c + d + e + f + g + h + i + j,
{
    broadcast use Seq::lemma_flatten_push;

    let none = Seq::<Seq<char>>::empty();
    reveal_with_fuel(Seq::flatten, 2);
    assert(none.flatten() =~= seq![]);
    assert(none.push(a).flatten() =~= a);
    let two = none.push(a).push(b);
    let four = two.push(c).push(d);
    let six = four.push(e).push(f);
    let eight = six.push(g).push(h);
    assert(two.flatten() =~= a + b);
    assert(four.flatten() =~= a + b + c + d);
    assert(six.flatten() =~= a + b + c + d + e + f);
    assert(eight.flatten() =~= a + b + c + d + e + f + g + h);
    assert(eight.push(i).flatten() =~= a + b + c + d + e + f + g + h + i);
    assert(seq![a, b, c, d, e, f, g, h, i, j] =~= eight.push(i).push(j));
}

/// Three texts in a row are one text, however they are put together.
pub proof fn lemma_in_a_row(a: Seq<char>, b: Seq<char>, c: Seq<char>)
    ensures
        a + b + c == a + (b + c),
{
    assert(a + b + c =~= a + (b + c));
}

/// No texts in a row are an empty text.
pub proof fn lemma_no_parts()
    ensures
        Seq::<Seq<char>>::empty().flatten() == Seq::<char>::empty(),
        forall|a: Seq<char>| #[trigger] (Seq::<char>::empty() + a) == a,
{
    reveal_with_fuel(Seq::flatten, 2);
    assert(Seq::<Seq<char>>::empty().flatten() =~= Seq::<char>::empty());
    assert forall|a: Seq<char>| #[trigger] (Seq::<char>::empty() + a) == a by {
        assert(Seq::<char>::empty() + a =~= a);
    }
}

/// Texts that are made one by one and put in a row.
pub proof fn lemma_row_grows(make: spec_fn(int) -> Seq<char>, n: nat)
    ensures
        Seq::new(n + 1, make).flatten() == Seq::new(n, make).flatten() + make(n as int),
        Seq::new(0, make).flatten() == Seq::<char>::empty(),
{
    broadcast use Seq::lemma_flatten_push;

    lemma_no_parts();
    assert(Seq::new(n + 1, make) =~= Seq::new(n, make).push(make(n as int)));
    assert(Seq::new(0, make) =~= Seq::empty());
}

/// Items that are rendered one after another are the row of their texts.
pub proof fn lemma_rendered_is_a_row<T>(items: Seq<T>, line: spec_fn(T) -> Seq<char>)
    ensures
        rendered(items, line) == Seq::new(items.len(), |i: int| line(items[i])).flatten(),
{
    assert(items.map_values(line) =~= Seq::new(items.len(), |i: int| line(items[i])));
}

/// Which characters are white space, by their numbers.
pub proof fn law_which_characters_are_white_space(c: char)
    ensures
        is_white_space(c) <==> {
            let code = c as u32;
            ||| 9 <= code <= 13
            ||| code == 32
            ||| code == 133
            ||| code == 160
            ||| code == 5760
            ||| 8192 <= code <= 8202
            ||| code == 8232
            ||| code == 8233
            ||| code == 8239
            ||| code == 8287
            ||| code == 12288
        },
{
}

/// A negative number is shown as its amount behind a sign, and any other as it is.
pub proof fn law_signs_stand_in_front(n: nat)
    ensures
        signed_decimal(n as int) == decimal(n),
        n > 0 ==> signed_decimal(-n) == seq!['-'] + decimal(n),
{
}

/// A number is read from digits, with one plus sign before them at most, where it is
/// not larger than the largest one.
pub proof fn law_which_numbers_can_be_read(s: Seq<char>, max: nat)
    ensures
        parsed_unsigned(seq![], max) is None,
        parsed_unsigned(s, max) matches Some(n) ==> n <= max && s.len() > 0,
        s.len() > 0 && s[0] != '+' && parsed_unsigned(s, max) is Some ==> parsed_unsigned(
            seq!['+'] + s,
            max,
        ) == parsed_unsigned(s, max),
        forall|i: int|
            0 <= i < s.len() && !('0' <= #[trigger] s[i] <= '9') && !(i == 0 && s[0] == '+')
                ==> parsed_unsigned(s, max) is None,
        digits_value(s) > max && (s.len() == 0 || s[0] != '+') ==> parsed_unsigned(s, max) is None,
{
    assert((seq!['+'] + s).drop_first() =~= s);
    assert forall|i: int|
        0 <= i < s.len() && !('0' <= #[trigger] s[i] <= '9') && !(i == 0 && s[0]
            == '+') implies parsed_unsigned(s, max) is None by {
        let digits = unsigned_digits(s);
        if s[0] == '+' {
            assert(digits[i - 1] == s[i]);
        } else {
            assert(digits[i] == s[i]);
        }
    }
}

/// Texts are trimmed, parsed, numbered and looked into as the model says.
pub proof fn law_texts_are_handled_as_said<'a>(
    s: &'a str,
    trimmed_text: &'a str,
    max: u64,
    number: Option<u64>,
    n: u64,
    digits: String,
    lower: String,
    bytes: &[u8],
    read: Option<String>,
)
    requires
        call_ensures(trim, (s,), trimmed_text),
        call_ensures(parse_unsigned, (s, max), number),
        call_ensures(decimal_text, (n,), digits),
        call_ensures(ascii_lowercase, (s,), lower),
        call_ensures(text_of_bytes, (bytes,), read),
    ensures
        trimmed_text@ == trimmed(s@),
        number is Some <==> parsed_unsigned(s@, max as nat) is Some,
        number matches Some(value) ==> parsed_unsigned(s@, max as nat) == Some(value as nat),
        digits_value(digits@) == n,
        lower@ == lower_ascii(s@),
        read is Some <==> vstd::utf8::valid_utf8(bytes@),
        read matches Some(text) ==> vstd::utf8::encode_utf8(text@) == bytes@,
{
    law_a_decimal_reads_back(n as nat);
}

} // verus!
