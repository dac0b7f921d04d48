//! Text in the terms the rest of the library needs: comparison, trimming, search, and the
//! decimal and hexadecimal renderings of numbers.
use vstd::prelude::*;
use vstd::string::*;
use vstd::utf8;

verus! {

/// Whether two texts are the same.
pub fn same(a: &str, b: &str) -> (result: bool)
    ensures
        result == (a@ == b@),
{
    let left: &[u8] = a.as_bytes();
    let right: &[u8] = b.as_bytes();
    proof {
        utf8::encode_utf8_decode_utf8(a@);
        utf8::encode_utf8_decode_utf8(b@);
    }
    if left.len() != right.len() {
        return false;
    }
    let mut i: usize = 0;
    while i < left.len()
        invariant
            left@.len() == right@.len(),
            left@ == utf8::encode_utf8(a@),
            right@ == utf8::encode_utf8(b@),
            i <= left@.len(),
            forall|j: int| 0 <= j < i ==> left@[j] == right@[j],
        decreases left@.len() - i,
    {
        if left[i] != right[i] {
            return false;
        }
        i += 1;
    }
    assert(left@ =~= right@);
    true
}

pub fn is_empty(s: &str) -> (result: bool)
    ensures
        result == (s@.len() == 0),
{
    s.unicode_len() == 0
}

/// Two texts one after the other.
pub fn concat(a: &str, b: &str) -> (result: String)
    ensures
        result@ == a@ + b@,
{
    let mut result = a.to_owned();
    result.append(b);
    result
}

/// Three texts one after the other.
pub fn concat3(a: &str, b: &str, c: &str) -> (result: String)
    ensures
        result@ == a@ + b@ + c@,
{
    let mut result = concat(a, b);
    result.append(c);
    result
}

/// Four texts one after the other.
pub fn concat4(a: &str, b: &str, c: &str, d: &str) -> (result: String)
    ensures
        result@ == a@ + b@ + c@ + d@,
{
    let mut result = concat3(a, b, c);
    result.append(d);
    result
}

/// The characters of a text.
pub fn chars_of(text: &str) -> (chars: Vec<char>)
    ensures
        chars@ == text@,
{
    let mut chars: Vec<char> = Vec::new();
    for c in it: text.chars()
        invariant
            it.seq() == text@,
            chars@ == text@.take(it.index() as int),
    {
        chars.push(c);
    }
    chars
}

/// A character with the Unicode property White_Space.
pub open spec fn white_space(c: char) -> bool {
    ||| '\u{9}' <= c <= '\u{d}'
    ||| c == ' '
    ||| c == '\u{85}'
    ||| c == '\u{a0}'
    ||| c == '\u{1680}'
    ||| '\u{2000}' <= c <= '\u{200a}'
    ||| c == '\u{2028}'
    ||| c == '\u{2029}'
    ||| c == '\u{202f}'
    ||| c == '\u{205f}'
    ||| c == '\u{3000}'
}

pub fn is_white_space(c: char) -> (result: bool)
    ensures
        result == white_space(c),
{
    ('\u{9}' <= c && c <= '\u{d}') || c == ' ' || c == '\u{85}' || c == '\u{a0}' || c == '\u{1680}'
        || ('\u{2000}' <= c && c <= '\u{200a}') || c == '\u{2028}' || c == '\u{2029}' || c
        == '\u{202f}' || c == '\u{205f}' || c == '\u{3000}'
}

/// The text without the white space it begins with.
pub open spec fn trim_start(text: Seq<char>) -> Seq<char>
    decreases text.len(),
{
    if text.len() > 0 && white_space(text[0]) {
        trim_start(text.skip(1))
    } else {
        text
    }
}

/// The text without the white space it ends with.
pub open spec fn trim_end(text: Seq<char>) -> Seq<char>
    decreases text.len(),
{
    if text.len() > 0 && white_space(text.last()) {
        trim_end(text.drop_last())
    } else {
        text
    }
}

/// The text without the white space around it.
pub open spec fn trimmed(text: Seq<char>) -> Seq<char> {
    trim_end(trim_start(text))
}

/// A text that neither begins nor ends with white space is trimmed already.
pub proof fn lemma_trimmed(text: Seq<char>)
    requires
        text.len() > 0,
        !white_space(text[0]),
        !white_space(text.last()),
    ensures
        trimmed(text) == text,
{
}

pub fn trim(text: &str) -> (result: &str)
    ensures
        result@ == trimmed(text@),
{
    let chars = chars_of(text);
    let mut start: usize = 0;
    assert(text@.skip(0) =~= text@);
    while start < chars.len() && is_white_space(chars[start])
        invariant
            start <= chars@.len(),
            chars@ == text@,
            trim_start(text@) == trim_start(text@.skip(start as int)),
        decreases chars@.len() - start,
    {
        assert(text@.skip(start as int).skip(1) =~= text@.skip(start + 1));
        start += 1;
    }
    let mut end: usize = chars.len();
    assert(text@.skip(start as int) =~= text@.subrange(start as int, end as int));
    while start < end && is_white_space(chars[end - 1])
        invariant
            start <= end <= chars@.len(),
            chars@ == text@,
            trimmed(text@) == trim_end(text@.subrange(start as int, end as int)),
        decreases end,
    {
        assert(text@.subrange(start as int, end as int).drop_last() =~= text@.subrange(
            start as int,
            end - 1,
        ));
        end -= 1;
    }
    text.substring_char(start, end)
}

/// Whether `part` occurs in `whole`.
pub open spec fn occurs(part: Seq<char>, whole: Seq<char>) -> bool {
    exists|at: int|
        0 <= at && at + part.len() <= whole.len() && #[trigger] whole.subrange(
            at,
            at + part.len(),
        ) == part
}

pub fn contains(whole: &str, part: &str) -> (result: bool)
    ensures
        result == occurs(part@, whole@),
{
    let hay = chars_of(whole);
    let needle = chars_of(part);
    if needle.len() > hay.len() {
        return false;
    }
    let mut at: usize = 0;
    while at <= hay.len() - needle.len()
        invariant
            hay@ == whole@,
            needle@ == part@,
            needle@.len() <= hay@.len(),
            at <= hay@.len() - needle@.len() + 1,
            forall|i: int|
                0 <= i < at ==> #[trigger] whole@.subrange(i, i + part@.len()) != part@,
        decreases hay@.len() - needle@.len() + 1 - at,
    {
        let mut k: usize = 0;
        while k < needle.len() && hay[at + k] == needle[k]
            invariant
                k <= needle@.len(),
                at + needle@.len() <= hay.len(),
                forall|j: int| 0 <= j < k ==> hay@[at + j] == needle@[j],
            decreases needle@.len() - k,
        {
            k += 1;
        }
        if k == needle.len() {
            assert(whole@.subrange(at as int, at + part@.len()) =~= part@);
            return true;
        }
        assert(whole@.subrange(at as int, at + part@.len())[k as int] != part@[k as int]);
        at += 1;
    }
    false
}

pub open spec fn digit(n: nat) -> char {
    ('0' as u32 + n) as char
}

/// The decimal digits of a number.
pub open spec fn decimal(n: nat) -> Seq<char>
    decreases n,
{
    if n < 10 {
        seq![digit(n)]
    } else {
        decimal(n / 10).push(digit(n % 10))
    }
}

fn digit_text(n: u64) -> (text: &'static str)
    requires
        n < 10,
    ensures
        text@ == seq![digit(n as nat)],
{
    proof {
        reveal_strlit("0");
        reveal_strlit("1");
        reveal_strlit("2");
        reveal_strlit("3");
        reveal_strlit("4");
        reveal_strlit("5");
        reveal_strlit("6");
        reveal_strlit("7");
        reveal_strlit("8");
        reveal_strlit("9");
    }
    let text = if n == 0 {
        "0"
    } else if n == 1 {
        "1"
    } else if n == 2 {
        "2"
    } else if n == 3 {
        "3"
    } else if n == 4 {
        "4"
    } else if n == 5 {
        "5"
    } else if n == 6 {
        "6"
    } else if n == 7 {
        "7"
    } else if n == 8 {
        "8"
    } else {
        "9"
    };
    assert(text@ =~= seq![digit(n as nat)]);
    text
}

/// The decimal rendering of a number.
pub fn decimal_text(n: u64) -> (text: String)
    ensures
        text@ == decimal(n as nat),
    decreases n,
{
    if n < 10 {
        digit_text(n).to_owned()
    } else {
        let mut text = decimal_text(n / 10);
        text.append(digit_text(n % 10));
        assert(text@ =~= decimal(n as nat));
        text
    }
}

pub open spec fn is_digit(c: char) -> bool {
    '0' <= c <= '9'
}

/// The number that decimal digits say.
pub open spec fn number(digits: Seq<char>) -> nat
    decreases digits.len(),
{
    if digits.len() == 0 {
        0
    } else {
        number(digits.drop_last()) * 10 + (digits.last() as nat - '0' as nat) as nat
    }
}

/// The digits of a number as it is written, without the plus sign that may stand before them.
pub open spec fn unsigned_digits(text: Seq<char>) -> Seq<char> {
    if text.len() > 0 && text[0] == '+' {
        text.skip(1)
    } else {
        text
    }
}

/// The number of 32 bits that a text writes in decimal digits.
pub open spec fn u32_of(text: Seq<char>) -> Option<u32> {
    let digits = unsigned_digits(text);
    if digits.len() > 0 && (forall|i: int| 0 <= i < digits.len() ==> is_digit(#[trigger] digits[i]))
        && number(digits) <= u32::MAX {
        Some(number(digits) as u32)
    } else {
        None
    }
}

proof fn lemma_number_grows(digits: Seq<char>, n: int)
    requires
        0 <= n <= digits.len(),
    ensures
        number(digits.take(n)) <= number(digits),
    decreases digits.len(),
{
    if n < digits.len() {
        lemma_number_grows(digits.drop_last(), n);
        assert(digits.drop_last().take(n) =~= digits.take(n));
    } else {
        assert(digits.take(n) =~= digits);
    }
}

/// Reads a number of 32 bits in decimal digits.
pub fn parse_u32(text: &str) -> (result: Option<u32>)
    ensures
        result == u32_of(text@),
{
    let chars = chars_of(text);
    let start: usize = if chars.len() > 0 && chars[0] == '+' {
        1
    } else {
        0
    };
    let ghost digits = unsigned_digits(text@);
    assert(digits =~= text@.skip(start as int));
    if start == chars.len() {
        return None;
    }
    let mut value: u64 = 0;
    let mut i: usize = start;
    assert(digits.take(0) =~= Seq::empty());
    while i < chars.len()
        invariant
            chars@ == text@,
            start <= i <= chars@.len(),
            start <= 1,
            digits == text@.skip(start as int),
            digits == unsigned_digits(text@),
            value == number(digits.take(i - start)),
            value <= u32::MAX,
            forall|j: int| 0 <= j < i - start ==> is_digit(#[trigger] digits[j]),
        decreases chars@.len() - i,
    {
        let c: char = chars[i];
        assert(c == digits[i - start]);
        if !('0' <= c && c <= '9') {
            return None;
        }
        assert(digits.take(i + 1 - start).drop_last() =~= digits.take(i - start));
        value = value * 10 + (c as u64 - '0' as u64);
        i += 1;
        if value > u32::MAX as u64 {
            proof {
                lemma_number_grows(digits, i - start);
            }
            return None;
        }
    }
    assert(digits.take(i - start) =~= digits);
    Some(value as u32)
}

pub fn starts_with(s: &str, first: char) -> (result: bool)
    ensures
        result == (s@.len() > 0 && s@[0] == first),
{
    !is_empty(s) && s.get_char(0) == first
}

pub fn ends_with(s: &str, last: char) -> (result: bool)
    ensures
        result == (s@.len() > 0 && s@.last() == last),
{
    !is_empty(s) && s.get_char(s.unicode_len() - 1) == last
}

/// The hexadecimal digit of a number below sixteen.
pub open spec fn hex_digit(n: nat) -> char {
    if n < 10 {
        ('0' as u32 + n) as char
    } else {
        ('a' as u32 + (n - 10)) as char
    }
}

/// Two hexadecimal digits for each byte.
pub open spec fn hex(bytes: Seq<u8>) -> Seq<char>
    decreases bytes.len(),
{
    if bytes.len() == 0 {
        Seq::empty()
    } else {
        let byte = bytes.last();
        hex(bytes.drop_last()).push(hex_digit((byte / 16) as nat)).push(
            hex_digit((byte % 16) as nat),
        )
    }
}

fn hex_digit_text(n: u8) -> (text: &'static str)
    requires
        n < 16,
    ensures
        text@ == seq![hex_digit(n as nat)],
{
    if n < 10 {
        return digit_text(n as u64);
    }
    proof {
        reveal_strlit("a");
        reveal_strlit("b");
        reveal_strlit("c");
        reveal_strlit("d");
        reveal_strlit("e");
        reveal_strlit("f");
    }
    let text = if n == 10 {
        "a"
    } else if n == 11 {
        "b"
    } else if n == 12 {
        "c"
    } else if n == 13 {
        "d"
    } else if n == 14 {
        "e"
    } else {
        "f"
    };
    assert(text@ =~= seq![hex_digit(n as nat)]);
    text
}

/// The hexadecimal rendering of bytes.
pub fn hex_text(bytes: &[u8]) -> (result: String)
    ensures
        result@ == hex(bytes@),
{
    let mut result = String::new();
    let mut i: usize = 0;
    assert(result@ =~= hex(bytes@.take(0)));
    while i < bytes.len()
        invariant
            i <= bytes@.len(),
            result@ == hex(bytes@.take(i as int)),
        decreases bytes@.len() - i,
    {
        assert(bytes@.take(i + 1).drop_last() =~= bytes@.take(i as int));
        let ghost before = result@;
        let byte: u8 = bytes[i];
        result.append(hex_digit_text(byte / 16));
        result.append(hex_digit_text(byte % 16));
        i += 1;
        assert(result@ =~= before.push(hex_digit((byte / 16) as nat)).push(
            hex_digit((byte % 16) as nat),
        ));
    }
    assert(bytes@.take(i as int) =~= bytes@);
    result
}

/// Different bytes have different hexadecimal renderings.
pub proof fn lemma_hex_apart(one: Seq<u8>, other: Seq<u8>)
    requires
        hex(one) == hex(other),
    ensures
        one == other,
    decreases one.len(),
{
    lemma_hex(one);
    lemma_hex(other);
    if one.len() > 0 {
        let a = one.last();
        let b = other.last();
        let n = hex(one).len();
        assert(hex(one)[n - 2] == hex_digit((a / 16) as nat));
        assert(hex(one)[n - 1] == hex_digit((a % 16) as nat));
        assert(hex(other)[n - 2] == hex_digit((b / 16) as nat));
        assert(hex(other)[n - 1] == hex_digit((b % 16) as nat));
        assert(a == b);
        assert(hex(one).take(n - 2) =~= hex(one.drop_last()));
        assert(hex(other).take(n - 2) =~= hex(other.drop_last()));
        lemma_hex_apart(one.drop_last(), other.drop_last());
        assert(one =~= one.drop_last().push(a));
        assert(other =~= other.drop_last().push(b));
    } else {
        assert(one =~= other);
    }
}

/// A hexadecimal rendering has two characters for each byte, all of them hexadecimal digits.
pub proof fn lemma_hex(bytes: Seq<u8>)
    ensures
        hex(bytes).len() == 2 * bytes.len(),
        forall|i: int|
            0 <= i < hex(bytes).len() ==> '0' <= #[trigger] hex(bytes)[i] <= '9' || 'a' <= hex(
                bytes,
            )[i] <= 'f',
    decreases bytes.len(),
{
    if bytes.len() > 0 {
        lemma_hex(bytes.drop_last());
    }
}

/// The texts one after the other.
pub open spec fn joined(parts: Seq<Seq<char>>) -> Seq<char>
    decreases parts.len(),
{
    if parts.len() == 0 {
        Seq::empty()
    } else {
        joined(parts.drop_last()) + parts.last()
    }
}

pub broadcast proof fn lemma_joined_push(parts: Seq<Seq<char>>, part: Seq<char>)
    ensures
        #[trigger] joined(parts.push(part)) == joined(parts) + part,
{
    assert(parts.push(part).drop_last() =~= parts);
}

pub broadcast proof fn lemma_joined_add(parts: Seq<Seq<char>>, more: Seq<Seq<char>>)
    ensures
        #[trigger] joined(parts + more) == joined(parts) + joined(more),
    decreases more.len(),
{
    if more.len() == 0 {
        assert(parts + more =~= parts);
        assert(joined(parts) + joined(more) =~= joined(parts));
    } else {
        assert((parts + more).drop_last() =~= parts + more.drop_last());
        lemma_joined_add(parts, more.drop_last());
        assert(joined(parts + more) =~= joined(parts) + joined(more));
    }
}

/// What a text says, if there is one.
pub open spec fn opt(value: Option<String>) -> Option<Seq<char>> {
    match value {
        Some(text) => Some(text@),
        None => None,
    }
}

/// A copy of a text, if there is one.
pub fn copy_opt(value: &Option<String>) -> (copy: Option<String>)
    ensures
        opt(copy) == opt(*value),
{
    match value {
        Some(text) => Some(text.clone()),
        None => None,
    }
}

/// What each of the texts says.
pub open spec fn texts(parts: Seq<String>) -> Seq<Seq<char>> {
    Seq::new(parts.len(), |i: int| parts[i]@)
}

pub broadcast proof fn lemma_texts_push(parts: Seq<String>, part: String)
    ensures
        #[trigger] texts(parts.push(part)) == texts(parts).push(part@),
{
    assert(texts(parts.push(part)) =~= texts(parts).push(part@));
}

/// The lines with a line break between one and the next.
pub open spec fn joined_lines(lines: Seq<Seq<char>>) -> Seq<char>
    decreases lines.len(),
{
    if lines.len() == 0 {
        Seq::empty()
    } else if lines.len() == 1 {
        lines[0]
    } else {
        joined_lines(lines.drop_last()) + "\n"@ + lines.last()
    }
}

pub fn join_lines(lines: &Vec<String>) -> (result: String)
    ensures
        result@ == joined_lines(texts(lines@)),
{
    let ghost all = texts(lines@);
    let mut result = String::new();
    let mut i: usize = 0;
    assert(result@ =~= joined_lines(all.take(0)));
    while i < lines.len()
        invariant
            i <= lines@.len(),
            all == texts(lines@),
            result@ == joined_lines(all.take(i as int)),
        decreases lines@.len() - i,
    {
        assert(all.take(i + 1).drop_last() =~= all.take(i as int));
        if i > 0 {
            result.append("\n");
            result.append(lines[i].as_str());
        } else {
            result.append(lines[i].as_str());
            assert(result@ =~= all[0]);
        }
        i += 1;
    }
    assert(all.take(i as int) =~= all);
    result
}

/// The text without the characters `c` at its end.
pub open spec fn without_trailing(text: Seq<char>, c: char) -> Seq<char>
    decreases text.len(),
{
    if text.len() > 0 && text.last() == c {
        without_trailing(text.drop_last(), c)
    } else {
        text
    }
}

/// A line without the line breaks and the carriage returns at its end.
pub open spec fn chomped(line: Seq<char>) -> Seq<char> {
    without_trailing(without_trailing(line, '\n'), '\r')
}

fn drop_trailing(text: &str, c: char) -> (result: &str)
    ensures
        result@ == without_trailing(text@, c),
{
    let chars = chars_of(text);
    let mut end: usize = chars.len();
    assert(text@.take(end as int) =~= text@);
    while end > 0 && chars[end - 1] == c
        invariant
            end <= chars@.len(),
            chars@ == text@,
            without_trailing(text@, c) == without_trailing(text@.take(end as int), c),
        decreases end,
    {
        assert(text@.take(end as int).drop_last() =~= text@.take(end - 1));
        end -= 1;
    }
    assert(text@.take(end as int) =~= text@.subrange(0, end as int));
    text.substring_char(0, end)
}

pub fn chomp(line: &str) -> (result: &str)
    ensures
        result@ == chomped(line@),
{
    drop_trailing(drop_trailing(line, '\n'), '\r')
}

/// The line break that ends a line is all that goes where the line ends otherwise.
pub proof fn lemma_chomped(line: Seq<char>)
    requires
        line.len() > 0 ==> line.last() != '\n' && line.last() != '\r',
    ensures
        chomped(line + "\n"@) == line,
{
    reveal_strlit("\n");
    reveal_with_fuel(without_trailing, 2);
    assert((line + "\n"@).last() == '\n');
    assert((line + "\n"@).drop_last() =~= line);
}

/// Where the first line break stands; the length of the text where there is none.
pub open spec fn line_end(text: Seq<char>) -> nat
    decreases text.len(),
{
    if text.len() == 0 || text[0] == '\n' {
        0
    } else {
        1 + line_end(text.skip(1))
    }
}

/// A line without the carriage return that stood before its line break.
pub open spec fn without_return(line: Seq<char>) -> Seq<char> {
    if line.len() > 0 && line.last() == '\r' {
        line.drop_last()
    } else {
        line
    }
}

pub proof fn lemma_line_end(text: Seq<char>)
    ensures
        line_end(text) <= text.len(),
        forall|i: int| 0 <= i < line_end(text) ==> #[trigger] text[i] != '\n',
        line_end(text) < text.len() ==> text[line_end(text) as int] == '\n',
    decreases text.len(),
{
    if text.len() > 0 && text[0] != '\n' {
        let rest = text.skip(1);
        lemma_line_end(rest);
        assert forall|i: int| 0 <= i < line_end(text) implies #[trigger] text[i] != '\n' by {
            if i > 0 {
                assert(rest[i - 1] == text[i]);
            }
        }
    }
}

/// The lines of a text. A line ends with a line break, before which a carriage return may
/// stand; after the last line the line break may be missing.
pub open spec fn lines(text: Seq<char>) -> Seq<Seq<char>>
    decreases text.len(),
{
    let end = line_end(text);
    if text.len() == 0 {
        Seq::empty()
    } else if end >= text.len() {
        seq![text]
    } else {
        seq![without_return(text.take(end as int))] + lines(text.skip(end as int + 1))
    }
}

proof fn lemma_line_end_at(text: Seq<char>, end: int)
    requires
        0 <= end <= text.len(),
        forall|i: int| 0 <= i < end ==> #[trigger] text[i] != '\n',
        end < text.len() ==> text[end] == '\n',
    ensures
        line_end(text) == end,
    decreases end,
{
    if end > 0 {
        let rest = text.skip(1);
        assert forall|i: int| 0 <= i < end - 1 implies #[trigger] rest[i] != '\n' by {
            assert(text[i + 1] != '\n');
        }
        assert(text[0] != '\n');
        lemma_line_end_at(rest, end - 1);
    }
}

pub fn split_lines(text: &str) -> (result: Vec<String>)
    ensures
        texts(result@) == lines(text@),
{
    let chars = chars_of(text);
    let mut result: Vec<String> = Vec::new();
    let mut start: usize = 0;
    assert(text@.skip(0) =~= text@);
    assert(texts(result@) + lines(text@) =~= lines(text@));
    while start < chars.len()
        invariant
            start <= chars@.len(),
            chars@ == text@,
            lines(text@) == texts(result@) + lines(text@.skip(start as int)),
        decreases chars@.len() - start,
    {
        let ghost rest = text@.skip(start as int);
        let mut end: usize = start;
        while end < chars.len() && chars[end] != '\n'
            invariant
                start <= end <= chars@.len(),
                chars@ == text@,
                rest == text@.skip(start as int),
                forall|i: int| 0 <= i < end - start ==> #[trigger] rest[i] != '\n',
            decreases chars@.len() - end,
        {
            end += 1;
        }
        proof {
            lemma_line_end_at(rest, end - start);
        }
        let ghost before = result@;
        let ghost line: Seq<char>;
        if end == chars.len() {
            proof {
                line = rest;
            }
            assert(text@.subrange(start as int, end as int) =~= rest);
            result.push(text.substring_char(start, end).to_owned());
            start = end;
            assert(text@.skip(start as int) =~= Seq::empty());
            assert(lines(rest) =~= seq![line] + lines(text@.skip(start as int)));
        } else {
            proof {
                line = without_return(rest.take(end - start));
            }
            let stop: usize = if end > start && chars[end - 1] == '\r' {
                end - 1
            } else {
                end
            };
            assert(text@.subrange(start as int, stop as int) =~= line);
            result.push(text.substring_char(start, stop).to_owned());
            start = end + 1;
            assert(rest.skip(line_end(rest) as int + 1) =~= text@.skip(start as int));
        }
        proof {
            lemma_texts_push(before, result@.last());
            assert(result@ =~= before.push(result@.last()));
            assert(texts(before).push(line) + lines(text@.skip(start as int)) =~= texts(before) + (
            seq![line] + lines(text@.skip(start as int))));
        }
    }
    assert(lines(text@.skip(start as int)) =~= Seq::empty());
    assert(texts(result@) + Seq::empty() =~= texts(result@));
    result
}

/// Joined lines begin with the first of them, and a line break parts it from the rest.
pub proof fn law_first_line(first: Seq<char>, rest: Seq<Seq<char>>)
    ensures
        rest.len() > 0 ==> joined_lines(seq![first] + rest) == first + "\n"@ + joined_lines(rest),
        joined_lines(seq![first]) == first,
    decreases rest.len(),
{
    let all = seq![first] + rest;
    if rest.len() > 0 {
        reveal_with_fuel(joined_lines, 2);
        let fewer = rest.drop_last();
        assert(all.last() == rest.last());
        assert(all.drop_last() =~= seq![first] + fewer);
        if fewer.len() > 0 {
            law_first_line(first, fewer);
            assert(first + "\n"@ + joined_lines(fewer) + "\n"@ + rest.last() =~= first + "\n"@ + (
            joined_lines(fewer) + "\n"@ + rest.last()));
        } else {
            assert(seq![first] + fewer =~= seq![first]);
            assert(rest =~= seq![rest.last()]);
        }
    }
}

/// Only white space goes from around a text, and all of it.
pub proof fn law_trimmed_is_the_middle(text: Seq<char>)
    ensures
        exists|start: int, end: int|
            {
                &&& 0 <= start <= end <= text.len()
                &&& trimmed(text) == #[trigger] text.subrange(start, end)
                &&& forall|i: int| 0 <= i < start ==> white_space(#[trigger] text[i])
                &&& forall|i: int| end <= i < text.len() ==> white_space(#[trigger] text[i])
                &&& start < end ==> !white_space(text[start]) && !white_space(text[end - 1])
            },
{
    let start = lemma_trim_start(text);
    let rest = text.skip(start);
    let kept = lemma_trim_end(rest);
    let end = start + kept;
    assert(trimmed(text) =~= text.subrange(start, end));
    assert forall|i: int| end <= i < text.len() implies white_space(#[trigger] text[i]) by {
        assert(rest[i - start] == text[i]);
    }
    if start < end {
        assert(rest[0] == text[start]);
        assert(rest[kept - 1] == text[end - 1]);
    }
}

proof fn lemma_trim_start(text: Seq<char>) -> (start: int)
    ensures
        0 <= start <= text.len(),
        trim_start(text) == text.skip(start),
        forall|i: int| 0 <= i < start ==> white_space(#[trigger] text[i]),
        start < text.len() ==> !white_space(text[start]),
    decreases text.len(),
{
    if text.len() > 0 && white_space(text[0]) {
        let rest = text.skip(1);
        let start = lemma_trim_start(rest);
        assert(rest.skip(start) =~= text.skip(start + 1));
        assert forall|i: int| 0 <= i < start + 1 implies white_space(#[trigger] text[i]) by {
            if i > 0 {
                assert(rest[i - 1] == text[i]);
            }
        }
        start + 1
    } else {
        assert(text.skip(0) =~= text);
        0
    }
}

proof fn lemma_trim_end(text: Seq<char>) -> (end: int)
    ensures
        0 <= end <= text.len(),
        trim_end(text) == text.take(end),
        forall|i: int| end <= i < text.len() ==> white_space(#[trigger] text[i]),
        end > 0 ==> !white_space(text[end - 1]),
    decreases text.len(),
{
    if text.len() > 0 && white_space(text.last()) {
        let rest = text.drop_last();
        let end = lemma_trim_end(rest);
        assert(rest.take(end) =~= text.take(end));
        assert forall|i: int| end <= i < text.len() implies white_space(#[trigger] text[i]) by {
            if i < rest.len() {
                assert(rest[i] == text[i]);
            }
        }
        end
    } else {
        assert(text.take(text.len() as int) =~= text);
        text.len() as int
    }
}

/// A number is found again in its decimal digits, which begin with no needless zero.
pub proof fn law_decimal_says_the_number(n: nat)
    ensures
        number(decimal(n)) == n,
        decimal(n).len() > 0,
        forall|i: int| 0 <= i < decimal(n).len() ==> '0' <= #[trigger] decimal(n)[i] <= '9',
        n > 0 ==> decimal(n)[0] != '0',
        n <= u32::MAX ==> u32_of(decimal(n)) == Some(n as u32),
    decreases n,
{
    if n < 10 {
        assert(decimal(n).drop_last() =~= Seq::empty());
        assert(number(decimal(n).drop_last()) == 0);
    } else {
        law_decimal_says_the_number(n / 10);
        assert(decimal(n).drop_last() =~= decimal(n / 10));
    }
}

/// What a number of 32 bits may be written as: digits, before which a plus sign may stand.
pub proof fn law_number_is_read(digits: Seq<char>)
    requires
        digits.len() > 0,
        forall|i: int| 0 <= i < digits.len() ==> '0' <= #[trigger] digits[i] <= '9',
    ensures
        u32_of(digits) == (if number(digits) <= u32::MAX {
            Some(number(digits) as u32)
        } else {
            None
        }),
        u32_of(seq!['+'] + digits) == u32_of(digits),
{
    assert(digits[0] != '+');
    assert((seq!['+'] + digits).skip(1) =~= digits);
}

/// Only line breaks go from the end of a line, and before them only carriage returns.
pub proof fn law_chomped_keeps_the_rest(line: Seq<char>)
    ensures
        exists|end: int, middle: int|
            {
                &&& 0 <= end <= middle <= line.len()
                &&& #[trigger] line.take(end) == chomped(line)
                &&& #[trigger] line.take(middle).len() == middle
                &&& forall|i: int| end <= i < middle ==> #[trigger] line[i] == '\r'
                &&& forall|i: int| middle <= i < line.len() ==> #[trigger] line[i] == '\n'
                &&& end > 0 ==> line[end - 1] != '\r'
                &&& middle > 0 ==> line[middle - 1] != '\n'
            },
{
    let middle = lemma_without_trailing(line, '\n');
    let end = lemma_without_trailing(line.take(middle), '\r');
    assert(line.take(middle).take(end) =~= line.take(end));
    assert forall|i: int| end <= i < middle implies #[trigger] line[i] == '\r' by {
        assert(line.take(middle)[i] == line[i]);
    }
    assert(line.take(end) == chomped(line));
    assert(line.take(middle).len() == middle);
}

proof fn lemma_without_trailing(text: Seq<char>, c: char) -> (end: int)
    ensures
        0 <= end <= text.len(),
        without_trailing(text, c) == text.take(end),
        forall|i: int| end <= i < text.len() ==> #[trigger] text[i] == c,
        end > 0 ==> text[end - 1] != c,
    decreases text.len(),
{
    if text.len() > 0 && text.last() == c {
        let rest = text.drop_last();
        let end = lemma_without_trailing(rest, c);
        assert(rest.take(end) =~= text.take(end));
        assert forall|i: int| end <= i < text.len() implies #[trigger] text[i] == c by {
            if i < rest.len() {
                assert(rest[i] == text[i]);
            }
        }
        end
    } else {
        assert(text.take(text.len() as int) =~= text);
        text.len() as int
    }
}

/// A line break ends the first line of a text, together with a carriage return before it; what
/// follows is read by itself.
pub proof fn law_lines_by_their_breaks(line: Seq<char>, rest: Seq<char>)
    requires
        forall|i: int| 0 <= i < line.len() ==> #[trigger] line[i] != '\n',
    ensures
        line.len() > 0 ==> lines(line) == seq![line],
        lines(Seq::empty()).len() == 0,
        line.len() == 0 || line.last() != '\r' ==> lines(line + seq!['\n'] + rest) == seq![line]
            + lines(rest),
        lines(line + seq!['\r', '\n'] + rest) == seq![line] + lines(rest),
{
    lemma_line_end_at(line, line.len() as int);
    let one = line + seq!['\n'] + rest;
    assert forall|i: int| 0 <= i < line.len() implies #[trigger] one[i] != '\n' by {
        assert(one[i] == line[i]);
    }
    lemma_line_end_at(one, line.len() as int);
    assert(one.take(line.len() as int) =~= line);
    assert(one.skip(line.len() as int + 1) =~= rest);
    let two = line + seq!['\r', '\n'] + rest;
    let end = line.len() + 1;
    assert forall|i: int| 0 <= i < end implies #[trigger] two[i] != '\n' by {
        if i < line.len() {
            assert(two[i] == line[i]);
        }
    }
    lemma_line_end_at(two, end as int);
    assert(two.take(end as int).drop_last() =~= line);
    assert(two.take(end as int).last() == '\r');
    assert(two.skip(end as int + 1) =~= rest);
}

} // verus!
