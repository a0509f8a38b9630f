//! Small helpers on text and bytes that the store's logic shares.

use vstd::prelude::*;
use vstd::string::{StrSliceExecFns, StringExecFns};
use vstd::utf8::*;

verus! {

/// Whether two byte strings are the same.
pub fn same_bytes(a: &[u8], b: &[u8]) -> (same: bool)
    ensures
        same == (a@ == b@),
{
    if a.len() != b.len() {
        return false;
    }
    let mut i: usize = 0;
    while i < a.len()
        invariant
            i <= a.len(),
            a.len() == b.len(),
            forall|j: int| 0 <= j < i ==> a@[j] == b@[j],
        decreases a.len() - i,
    {
        if a[i] != b[i] {
            return false;
        }
        i = i + 1;
    }
    assert(a@ =~= b@);
    true
}

/// Whether two pieces of text hold the same characters.
pub fn same_text(a: &str, b: &str) -> (same: bool)
    ensures
        same == (a@ == b@),
{
    proof {
        // texts are equal exactly when their encodings are
        encode_utf8_decode_utf8(a@);
        encode_utf8_decode_utf8(b@);
    }
    same_bytes(a.as_bytes(), b.as_bytes())
}

/// A fresh copy of `bytes`.
pub fn copy_bytes(bytes: &Vec<u8>) -> (copy: Vec<u8>)
    ensures
        copy@ == bytes@,
{
    let mut copy: Vec<u8> = Vec::new();
    let mut i: usize = 0;
    while i < bytes.len()
        invariant
            i <= bytes.len(),
            copy@ == bytes@.take(i as int),
        decreases bytes.len() - i,
    {
        copy.push(bytes[i]);
        i = i + 1;
        assert(bytes@.take(i as int) =~= bytes@.take(i - 1).push(bytes@[i - 1]));
    }
    assert(bytes@.take(bytes.len() as int) =~= bytes@);
    copy
}

/// Byte-wise lexicographic order, the order in which names are listed.
pub open spec fn bytes_lt(a: Seq<u8>, b: Seq<u8>) -> bool
    decreases a.len(),
{
    if b.len() == 0 {
        false
    } else if a.len() == 0 {
        true
    } else if a[0] != b[0] {
        a[0] < b[0]
    } else {
        bytes_lt(a.drop_first(), b.drop_first())
    }
}

/// Whether `a` comes strictly before `b` when names are listed.
pub open spec fn name_lt(a: Seq<char>, b: Seq<char>) -> bool {
    bytes_lt(encode_utf8(a), encode_utf8(b))
}

/// No text comes before itself.
pub proof fn lemma_bytes_lt_irreflexive(a: Seq<u8>)
    ensures
        !bytes_lt(a, a),
    decreases a.len(),
{
    if a.len() > 0 {
        lemma_bytes_lt_irreflexive(a.drop_first());
    }
}

/// The listing order is transitive.
pub proof fn lemma_bytes_lt_transitive(a: Seq<u8>, b: Seq<u8>, c: Seq<u8>)
    requires
        bytes_lt(a, b),
        bytes_lt(b, c),
    ensures
        bytes_lt(a, c),
    decreases a.len(),
{
    if a.len() > 0 && b.len() > 0 && c.len() > 0 {
        if a[0] == b[0] && b[0] == c[0] {
            lemma_bytes_lt_transitive(a.drop_first(), b.drop_first(), c.drop_first());
        }
    }
}

/// Of two different byte strings one comes before the other.
pub proof fn lemma_bytes_lt_total(a: Seq<u8>, b: Seq<u8>)
    requires
        !bytes_lt(a, b),
        !bytes_lt(b, a),
    ensures
        a == b,
    decreases a.len(),
{
    if a.len() == 0 || b.len() == 0 {
        assert(a =~= b);
    } else {
        lemma_bytes_lt_total(a.drop_first(), b.drop_first());
        assert(a =~= seq![a[0]] + a.drop_first());
        assert(b =~= seq![b[0]] + b.drop_first());
    }
}

/// Different names have different encodings, so of two different names one
/// is listed before the other.
pub proof fn lemma_name_lt_total(a: Seq<char>, b: Seq<char>)
    requires
        a != b,
        !name_lt(a, b),
    ensures
        name_lt(b, a),
{
    if !name_lt(b, a) {
        lemma_bytes_lt_total(encode_utf8(a), encode_utf8(b));
        encode_utf8_decode_utf8(a);
        encode_utf8_decode_utf8(b);
    }
}

/// Whether `a` comes strictly before `b` in byte order.
pub fn bytes_less(a: &[u8], b: &[u8]) -> (less: bool)
    ensures
        less == bytes_lt(a@, b@),
{
    let mut i: usize = 0;
    assert(a@.skip(0) =~= a@ && b@.skip(0) =~= b@);
    while i < a.len() && i < b.len()
        invariant
            i <= a.len(),
            i <= b.len(),
            bytes_lt(a@, b@) == bytes_lt(a@.skip(i as int), b@.skip(i as int)),
        decreases a.len() - i,
    {
        proof {
            assert(a@.skip(i as int)[0] == a@[i as int]);
            assert(b@.skip(i as int)[0] == b@[i as int]);
            assert(a@.skip(i as int).drop_first() =~= a@.skip(i + 1));
            assert(b@.skip(i as int).drop_first() =~= b@.skip(i + 1));
        }
        if a[i] != b[i] {
            return a[i] < b[i];
        }
        i = i + 1;
    }
    i < b.len()
}

/// Whether the name `a` is listed strictly before the name `b`.
pub fn name_less(a: &str, b: &str) -> (less: bool)
    ensures
        less == name_lt(a@, b@),
{
    bytes_less(a.as_bytes(), b.as_bytes())
}

/// Whether a byte is an ASCII decimal digit.
pub open spec fn is_digit(b: u8) -> bool {
    0x30 <= b <= 0x39
}

pub open spec fn all_digits(digits: Seq<u8>) -> bool {
    forall|i: int| 0 <= i < digits.len() ==> is_digit(#[trigger] digits[i])
}

/// The number that a run of decimal digits denotes.
pub open spec fn digits_value(digits: Seq<u8>) -> int
    decreases digits.len(),
{
    if digits.len() == 0 {
        0
    } else {
        digits_value(digits.drop_last()) * 10 + (digits.last() - 0x30)
    }
}

/// The text without the plus sign it may start with.
pub open spec fn unsigned_body(text: Seq<u8>) -> Seq<u8> {
    if text.len() > 0 && text[0] == 0x2B {
        text.drop_first()
    } else {
        text
    }
}

/// The unsigned number that `text` denotes: an optional plus sign followed
/// by one or more decimal digits and nothing else, with a value of at most
/// `max`. Any other text denotes none.
pub open spec fn parsed_unsigned(text: Seq<u8>, max: int) -> Option<int> {
    let body = unsigned_body(text);
    if body.len() > 0 && all_digits(body) && digits_value(body) <= max {
        Some(digits_value(body))
    } else {
        None
    }
}

/// A run of digits denotes at least what any of its prefixes denotes.
pub proof fn lemma_digits_value_grows(digits: Seq<u8>, k: int)
    requires
        all_digits(digits),
        0 <= k <= digits.len(),
    ensures
        0 <= digits_value(digits.take(k)) <= digits_value(digits),
    decreases digits.len() - k,
{
    if k == digits.len() {
        assert(digits.take(k) =~= digits);
        lemma_digits_value_nonnegative(digits);
    } else {
        lemma_digits_value_grows(digits, k + 1);
        assert(digits.take(k + 1).drop_last() =~= digits.take(k));
        assert(is_digit(digits[k]));
        assert(digits.take(k + 1).last() == digits[k]);
        lemma_digits_value_nonnegative(digits.take(k));
    }
}

proof fn lemma_digits_value_nonnegative(digits: Seq<u8>)
    requires
        all_digits(digits),
    ensures
        0 <= digits_value(digits),
    decreases digits.len(),
{
    if digits.len() > 0 {
        assert(is_digit(digits.last()));
        assert forall|i: int| 0 <= i < digits.drop_last().len() implies is_digit(
            #[trigger] digits.drop_last()[i],
        ) by {
            assert(digits.drop_last()[i] == digits[i]);
        }
        lemma_digits_value_nonnegative(digits.drop_last());
    }
}

/// Reads an unsigned decimal number of at most `max` from `text`.
pub fn parse_unsigned(text: &[u8], max: u64) -> (value: Option<u64>)
    ensures
        match value {
            Some(v) => parsed_unsigned(text@, max as int) == Some(v as int),
            None => parsed_unsigned(text@, max as int) is None,
        },
{
    let start: usize = if text.len() > 0 && text[0] == 0x2B {
        1
    } else {
        0
    };
    let ghost body = unsigned_body(text@);
    assert(body =~= text@.skip(start as int));
    if start == text.len() {
        return None;
    }
    let mut acc: u64 = 0;
    let mut i: usize = start;
    assert(body.take(0) =~= Seq::empty());
    while i < text.len()
        invariant
            start <= i <= text.len(),
            body == text@.skip(start as int),
            body == unsigned_body(text@),
            all_digits(body.take(i - start)),
            acc == digits_value(body.take(i - start)),
            acc <= max,
        decreases text.len() - i,
    {
        let b = text[i];
        let ghost k = i - start;
        proof {
            assert(body[k] == b);
            assert(body.take(k + 1).drop_last() =~= body.take(k));
            assert(body.take(k + 1).last() == b);
        }
        if b < 0x30 || b > 0x39 {
            assert(!is_digit(body[k]));
            return None;
        }
        let digit = (b - 0x30) as u64;
        if digit > max || acc > (max - digit) / 10 {
            proof {
                if digit <= max {
                    assert(acc * 10 + digit > max) by (nonlinear_arith)
                        requires
                            acc > (max - digit) / 10,
                            digit <= max,
                    {}
                }
                if all_digits(body) {
                    lemma_digits_value_grows(body, k + 1);
                }
            }
            return None;
        }
        proof {
            assert(acc * 10 + digit <= max) by (nonlinear_arith)
                requires
                    acc <= (max - digit) / 10,
                    digit <= max,
            {}
            assert forall|j: int| 0 <= j < body.take(k + 1).len() implies is_digit(
                #[trigger] body.take(k + 1)[j],
            ) by {
                if j < k {
                    assert(body.take(k)[j] == body.take(k + 1)[j]);
                }
            }
        }
        acc = acc * 10 + digit;
        i = i + 1;
    }
    assert(body.take(body.len() as int) =~= body);
    Some(acc)
}

/// Whether `text` holds the byte `b`.
pub fn has_byte(text: &[u8], b: u8) -> (yes: bool)
    ensures
        yes == text@.contains(b),
{
    let mut i: usize = 0;
    while i < text.len()
        invariant
            i <= text.len(),
            forall|j: int| 0 <= j < i ==> text@[j] != b,
        decreases text.len() - i,
    {
        if text[i] == b {
            return true;
        }
        i = i + 1;
    }
    false
}

/// Whether `part` stands in `text` at offset `at`.
pub open spec fn occurs_at(text: Seq<u8>, part: Seq<u8>, at: int) -> bool {
    0 <= at && at + part.len() <= text.len() && text.subrange(at, at + part.len()) == part
}

/// Whether `part` stands somewhere in `text`.
pub open spec fn has_part(text: Seq<u8>, part: Seq<u8>) -> bool {
    exists|at: int| occurs_at(text, part, at)
}

/// Whether `text` begins with `part`.
pub fn starts_with_bytes(text: &[u8], part: &[u8]) -> (yes: bool)
    ensures
        yes == occurs_at(text@, part@, 0),
{
    bytes_occur_at(text, part, 0)
}

/// Whether `part` stands in `text` at offset `at`.
pub fn bytes_occur_at(text: &[u8], part: &[u8], at: usize) -> (yes: bool)
    ensures
        yes == occurs_at(text@, part@, at as int),
{
    if part.len() > text.len() || at > text.len() - part.len() {
        return false;
    }
    let mut i: usize = 0;
    while i < part.len()
        invariant
            i <= part.len(),
            at + part.len() <= text.len(),
            forall|j: int| 0 <= j < i ==> text@[at + j] == part@[j],
        decreases part.len() - i,
    {
        if text[at + i] != part[i] {
            assert(text@.subrange(at as int, at + part.len())[i as int] != part@[i as int]);
            return false;
        }
        i = i + 1;
    }
    assert(text@.subrange(at as int, at + part.len()) =~= part@);
    true
}

/// Whether `part` stands somewhere in `text`.
pub fn contains_bytes(text: &[u8], part: &[u8]) -> (yes: bool)
    ensures
        yes == has_part(text@, part@),
{
    if part.len() > text.len() {
        assert forall|at: int| !occurs_at(text@, part@, at) by {}
        return false;
    }
    let last = text.len() - part.len();
    let mut at: usize = 0;
    loop
        invariant
            at <= last,
            last == text.len() - part.len(),
            forall|k: int| 0 <= k < at ==> !occurs_at(text@, part@, k),
        decreases last - at,
    {
        if bytes_occur_at(text, part, at) {
            return true;
        }
        if at == last {
            assert forall|k: int| !occurs_at(text@, part@, k) by {}
            return false;
        }
        at = at + 1;
    }
}

/// The characters of a text.
pub fn chars_of(text: &str) -> (out: Vec<char>)
    ensures
        out@ == text@,
{
    broadcast use vstd::string::group_string_axioms;

    let mut out: Vec<char> = Vec::new();
    for c in it: text.chars()
        invariant
            it.seq() == text@,
            out@ == text@.take(it.index() as int),
    {
        out.push(c);
        assert(text@.take(it.index() + 1) =~= text@.take(it.index() as int).push(c));
    }
    assert(text@.take(text@.len() as int) =~= text@);
    out
}

/// Whether a character is white space: a character with the Unicode
/// property `White_Space`.
pub open spec fn is_space(c: char) -> bool {
    let n = c as u32;
    ||| 0x09 <= n <= 0x0D
    ||| n == 0x20
    ||| n == 0x85
    ||| n == 0xA0
    ||| n == 0x1680
    ||| 0x2000 <= n <= 0x200A
    ||| n == 0x2028
    ||| n == 0x2029
    ||| n == 0x202F
    ||| n == 0x205F
    ||| n == 0x3000
}

/// Whether a character is white space.
pub fn is_space_char(c: char) -> (yes: bool)
    ensures
        yes == is_space(c),
{
    let n = c as u32;
    (0x09 <= n && n <= 0x0D) || n == 0x20 || n == 0x85 || n == 0xA0 || n == 0x1680 || (0x2000 <= n
        && n <= 0x200A) || n == 0x2028 || n == 0x2029 || n == 0x202F || n == 0x205F || n
        == 0x3000
}

/// The parts of a text between the occurrences of `sep`; a text with `n`
/// of them has `n + 1` parts, some of which may be empty.
pub open spec fn split_on(text: Seq<char>, sep: char) -> Seq<Seq<char>>
    decreases text.len(),
{
    if text.len() == 0 {
        seq![Seq::empty()]
    } else {
        let front = split_on(text.drop_last(), sep);
        if text.last() == sep {
            front.push(Seq::empty())
        } else {
            front.update(front.len() - 1, front.last().push(text.last()))
        }
    }
}

/// The texts of a list as mathematical values.
pub open spec fn texts_of(texts: Seq<String>) -> Seq<Seq<char>> {
    texts.map_values(|t: String| t@)
}

/// The parts of a text between the occurrences of `sep`.
pub fn split_text(text: &str, sep: char) -> (parts: Vec<String>)
    ensures
        texts_of(parts@) == split_on(text@, sep),
{
    let chars = chars_of(text);
    let mut parts: Vec<String> = Vec::new();
    let mut start: usize = 0;
    let mut i: usize = 0;
    proof {
        assert(text@.take(0) =~= Seq::empty());
        assert(text@.subrange(0, 0) =~= Seq::empty());
        assert(split_on(text@.take(0), sep) =~= texts_of(parts@).push(text@.subrange(0, 0)));
    }
    while i < chars.len()
        invariant
            start <= i <= chars.len(),
            chars@ == text@,
            split_on(text@.take(i as int), sep) == texts_of(parts@).push(
                text@.subrange(start as int, i as int),
            ),
        decreases chars.len() - i,
    {
        let ghost before = split_on(text@.take(i as int), sep);
        let ghost done = texts_of(parts@);
        proof {
            assert(text@.take(i + 1).drop_last() =~= text@.take(i as int));
            assert(text@.take(i + 1).last() == text@[i as int]);
        }
        if chars[i] == sep {
            let piece = text.substring_char(start, i).to_owned();
            parts.push(piece);
            start = i + 1;
            proof {
                assert(texts_of(parts@) =~= done.push(piece@));
                assert(text@.subrange(start as int, i + 1) =~= Seq::empty());
                assert(split_on(text@.take(i + 1), sep) =~= texts_of(parts@).push(
                    text@.subrange(start as int, i + 1),
                ));
            }
        } else {
            proof {
                let last = text@.subrange(start as int, i as int);
                assert(before.last() == last);
                assert(last.push(text@[i as int]) =~= text@.subrange(start as int, i + 1));
                assert(split_on(text@.take(i + 1), sep) =~= done.push(
                    text@.subrange(start as int, i + 1),
                ));
            }
        }
        i = i + 1;
    }
    proof {
        assert(text@.take(chars.len() as int) =~= text@);
    }
    let ghost done = texts_of(parts@);
    let piece = text.substring_char(start, chars.len()).to_owned();
    parts.push(piece);
    assert(texts_of(parts@) =~= done.push(piece@));
    parts
}

/// How many characters at the front of `text` are white space.
pub open spec fn leading_spaces(text: Seq<char>) -> int
    decreases text.len(),
{
    if text.len() == 0 || !is_space(text[0]) {
        0
    } else {
        1 + leading_spaces(text.drop_first())
    }
}

/// How many characters at the end of `text` are white space.
pub open spec fn trailing_spaces(text: Seq<char>) -> int
    decreases text.len(),
{
    if text.len() == 0 || !is_space(text.last()) {
        0
    } else {
        1 + trailing_spaces(text.drop_last())
    }
}

/// How many characters at the front of `text` are not white space.
pub open spec fn leading_word(text: Seq<char>) -> int
    decreases text.len(),
{
    if text.len() == 0 || is_space(text[0]) {
        0
    } else {
        1 + leading_word(text.drop_first())
    }
}

/// A text without the white space at its front and at its end.
pub open spec fn trimmed_text(text: Seq<char>) -> Seq<char> {
    let rest = text.skip(leading_spaces(text));
    rest.take(rest.len() - trailing_spaces(rest))
}

/// The first word of a text: the characters from the first that is not
/// white space up to the next that is. A text of white space alone has
/// the empty word.
pub open spec fn first_word_text(text: Seq<char>) -> Seq<char> {
    let rest = text.skip(leading_spaces(text));
    rest.take(leading_word(rest))
}

fn count_leading_spaces(chars: &Vec<char>) -> (n: usize)
    ensures
        n == leading_spaces(chars@),
        n <= chars.len(),
{
    let mut i: usize = 0;
    assert(chars@.skip(0) =~= chars@);
    while i < chars.len() && is_space_char(chars[i])
        invariant
            i <= chars.len(),
            leading_spaces(chars@) == i + leading_spaces(chars@.skip(i as int)),
        decreases chars.len() - i,
    {
        proof {
            assert(chars@.skip(i as int)[0] == chars@[i as int]);
            assert(chars@.skip(i as int).drop_first() =~= chars@.skip(i + 1));
        }
        i = i + 1;
    }
    proof {
        if i < chars.len() {
            assert(chars@.skip(i as int)[0] == chars@[i as int]);
        }
    }
    i
}

fn count_word(chars: &Vec<char>, from: usize) -> (n: usize)
    requires
        from <= chars.len(),
    ensures
        n == leading_word(chars@.skip(from as int)),
        from + n <= chars.len(),
{
    let ghost rest = chars@.skip(from as int);
    let mut i: usize = from;
    assert(rest.skip(0) =~= rest);
    while i < chars.len() && !is_space_char(chars[i])
        invariant
            from <= i <= chars.len(),
            rest == chars@.skip(from as int),
            leading_word(rest) == (i - from) + leading_word(rest.skip(i - from)),
        decreases chars.len() - i,
    {
        proof {
            assert(rest.skip(i - from)[0] == chars@[i as int]);
            assert(rest.skip(i - from).drop_first() =~= rest.skip(i - from + 1));
        }
        i = i + 1;
    }
    proof {
        if i < chars.len() {
            assert(rest.skip(i - from)[0] == chars@[i as int]);
        }
    }
    i - from
}

fn count_trailing_spaces(chars: &Vec<char>, from: usize) -> (n: usize)
    requires
        from <= chars.len(),
    ensures
        n == trailing_spaces(chars@.skip(from as int)),
        from + n <= chars.len(),
{
    let ghost rest = chars@.skip(from as int);
    let mut end: usize = chars.len();
    assert(rest.take(rest.len() as int) =~= rest);
    while end > from && is_space_char(chars[end - 1])
        invariant
            from <= end <= chars.len(),
            rest == chars@.skip(from as int),
            trailing_spaces(rest) == (chars.len() - end) + trailing_spaces(rest.take(end - from)),
        decreases end,
    {
        proof {
            assert(rest.take(end - from).last() == chars@[end - 1]);
            assert(rest.take(end - from).drop_last() =~= rest.take(end - from - 1));
        }
        end = end - 1;
    }
    proof {
        if end > from {
            assert(rest.take(end - from).last() == chars@[end - 1]);
        }
    }
    chars.len() - end
}

/// A text without the white space at its front and at its end.
pub fn trim_text(text: &str) -> (out: String)
    ensures
        out@ == trimmed_text(text@),
{
    let chars = chars_of(text);
    let lead = count_leading_spaces(&chars);
    let trail = count_trailing_spaces(&chars, lead);
    let out = text.substring_char(lead, chars.len() - trail).to_owned();
    proof {
        let rest = text@.skip(lead as int);
        assert(rest.take(rest.len() - trail) =~= text@.subrange(lead as int, chars.len() - trail));
    }
    out
}

/// The first word of a text.
pub fn first_word(text: &str) -> (word: String)
    ensures
        word@ == first_word_text(text@),
{
    let chars = chars_of(text);
    let lead = count_leading_spaces(&chars);
    let len = count_word(&chars, lead);
    let word = text.substring_char(lead, lead + len).to_owned();
    proof {
        let rest = text@.skip(lead as int);
        assert(rest.take(len as int) =~= text@.subrange(lead as int, lead + len));
    }
    word
}

/// Whether entry `i` is the first entry that holds the text `wanted`.
pub open spec fn first_holding(texts: Seq<Option<String>>, wanted: Seq<char>, i: int) -> bool {
    &&& 0 <= i < texts.len()
    &&& texts[i] matches Some(text) && text@ == wanted
    &&& forall|j: int|
        0 <= j < i ==> !((#[trigger] texts[j]) matches Some(text) && text@ == wanted)
}

/// The position of the first entry that holds the text `wanted`; entries
/// that hold no text are passed over.
pub fn position_of(texts: &Vec<Option<String>>, wanted: &str) -> (found: Option<usize>)
    ensures
        match found {
            Some(i) => first_holding(texts@, wanted@, i as int),
            None => forall|j: int|
                0 <= j < texts.len() ==> !((#[trigger] texts[j]) matches Some(text) && text@
                    == wanted@),
        },
{
    let mut i: usize = 0;
    while i < texts.len()
        invariant
            i <= texts.len(),
            forall|j: int|
                0 <= j < i ==> !((#[trigger] texts[j]) matches Some(text) && text@ == wanted@),
        decreases texts.len() - i,
    {
        let holds = match &texts[i] {
            Some(text) => same_text(text.as_str(), wanted),
            None => false,
        };
        if holds {
            return Some(i);
        }
        i = i + 1;
    }
    None
}

/// The lower-case form of a text, as the standard library computes it.
pub uninterp spec fn lowercase_of(text: Seq<char>) -> Seq<char>;

/// Calls `str::to_lowercase`. Trusted: the result depends on the text alone.
#[verifier::external_body]
pub(crate) fn lowercase(text: &str) -> (lower: String)
    ensures
        lower@ == lowercase_of(text@),
{
    text.to_lowercase()
}

/// How often the byte `b` occurs in `text`.
pub open spec fn count_of(text: Seq<u8>, b: u8) -> nat
    decreases text.len(),
{
    if text.len() == 0 {
        0
    } else if text.last() == b {
        count_of(text.drop_last(), b) + 1
    } else {
        count_of(text.drop_last(), b)
    }
}

/// Whether the byte `b` occurs more than `limit` times in `text`.
pub fn occurs_more_than(text: &[u8], b: u8, limit: usize) -> (yes: bool)
    ensures
        yes == (count_of(text@, b) > limit),
{
    let mut count: usize = 0;
    let mut i: usize = 0;
    assert(text@.take(0) =~= Seq::empty());
    while i < text.len()
        invariant
            i <= text.len(),
            count == count_of(text@.take(i as int), b),
            count <= limit,
            count <= i,
        decreases text.len() - i,
    {
        proof {
            assert(text@.take(i + 1).drop_last() =~= text@.take(i as int));
            assert(text@.take(i + 1).last() == text@[i as int]);
        }
        if text[i] == b {
            if count == limit {
                proof {
                    lemma_count_of_grows(text@, b, i + 1);
                }
                return true;
            }
            count = count + 1;
        }
        i = i + 1;
    }
    assert(text@.take(text.len() as int) =~= text@);
    false
}

/// A text holds a byte at least as often as any of its prefixes does.
pub proof fn lemma_count_of_grows(text: Seq<u8>, b: u8, k: int)
    requires
        0 <= k <= text.len(),
    ensures
        count_of(text.take(k), b) <= count_of(text, b),
    decreases text.len() - k,
{
    if k == text.len() {
        assert(text.take(k) =~= text);
    } else {
        lemma_count_of_grows(text, b, k + 1);
        assert(text.take(k + 1).drop_last() =~= text.take(k));
    }
}

/// The text of one decimal digit.
pub open spec fn digit_text(digit: int) -> Seq<char> {
    if digit == 0 {
        "0"@
    } else if digit == 1 {
        "1"@
    } else if digit == 2 {
        "2"@
    } else if digit == 3 {
        "3"@
    } else if digit == 4 {
        "4"@
    } else if digit == 5 {
        "5"@
    } else if digit == 6 {
        "6"@
    } else if digit == 7 {
        "7"@
    } else if digit == 8 {
        "8"@
    } else {
        "9"@
    }
}

/// A number in decimal, without leading zeros.
pub open spec fn decimal_text(n: nat) -> Seq<char>
    decreases n,
{
    if n < 10 {
        digit_text(n as int)
    } else {
        decimal_text(n / 10) + digit_text((n % 10) as int)
    }
}

fn digit_str(digit: u64) -> (text: &'static str)
    requires
        digit < 10,
    ensures
        text@ == digit_text(digit as int),
{
    if digit == 0 {
        "0"
    } else if digit == 1 {
        "1"
    } else if digit == 2 {
        "2"
    } else if digit == 3 {
        "3"
    } else if digit == 4 {
        "4"
    } else if digit == 5 {
        "5"
    } else if digit == 6 {
        "6"
    } else if digit == 7 {
        "7"
    } else if digit == 8 {
        "8"
    } else {
        "9"
    }
}

/// Writes a number in decimal.
pub fn decimal(n: u64) -> (text: String)
    ensures
        text@ == decimal_text(n as nat),
    decreases n,
{
    if n < 10 {
        digit_str(n).to_owned()
    } else {
        let mut text = decimal(n / 10);
        text.append(digit_str(n % 10));
        text
    }
}

} // verus!
