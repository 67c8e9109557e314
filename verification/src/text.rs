//! Text as sequences of characters: reading, trimming, comparing and decimal notation.

use vstd::prelude::*;
use vstd::string::*;
use vstd::utf8::*;

verus! {

/// What the error of `core::str::from_utf8` says of bytes that are no UTF-8 text.
pub uninterp spec fn utf8_complaint(bytes: Seq<u8>) -> Seq<char>;

/// `core::str::from_utf8`, with its error in words: succeeds on exactly the valid UTF-8 texts, with
/// the string that these bytes encode; what the error says depends on the bytes alone.
#[verifier::external_body]
pub(crate) fn utf8_text(bytes: &[u8]) -> (text: Result<&str, String>)
    ensures
        match text {
            Ok(text) => valid_utf8(bytes@) && text.spec_bytes() == bytes@,
            Err(complaint) => !valid_utf8(bytes@) && complaint@ == utf8_complaint(bytes@),
        },
{
    core::str::from_utf8(bytes).map_err(|error| error.to_string())
}

/// `String::push`: appends one character.
pub assume_specification[ std::string::String::push ](text: &mut std::string::String, ch: char)
    ensures
        final(text)@ == old(text)@.push(ch),
;

pub open spec fn opt_text(text: Option<String>) -> Option<Seq<char>> {
    match text {
        Some(text) => Some(text@),
        None => None,
    }
}

/// The characters of a string.
pub(crate) fn chars_of(text: &str) -> (chars: Vec<char>)
    ensures
        chars@ == text@,
{
    let mut chars: Vec<char> = Vec::new();
    for ch in iter: text.chars()
        invariant
            iter.seq() == text@,
            chars@ == text@.take(iter.index() as int),
    {
        chars.push(ch);
        assert(text@.take(iter.index() + 1) =~= text@.take(iter.index() as int).push(ch));
    }
    assert(text@.take(text@.len() as int) =~= text@);
    chars
}

/// The string made of the characters from `start` on, up to `end`.
pub(crate) fn string_of(chars: &Vec<char>, start: usize, end: usize) -> (text: String)
    requires
        start <= end <= chars@.len(),
    ensures
        text@ == chars@.subrange(start as int, end as int),
{
    let mut text = String::new();
    let mut i: usize = start;
    while i < end
        invariant
            start <= i <= end <= chars@.len(),
            text@ == chars@.subrange(start as int, i as int),
        decreases end - i,
    {
        text.push(chars[i]);
        assert(chars@.subrange(start as int, i + 1) =~= chars@.subrange(start as int, i as int).push(
            chars@[i as int],
        ));
        i = i + 1;
    }
    text
}

/// Where a character first stands in a text.
pub open spec fn position(text: Seq<char>, ch: char) -> Option<int>
    decreases text.len(),
{
    if text.len() == 0 {
        None
    } else if text[0] == ch {
        Some(0)
    } else {
        match position(text.drop_first(), ch) {
            Some(at) => Some(at + 1),
            None => None,
        }
    }
}

/// Finds the first `ch` between `start` and `end`.
pub(crate) fn find_char(chars: &Vec<char>, start: usize, end: usize, ch: char) -> (at: Option<usize>)
    requires
        start <= end <= chars@.len(),
    ensures
        match at {
            Some(at) => start <= at < end && position(
                chars@.subrange(start as int, end as int),
                ch,
            ) == Some(at - start),
            None => position(chars@.subrange(start as int, end as int), ch) is None,
        },
{
    let mut i: usize = start;
    let ghost part = chars@.subrange(start as int, end as int);
    while i < end
        invariant
            start <= i <= end <= chars@.len(),
            part == chars@.subrange(start as int, end as int),
            match position(chars@.subrange(i as int, end as int), ch) {
                Some(at) => position(part, ch) == Some(at + (i - start)),
                None => position(part, ch) is None,
            },
        decreases end - i,
    {
        if chars[i] == ch {
            return Some(i);
        }
        assert(chars@.subrange(i as int, end as int).drop_first() =~= chars@.subrange(
            i + 1,
            end as int,
        ));
        i = i + 1;
    }
    None
}

/// The character stands where it is said to stand.
pub(crate) proof fn lemma_position(text: Seq<char>, ch: char)
    ensures
        position(text, ch) matches Some(at) ==> 0 <= at < text.len() && text[at] == ch,
    decreases text.len(),
{
    if text.len() > 0 {
        lemma_position(text.drop_first(), ch);
    }
}

pub(crate) proof fn lemma_position_at(text: Seq<char>, at: int)
    requires
        0 <= at < text.len(),
        forall|i: int| 0 <= i < at ==> text[i] != text[at],
    ensures
        position(text, text[at]) == Some(at),
    decreases at,
{
    if at > 0 {
        lemma_position_at(text.drop_first(), at - 1);
    }
}

/// Whether a text starts with another.
pub open spec fn starts_with(text: Seq<char>, prefix: Seq<char>) -> bool {
    prefix.len() <= text.len() && text.take(prefix.len() as int) == prefix
}

/// Whether the characters start with those of `prefix`.
pub(crate) fn has_prefix(chars: &Vec<char>, prefix: &Vec<char>) -> (has: bool)
    ensures
        has == starts_with(chars@, prefix@),
{
    if chars.len() < prefix.len() {
        return false;
    }
    let ghost front = chars@.take(prefix@.len() as int);
    let mut i: usize = 0;
    while i < prefix.len()
        invariant
            prefix@.len() <= chars@.len(),
            front == chars@.take(prefix@.len() as int),
            i <= prefix@.len(),
            forall|j: int| 0 <= j < i ==> chars@[j] == prefix@[j],
        decreases prefix@.len() - i,
    {
        if chars[i] != prefix[i] {
            assert(front[i as int] != prefix@[i as int]);
            return false;
        }
        i = i + 1;
    }
    assert(front =~= prefix@);
    true
}

/// Whether two strings hold the same characters.
pub(crate) fn same_text(a: &str, b: &str) -> (same: bool)
    ensures
        same == (a@ == b@),
{
    let left = a.as_bytes();
    let right = b.as_bytes();
    proof {
        encode_utf8_decode_utf8(a@);
        encode_utf8_decode_utf8(b@);
    }
    if left.len() != right.len() {
        return false;
    }
    let mut i: usize = 0;
    while i < left.len()
        invariant
            left@ == encode_utf8(a@),
            right@ == encode_utf8(b@),
            left@.len() == right@.len(),
            i <= left@.len(),
            forall|j: int| 0 <= j < i ==> left@[j] == right@[j],
        decreases left@.len() - i,
    {
        if left[i] != right[i] {
            return false;
        }
        i = i + 1;
    }
    assert(left@ =~= right@);
    true
}

/// Whether the byte sequence `a` comes before `b`: at the first difference it has the smaller
/// byte, or it is a strict prefix of `b`.
pub open spec fn bytes_before(a: Seq<u8>, b: Seq<u8>) -> bool
    decreases a.len(),
{
    if b.len() == 0 {
        false
    } else if a.len() == 0 {
        true
    } else if a[0] != b[0] {
        a[0] < b[0]
    } else {
        bytes_before(a.drop_first(), b.drop_first())
    }
}

/// Whether the text `a` sorts before `b`, by the bytes of their encodings.
pub open spec fn text_before(a: Seq<char>, b: Seq<char>) -> bool {
    bytes_before(encode_utf8(a), encode_utf8(b))
}

proof fn lemma_bytes_before_order(a: Seq<u8>, b: Seq<u8>, c: Seq<u8>)
    ensures
        !bytes_before(a, a),
        bytes_before(a, b) && bytes_before(b, c) ==> bytes_before(a, c),
        bytes_before(a, b) || bytes_before(b, a) || a == b,
    decreases a.len(),
{
    if a.len() > 0 && b.len() > 0 && c.len() > 0 {
        lemma_bytes_before_order(a.drop_first(), b.drop_first(), c.drop_first());
    } else if a.len() > 0 && b.len() > 0 {
        lemma_bytes_before_order(a.drop_first(), b.drop_first(), c);
    } else if a.len() > 0 {
        lemma_bytes_before_order(a.drop_first(), b, c);
    }
    if a.len() > 0 && b.len() > 0 && a[0] == b[0] && a.drop_first() == b.drop_first() {
        assert(a =~= seq![a[0]] + a.drop_first());
        assert(b =~= seq![b[0]] + b.drop_first());
    }
    if a.len() == 0 && b.len() == 0 {
        assert(a =~= b);
    }
}

/// Texts are in a strict order in which any two that differ can be told apart.
pub(crate) proof fn lemma_text_before_order(a: Seq<char>, b: Seq<char>, c: Seq<char>)
    ensures
        !text_before(a, a),
        text_before(a, b) && text_before(b, c) ==> text_before(a, c),
        text_before(a, b) || text_before(b, a) || a == b,
{
    lemma_bytes_before_order(encode_utf8(a), encode_utf8(b), encode_utf8(c));
    encode_utf8_decode_utf8(a);
    encode_utf8_decode_utf8(b);
}

pub(crate) fn is_before(a: &str, b: &str) -> (before: bool)
    ensures
        before == text_before(a@, b@),
{
    let left = a.as_bytes();
    let right = b.as_bytes();
    let mut i: usize = 0;
    assert(left@.skip(0) =~= left@);
    assert(right@.skip(0) =~= right@);
    while i < left.len() && i < right.len()
        invariant
            left@ == encode_utf8(a@),
            right@ == encode_utf8(b@),
            i <= left@.len(),
            i <= right@.len(),
            bytes_before(left@, right@) == bytes_before(left@.skip(i as int), right@.skip(i as int)),
        ensures
            i <= left@.len(),
            i <= right@.len(),
            i == left@.len() || i == right@.len(),
            bytes_before(left@, right@) == bytes_before(left@.skip(i as int), right@.skip(i as int)),
        decreases left@.len() - i,
    {
        if left[i] != right[i] {
            return left[i] < right[i];
        }
        assert(left@.skip(i as int).drop_first() =~= left@.skip(i + 1));
        assert(right@.skip(i as int).drop_first() =~= right@.skip(i + 1));
        i = i + 1;
    }
    i < right.len()
}

/// Whether a character has the Unicode property White_Space.
pub open spec fn is_whitespace(ch: char) -> bool {
    ||| '\u{9}' <= ch <= '\u{d}'
    ||| ch == ' '
    ||| ch == '\u{85}'
    ||| ch == '\u{a0}'
    ||| ch == '\u{1680}'
    ||| '\u{2000}' <= ch <= '\u{200a}'
    ||| ch == '\u{2028}'
    ||| ch == '\u{2029}'
    ||| ch == '\u{202f}'
    ||| ch == '\u{205f}'
    ||| ch == '\u{3000}'
}

fn whitespace(ch: char) -> (white: bool)
    ensures
        white == is_whitespace(ch),
{
    ('\u{9}' <= ch && ch <= '\u{d}') || ch == ' ' || ch == '\u{85}' || ch == '\u{a0}' || ch
        == '\u{1680}' || ('\u{2000}' <= ch && ch <= '\u{200a}') || ch == '\u{2028}' || ch
        == '\u{2029}' || ch == '\u{202f}' || ch == '\u{205f}' || ch == '\u{3000}'
}

/// A text without the white space that it starts with.
pub open spec fn trim_start(text: Seq<char>) -> Seq<char>
    decreases text.len(),
{
    if text.len() > 0 && is_whitespace(text[0]) {
        trim_start(text.drop_first())
    } else {
        text
    }
}

/// A text without the white space that it ends in.
pub open spec fn trim_end(text: Seq<char>) -> Seq<char>
    decreases text.len(),
{
    if text.len() > 0 && is_whitespace(text.last()) {
        trim_end(text.drop_last())
    } else {
        text
    }
}

/// A text without the white space around it.
pub open spec fn trim(text: Seq<char>) -> Seq<char> {
    trim_end(trim_start(text))
}

/// Where the part of `chars` between `start` and `end` lies once it is trimmed.
pub(crate) fn trim_bounds(chars: &Vec<char>, start: usize, end: usize) -> (bounds: (usize, usize))
    requires
        start <= end <= chars@.len(),
    ensures
        start <= bounds.0 <= bounds.1 <= end,
        chars@.subrange(bounds.0 as int, bounds.1 as int) == trim(
            chars@.subrange(start as int, end as int),
        ),
{
    let ghost part = chars@.subrange(start as int, end as int);
    let mut from: usize = start;
    while from < end && whitespace(chars[from])
        invariant
            start <= from <= end <= chars@.len(),
            part == chars@.subrange(start as int, end as int),
            trim_start(part) == trim_start(chars@.subrange(from as int, end as int)),
        decreases end - from,
    {
        assert(chars@.subrange(from as int, end as int).drop_first() =~= chars@.subrange(
            from + 1,
            end as int,
        ));
        from = from + 1;
    }
    let ghost head = chars@.subrange(from as int, end as int);
    assert(trim_start(part) == head);
    let mut to: usize = end;
    while to > from && whitespace(chars[to - 1])
        invariant
            start <= from <= to <= end <= chars@.len(),
            head == chars@.subrange(from as int, end as int),
            trim_end(head) == trim_end(chars@.subrange(from as int, to as int)),
        decreases to - from,
    {
        assert(chars@.subrange(from as int, to as int).drop_last() =~= chars@.subrange(
            from as int,
            to - 1,
        ));
        to = to - 1;
    }
    (from, to)
}

/// A character with an upper case ASCII letter made lower case.
pub open spec fn ascii_lower(ch: char) -> char {
    if 'A' <= ch <= 'Z' {
        (ch as u8 + 32) as char
    } else {
        ch
    }
}

/// Whether two texts differ in nothing but the case of ASCII letters.
pub open spec fn same_ignoring_case(a: Seq<char>, b: Seq<char>) -> bool {
    &&& a.len() == b.len()
    &&& forall|i: int| 0 <= i < a.len() ==> ascii_lower(#[trigger] a[i]) == ascii_lower(b[i])
}

fn lower(ch: char) -> (lowered: char)
    ensures
        lowered == ascii_lower(ch),
{
    if 'A' <= ch && ch <= 'Z' {
        (ch as u8 + 32) as char
    } else {
        ch
    }
}

/// Whether the part of `chars` between `start` and `end` is `word`, up to the case of letters.
pub(crate) fn is_word(chars: &Vec<char>, start: usize, end: usize, word: &str) -> (same: bool)
    requires
        start <= end <= chars@.len(),
    ensures
        same == same_ignoring_case(chars@.subrange(start as int, end as int), word@),
{
    let letters = chars_of(word);
    if end - start != letters.len() {
        return false;
    }
    let ghost part = chars@.subrange(start as int, end as int);
    let mut i: usize = 0;
    while i < letters.len()
        invariant
            start <= end <= chars@.len(),
            part == chars@.subrange(start as int, end as int),
            letters@ == word@,
            letters@.len() == end - start,
            i <= letters@.len(),
            forall|j: int| 0 <= j < i ==> ascii_lower(#[trigger] part[j]) == ascii_lower(word@[j]),
        decreases letters@.len() - i,
    {
        if lower(chars[start + i]) != lower(letters[i]) {
            assert(ascii_lower(part[i as int]) != ascii_lower(word@[i as int]));
            return false;
        }
        i = i + 1;
    }
    true
}

/// The digit that a character stands for.
pub open spec fn is_digit(ch: char) -> bool {
    '0' <= ch <= '9'
}

pub open spec fn digit_value(ch: char) -> nat {
    (ch as u8 - 48) as nat
}

/// The number that a text of decimal digits denotes.
pub open spec fn digits_value(text: Seq<char>) -> nat
    decreases text.len(),
{
    if text.len() == 0 {
        0
    } else {
        digits_value(text.drop_last()) * 10 + digit_value(text.last())
    }
}

pub open spec fn all_digits(text: Seq<char>) -> bool {
    forall|i: int| 0 <= i < text.len() ==> is_digit(#[trigger] text[i])
}

/// The `usize` that a text denotes: one or more decimal digits, with a plus sign before them or
/// not.
pub open spec fn parse_usize(text: Seq<char>) -> Option<usize> {
    let digits = if text.len() > 0 && text[0] == '+' {
        text.drop_first()
    } else {
        text
    };
    if digits.len() > 0 && all_digits(digits) && digits_value(digits) <= usize::MAX {
        Some(digits_value(digits) as usize)
    } else {
        None
    }
}

proof fn lemma_prefix_value(text: Seq<char>, count: int)
    requires
        0 <= count <= text.len(),
    ensures
        digits_value(text.take(count)) <= digits_value(text),
    decreases text.len() - count,
{
    if count == text.len() {
        assert(text.take(count) =~= text);
    } else {
        lemma_prefix_value(text, count + 1);
        assert(text.take(count + 1).drop_last() =~= text.take(count));
    }
}

/// Reads the part of `chars` between `start` and `end` as a `usize`.
pub(crate) fn read_usize(chars: &Vec<char>, start: usize, end: usize) -> (number: Option<usize>)
    requires
        start <= end <= chars@.len(),
    ensures
        number == parse_usize(chars@.subrange(start as int, end as int)),
{
    let ghost part = chars@.subrange(start as int, end as int);
    let mut from: usize = start;
    if start < end && chars[start] == '+' {
        from = start + 1;
        assert(part.drop_first() =~= chars@.subrange(from as int, end as int));
    }
    let ghost digits = chars@.subrange(from as int, end as int);
    if from == end {
        return None;
    }
    let mut value: usize = 0;
    let mut i: usize = from;
    while i < end
        invariant
            from <= i <= end <= chars@.len(),
            digits == chars@.subrange(from as int, end as int),
            forall|j: int| 0 <= j < i - from ==> is_digit(#[trigger] digits[j]),
            value == digits_value(digits.take(i - from)),
            part == chars@.subrange(start as int, end as int),
            from < end,
            digits == if part.len() > 0 && part[0] == '+' {
                part.drop_first()
            } else {
                part
            },
        decreases end - i,
    {
        let ch = chars[i];
        assert(digits[i - from] == ch);
        if !('0' <= ch && ch <= '9') {
            return None;
        }
        let digit: usize = (ch as u8 - 48) as usize;
        proof {
            assert(digits.take(i - from + 1).drop_last() =~= digits.take(i - from));
            lemma_prefix_value(digits, i - from + 1);
        }
        if value > (usize::MAX - digit) / 10 {
            return None;
        }
        value = value * 10 + digit;
        i = i + 1;
    }
    assert(digits.take(end - from) =~= digits);
    Some(value)
}

/// The decimal notation of a number.
pub open spec fn decimal(number: nat) -> Seq<char>
    decreases number,
{
    if number < 10 {
        seq![(48 + number) as char]
    } else {
        decimal(number / 10).push((48 + number % 10) as char)
    }
}

/// The names that a path goes through, where `first` tells whether the text is the start of the
/// path: what stands between separators, without what is empty, and without a dot but at the
/// start of the path.
pub open spec fn path_names(text: Seq<char>, first: bool) -> Seq<Seq<char>>
    decreases text.len(),
{
    match position(text, '/') {
        Some(at) => if 0 <= at < text.len() {
            path_name(text.take(at), first) + path_names(text.skip(at + 1), false)
        } else {
            Seq::empty()
        },
        None => path_name(text, first),
    }
}

pub open spec fn path_name(name: Seq<char>, first: bool) -> Seq<Seq<char>> {
    if name.len() == 0 || (name == "."@ && !first) {
        Seq::empty()
    } else {
        seq![name]
    }
}

/// Whether two paths are the same, name by name: separators that follow each other or end the path
/// make no difference, nor does a dot that does not start it.
pub open spec fn same_path(a: Seq<char>, b: Seq<char>) -> bool {
    &&& starts_with(a, "/"@) == starts_with(b, "/"@)
    &&& path_names(a, true) == path_names(b, true)
}

pub open spec fn texts_view(texts: Seq<String>) -> Seq<Seq<char>> {
    texts.map_values(|text: String| text@)
}

fn names_of_path(chars: &Vec<char>) -> (names: Vec<String>)
    ensures
        texts_view(names@) == path_names(chars@, true),
{
    let mut names: Vec<String> = Vec::new();
    let len = chars.len();
    let mut start: usize = 0;
    let mut first = true;
    assert(chars@.skip(0) =~= chars@);
    assert(texts_view(names@) + path_names(chars@, true) =~= path_names(chars@, true));
    loop
        invariant
            start <= len,
            len == chars@.len(),
            texts_view(names@) + path_names(chars@.skip(start as int), first) == path_names(
                chars@,
                true,
            ),
        decreases len - start,
    {
        let ghost rest = chars@.skip(start as int);
        assert(chars@.subrange(start as int, len as int) =~= rest);
        let found = find_char(chars, start, len, '/');
        let end = match found {
            Some(at) => at,
            None => len,
        };
        let name = string_of(chars, start, end);
        assert(name@ =~= rest.take(end - start));
        let keep = end > start && (first || !same_text(name.as_str(), "."));
        let ghost before = names@;
        if keep {
            names.push(name);
        }
        assert(texts_view(names@) =~= texts_view(before) + path_name(
            rest.take(end - start),
            first,
        ));
        if found.is_none() {
            assert(rest.take(end - start) =~= rest);
            return names;
        }
        assert(rest.skip(end - start + 1) =~= chars@.skip(end + 1));
        assert(texts_view(names@) + path_names(chars@.skip(end + 1), false) =~= texts_view(before)
            + (path_name(rest.take(end - start), first) + path_names(
            chars@.skip(end + 1),
            false,
        )));
        start = end + 1;
        first = false;
    }
}

/// Whether two paths are the same, name by name.
pub(crate) fn is_same_path(a: &str, b: &str) -> (same: bool)
    ensures
        same == same_path(a@, b@),
{
    let left = chars_of(a);
    let right = chars_of(b);
    let root = chars_of("/");
    if has_prefix(&left, &root) != has_prefix(&right, &root) {
        return false;
    }
    let left_names = names_of_path(&left);
    let right_names = names_of_path(&right);
    let ghost (left_view, right_view) = (texts_view(left_names@), texts_view(right_names@));
    if left_names.len() != right_names.len() {
        assert(left_view.len() != right_view.len());
        return false;
    }
    let mut i: usize = 0;
    while i < left_names.len()
        invariant
            i <= left_names@.len(),
            left_names@.len() == right_names@.len(),
            left_view == texts_view(left_names@),
            right_view == texts_view(right_names@),
            left_view == path_names(a@, true),
            right_view == path_names(b@, true),
            forall|j: int| 0 <= j < i ==> left_view[j] == right_view[j],
        decreases left_names@.len() - i,
    {
        if !same_text(left_names[i].as_str(), right_names[i].as_str()) {
            assert(left_view[i as int] != right_view[i as int]);
            return false;
        }
        i = i + 1;
    }
    assert(left_view =~= right_view);
    true
}

/// A path is the same as itself with a separator or a dot behind it.
pub proof fn law_path_ends_make_no_difference(path: Seq<char>)
    requires
        path.len() > 0,
    ensures
        same_path(path, path + "/"@),
        same_path(path, path + "/."@),
{
    reveal_strlit("/");
    reveal_strlit("/.");
    reveal_strlit(".");
    assert((path + "/"@).take(1) =~= path.take(1));
    assert((path + "/."@).take(1) =~= path.take(1));
    lemma_names_of_ends(path, true);
}

proof fn lemma_names_of_ends(path: Seq<char>, first: bool)
    requires
        path.len() > 0 || !first,
    ensures
        path_names(path + "/"@, first) == path_names(path, first),
        path_names(path + "/."@, first) == path_names(path, first),
    decreases path.len(),
{
    reveal_strlit("/");
    reveal_strlit("/.");
    reveal_strlit(".");
    let (short, long) = (path + "/"@, path + "/."@);
    lemma_position(path, '/');
    lemma_position_in_front(path, "/"@);
    lemma_position_in_front(path, "/."@);
    match position(path, '/') {
        Some(at) => {
            assert(short.take(at) =~= path.take(at) && long.take(at) =~= path.take(at));
            assert(short.skip(at + 1) =~= path.skip(at + 1) + "/"@);
            assert(long.skip(at + 1) =~= path.skip(at + 1) + "/."@);
            lemma_names_of_ends(path.skip(at + 1), false);
        },
        None => {
            let at = path.len() as int;
            assert(short.take(at) =~= path && long.take(at) =~= path);
            assert(short.skip(at + 1) =~= Seq::<char>::empty());
            assert(long.skip(at + 1) =~= "."@);
            assert(position("."@, '/') is None) by {
                lemma_position("."@, '/');
            }
            assert(path_names(Seq::<char>::empty(), false) =~= Seq::empty());
            assert(path_names("."@, false) =~= Seq::empty());
            assert(path_names(short, first) =~= path_names(path, first));
            assert(path_names(long, first) =~= path_names(path, first));
        },
    }
}

proof fn lemma_position_in_front(text: Seq<char>, behind: Seq<char>)
    requires
        behind.len() > 0,
        behind[0] == '/',
    ensures
        position(text + behind, '/') == match position(text, '/') {
            Some(at) => Some(at),
            None => Some(text.len() as int),
        },
    decreases text.len(),
{
    if text.len() == 0 {
        assert(text + behind =~= behind);
    } else {
        assert((text + behind).drop_first() =~= text.drop_first() + behind);
        lemma_position_in_front(text.drop_first(), behind);
    }
}

/// A path with a relative path behind it, and a separator between them where one is needed.
pub open spec fn joined_path(dir: Seq<char>, rest: Seq<char>) -> Seq<char> {
    if dir.len() == 0 || dir.last() == '/' {
        dir + rest
    } else {
        dir + "/"@ + rest
    }
}

/// Puts a relative path behind a path.
pub(crate) fn join_path(dir: &str, rest: &str) -> (path: String)
    ensures
        path@ == joined_path(dir@, rest@),
{
    let chars = chars_of(dir);
    let len = chars.len();
    if len == 0 || chars[len - 1] == '/' {
        dir.to_string().concat(rest)
    } else {
        dir.to_string().concat("/").concat(rest)
    }
}

/// Writes a number in decimal notation.
pub(crate) fn decimal_text(number: u64) -> (text: String)
    ensures
        text@ == decimal(number as nat),
    decreases number,
{
    let digit: char = (48 + (number % 10) as u8) as char;
    if number < 10 {
        let mut text = String::new();
        text.push(digit);
        assert(text@ =~= decimal(number as nat));
        text
    } else {
        let mut text = decimal_text(number / 10);
        text.push(digit);
        text
    }
}

/// Decimal notation is made of digits and denotes the number that it was made for.
pub(crate) proof fn lemma_decimal(number: nat)
    ensures
        decimal(number).len() > 0,
        all_digits(decimal(number)),
        digits_value(decimal(number)) == number,
    decreases number,
{
    if number >= 10 {
        lemma_decimal(number / 10);
        assert(decimal(number).drop_last() =~= decimal(number / 10));
    } else {
        assert(decimal(number).drop_last() =~= Seq::<char>::empty());
        assert(digits_value(Seq::<char>::empty()) == 0);
    }
    assert(digit_value(decimal(number).last()) == number % 10);
}

/// A character is found where it stands first, and is found if it stands anywhere.
pub proof fn law_character_is_found_where_it_stands_first(text: Seq<char>, ch: char, at: int)
    ensures
        position(text, ch) == Some(at) <==> 0 <= at < text.len() && text[at] == ch && forall|i: int|
            0 <= i < at ==> #[trigger] text[i] != ch,
        position(text, ch) is None <==> forall|i: int|
            0 <= i < text.len() ==> #[trigger] text[i] != ch,
{
    lemma_first_position(text, ch);
    if 0 <= at < text.len() && text[at] == ch && forall|i: int|
        0 <= i < at ==> #[trigger] text[i] != ch {
        lemma_position_at(text, at);
    }
}

proof fn lemma_first_position(text: Seq<char>, ch: char)
    ensures
        match position(text, ch) {
            Some(at) => 0 <= at < text.len() && text[at] == ch && forall|i: int|
                0 <= i < at ==> #[trigger] text[i] != ch,
            None => forall|i: int| 0 <= i < text.len() ==> #[trigger] text[i] != ch,
        },
    decreases text.len(),
{
    if text.len() > 0 && text[0] != ch {
        let rest = text.drop_first();
        lemma_first_position(rest, ch);
        let end = match position(rest, ch) {
            Some(at) => at + 1,
            None => text.len() as int,
        };
        assert forall|i: int| 0 <= i < end implies #[trigger] text[i] != ch by {
            if i > 0 {
                assert(rest[i - 1] == text[i]);
            }
        }
    }
}

/// A text starts with another if it is that one with something behind it.
pub proof fn law_prefix_is_in_front(text: Seq<char>, prefix: Seq<char>, rest: Seq<char>)
    ensures
        starts_with(prefix + rest, prefix),
        starts_with(text, prefix) ==> text == prefix + text.skip(prefix.len() as int),
        starts_with(text, prefix) ==> prefix.len() <= text.len(),
{
    assert((prefix + rest).take(prefix.len() as int) =~= prefix);
    if starts_with(text, prefix) {
        assert(text =~= text.take(prefix.len() as int) + text.skip(prefix.len() as int));
    }
}

/// To trim a text takes away the white space on both sides, all of it and nothing else.
pub proof fn law_trimming_takes_white_space_alone(
    before: Seq<char>,
    core: Seq<char>,
    behind: Seq<char>,
)
    requires
        forall|i: int| 0 <= i < before.len() ==> is_whitespace(#[trigger] before[i]),
        forall|i: int| 0 <= i < behind.len() ==> is_whitespace(#[trigger] behind[i]),
        core.len() > 0 ==> !is_whitespace(core[0]) && !is_whitespace(core.last()),
    ensures
        trim(before + core + behind) == core,
{
    if core.len() == 0 {
        let whole = before + core + behind;
        assert forall|i: int| 0 <= i < whole.len() implies is_whitespace(#[trigger] whole[i]) by {
            if i < before.len() {
                assert(whole[i] == before[i]);
            } else {
                assert(whole[i] == behind[i - before.len()]);
            }
        }
        lemma_trim_start(whole, core);
        assert(whole + core =~= whole);
        assert(core =~= Seq::<char>::empty());
        assert(trim_end(core) =~= core);
    } else {
        assert(before + core + behind =~= before + (core + behind));
        lemma_trim_start(before, core + behind);
        lemma_trim_end(core, behind);
    }
}

proof fn lemma_trim_start(before: Seq<char>, text: Seq<char>)
    requires
        forall|i: int| 0 <= i < before.len() ==> is_whitespace(#[trigger] before[i]),
        text.len() > 0 ==> !is_whitespace(text[0]),
    ensures
        trim_start(before + text) == text,
    decreases before.len(),
{
    if before.len() == 0 {
        assert(before + text =~= text);
    } else {
        let rest = before.drop_first();
        assert forall|i: int| 0 <= i < rest.len() implies is_whitespace(#[trigger] rest[i]) by {
            assert(rest[i] == before[i + 1]);
        }
        assert((before + text).drop_first() =~= rest + text);
        assert((before + text)[0] == before[0]);
        lemma_trim_start(rest, text);
    }
}

proof fn lemma_trim_end(text: Seq<char>, behind: Seq<char>)
    requires
        forall|i: int| 0 <= i < behind.len() ==> is_whitespace(#[trigger] behind[i]),
        text.len() > 0 ==> !is_whitespace(text.last()),
    ensures
        trim_end(text + behind) == text,
    decreases behind.len(),
{
    if behind.len() == 0 {
        assert(text + behind =~= text);
    } else {
        let rest = behind.drop_last();
        assert forall|i: int| 0 <= i < rest.len() implies is_whitespace(#[trigger] rest[i]) by {
            assert(rest[i] == behind[i]);
        }
        assert((text + behind).drop_last() =~= text + rest);
        assert((text + behind).last() == behind.last());
        lemma_trim_end(text, rest);
    }
}

/// White space is what Unicode lists as such, by code point.
pub proof fn law_white_space_by_code_point(ch: char)
    ensures
        is_whitespace(ch) <==> {
            let code = ch as int;
            ||| 0x9 <= code <= 0xd
            ||| 0x2000 <= code <= 0x200a
            ||| code == 0x20 || code == 0x85 || code == 0xa0
            ||| code == 0x1680 || code == 0x2028 || code == 0x2029
            ||| code == 0x202f || code == 0x205f || code == 0x3000
        },
{
}

/// Two characters are the same but for their case where they are equal, or where both are ASCII
/// letters and one is the other made small; texts where their characters are, each in its place.
pub proof fn law_case_of_letters_makes_no_difference(
    a: char,
    b: char,
    left: Seq<char>,
    right: Seq<char>,
)
    ensures
        ascii_lower(a) == ascii_lower(b) <==> a == b || ('A' <= a <= 'Z' && b as int == a as int
            + 32) || ('A' <= b <= 'Z' && a as int == b as int + 32),
        same_ignoring_case(left, left),
        same_ignoring_case(left, right) ==> left.len() == right.len(),
        same_ignoring_case(left.push(a), right.push(b)) <==> same_ignoring_case(left, right)
            && ascii_lower(a) == ascii_lower(b),
{
    let (longer, other) = (left.push(a), right.push(b));
    if same_ignoring_case(longer, other) {
        assert forall|i: int| 0 <= i < left.len() implies ascii_lower(#[trigger] left[i])
            == ascii_lower(right[i]) by {
            assert(longer[i] == left[i] && other[i] == right[i]);
        }
        assert(longer[left.len() as int] == a && other[right.len() as int] == b);
    }
    if same_ignoring_case(left, right) && ascii_lower(a) == ascii_lower(b) {
        assert forall|i: int| 0 <= i < longer.len() implies ascii_lower(#[trigger] longer[i])
            == ascii_lower(other[i]) by {
            if i < left.len() {
                assert(longer[i] == left[i] && other[i] == right[i]);
            }
        }
    }
}

/// Digits are read from the left: each that follows makes the number ten times as large and adds
/// what the digit stands for.
pub proof fn law_digits_are_read_from_the_left(text: Seq<char>, digit: char)
    requires
        '0' <= digit <= '9',
    ensures
        digits_value(Seq::empty()) == 0,
        digits_value(text.push(digit)) == 10 * digits_value(text) + (digit as int - '0' as int),
{
    assert(text.push(digit).drop_last() =~= text);
}

/// A text is a number if it is one or more digits, with a plus sign before them or not, and the
/// number that they make is not too large; then it is that number.
pub proof fn law_number_is_made_of_digits(digits: Seq<char>)
    ensures
        ({
            let plain = digits.len() > 0 && forall|i: int|
                0 <= i < digits.len() ==> '0' <= #[trigger] digits[i] <= '9';
            let expected = if plain && digits_value(digits) <= usize::MAX {
                Some(digits_value(digits) as usize)
            } else {
                None
            };
            &&& parse_usize(seq!['+'] + digits) == expected
            &&& (digits.len() == 0 || digits[0] != '+') ==> parse_usize(digits) == expected
        }),
{
    let signed = seq!['+'] + digits;
    assert(signed.drop_first() =~= digits);
    assert(all_digits(digits) <==> forall|i: int|
        0 <= i < digits.len() ==> '0' <= #[trigger] digits[i] <= '9');
}

/// A number is read back from its decimal notation, with a plus sign or without.
pub proof fn law_decimal_reads_back(number: usize)
    ensures
        parse_usize(decimal(number as nat)) == Some(number),
        parse_usize(seq!['+'] + decimal(number as nat)) == Some(number),
{
    let digits = decimal(number as nat);
    lemma_decimal(number as nat);
    assert(is_digit(digits[0]));
    assert((seq!['+'] + digits).drop_first() =~= digits);
}

/// Decimal notation is made of digits, without a zero in front of others; the last digit is what
/// the number is beyond tens.
pub proof fn law_decimal_notation_is_shortest(tens: nat, units: nat, at: int)
    requires
        units < 10,
        0 <= at < decimal(10 * tens + units).len(),
    ensures
        '0' <= decimal(10 * tens + units)[at] <= '9',
        digits_value(decimal(10 * tens + units)) == 10 * tens + units,
        decimal(10 * tens + units).last() as int == '0' as int + units,
        tens > 0 ==> decimal(10 * tens + units).drop_last() == decimal(tens),
        tens == 0 ==> decimal(10 * tens + units).len() == 1,
        tens > 0 ==> decimal(10 * tens + units)[0] != '0',
{
    let number = 10 * tens + units;
    lemma_decimal(number);
    assert(is_digit(decimal(number)[at]));
    assert(number / 10 == tens && number % 10 == units);
    if tens > 0 {
        assert(decimal(number).drop_last() =~= decimal(tens));
        lemma_no_leading_zero(number);
    }
}

proof fn lemma_no_leading_zero(number: nat)
    requires
        number > 0,
    ensures
        decimal(number).len() > 0,
        decimal(number)[0] != '0',
    decreases number,
{
    if number >= 10 {
        lemma_no_leading_zero(number / 10);
        assert(decimal(number)[0] == decimal(number / 10)[0]);
    }
}

/// Of two byte sequences, the one with the smaller byte at the first difference comes before the
/// other, and one comes before itself with more behind it.
pub proof fn law_bytes_are_ordered_by_the_first_difference(
    common: Seq<u8>,
    x: u8,
    y: u8,
    a: Seq<u8>,
    b: Seq<u8>,
)
    ensures
        x != y ==> (bytes_before(common + seq![x] + a, common + seq![y] + b) <==> x < y),
        bytes_before(common, common + seq![y] + b),
        !bytes_before(common + a, common),
    decreases common.len(),
{
    let (left, right) = (common + seq![x] + a, common + seq![y] + b);
    if common.len() == 0 {
        assert(left[0] == x && right[0] == y);
        assert(common + a =~= a);
    } else {
        let rest = common.drop_first();
        assert(left.drop_first() =~= rest + seq![x] + a);
        assert(right.drop_first() =~= rest + seq![y] + b);
        assert((common + a).drop_first() =~= rest + a);
        law_bytes_are_ordered_by_the_first_difference(rest, x, y, a, b);
    }
}

/// Texts are in the order of the bytes that encode them, and in a strict one.
pub proof fn law_texts_are_ordered_by_their_bytes(a: Seq<char>, b: Seq<char>, c: Seq<char>)
    ensures
        text_before(a, b) <==> bytes_before(encode_utf8(a), encode_utf8(b)),
        !text_before(a, a),
        text_before(a, b) && text_before(b, c) ==> text_before(a, c),
        text_before(a, b) || text_before(b, a) || a == b,
{
    lemma_text_before_order(a, b, c);
}

/// A path with a name behind it has exactly one separator between them, unless the path is empty or
/// ends in one itself.
pub proof fn law_joining_puts_one_separator(dir: Seq<char>, rest: Seq<char>)
    ensures
        joined_path(Seq::empty(), rest) == rest,
        joined_path(dir + "/"@, rest) == dir + "/"@ + rest,
        dir.len() > 0 && dir.last() != '/' ==> joined_path(dir, rest) == dir + "/"@ + rest,
{
    reveal_strlit("/");
    assert(Seq::<char>::empty() + rest =~= rest);
    assert((dir + "/"@).last() == '/');
}

/// The names of a path with a separator in it are those before it, followed by those behind it.
pub proof fn law_separator_divides_a_path(before: Seq<char>, behind: Seq<char>, first: bool)
    ensures
        path_names(before + "/"@ + behind, first) == path_names(before, first) + path_names(
            behind,
            false,
        ),
    decreases before.len(),
{
    reveal_strlit("/");
    let whole = before + "/"@ + behind;
    lemma_position(before, '/');
    assert(whole =~= before + ("/"@ + behind));
    lemma_position_in_front(before, "/"@ + behind);
    match position(before, '/') {
        Some(at) => {
            assert(whole.take(at) =~= before.take(at));
            assert(whole.skip(at + 1) =~= before.skip(at + 1) + "/"@ + behind);
            law_separator_divides_a_path(before.skip(at + 1), behind, false);
            assert(path_names(whole, first) =~= path_names(before, first) + path_names(
                behind,
                false,
            ));
        },
        None => {
            let at = before.len() as int;
            assert(whole.take(at) =~= before);
            assert(whole.skip(at + 1) =~= behind);
        },
    }
}

/// What has no separator in it is one name of a path; what is empty is none, nor is a dot that does
/// not start the path.
pub proof fn law_name_without_separator_is_one_name(name: Seq<char>, first: bool)
    requires
        forall|i: int| 0 <= i < name.len() ==> #[trigger] name[i] != '/',
    ensures
        name.len() > 0 && name != "."@ ==> path_names(name, first) == seq![name],
        path_names("."@, true) == seq!["."@],
        path_names("."@, false) == Seq::<Seq<char>>::empty(),
        path_names(Seq::empty(), first) == Seq::<Seq<char>>::empty(),
{
    reveal_strlit(".");
    lemma_first_position(name, '/');
    lemma_first_position("."@, '/');
    if let Some(at) = position(name, '/') {
        assert(name[at] == '/');
    }
    assert(position("."@, '/') is None) by {
        if let Some(at) = position("."@, '/') {
            assert("."@[at] == '.');
        }
    }
}

/// Two paths below the same directory are the same if and only if their last names are; a path from
/// the root is never the same as one that is not.
pub proof fn law_paths_with_different_names_differ(dir: Seq<char>, a: Seq<char>, b: Seq<char>)
    requires
        dir.len() > 0,
        a.len() > 0 && a != "."@,
        b.len() > 0 && b != "."@,
        forall|i: int| 0 <= i < a.len() ==> #[trigger] a[i] != '/',
        forall|i: int| 0 <= i < b.len() ==> #[trigger] b[i] != '/',
    ensures
        same_path(dir + "/"@ + a, dir + "/"@ + b) <==> a == b,
        same_path(dir + "/"@ + a, dir + "//"@ + a),
        same_path(dir + "/"@ + a, dir + "/./"@ + a),
        !same_path("/"@ + a, a),
{
    reveal_strlit("/");
    reveal_strlit("//");
    reveal_strlit("/./");
    reveal_strlit(".");
    law_separator_divides_a_path(dir, a, true);
    law_separator_divides_a_path(dir, b, true);
    law_name_without_separator_is_one_name(a, false);
    law_name_without_separator_is_one_name(b, false);
    let (left, right) = (dir + "/"@ + a, dir + "/"@ + b);
    assert(left.take(1) =~= dir.take(1) && right.take(1) =~= dir.take(1));
    assert(path_names(left, true).last() == a && path_names(right, true).last() == b);
    let twice = dir + "//"@ + a;
    assert(twice =~= dir + "/"@ + ("/"@ + a));
    assert("/"@ + a =~= Seq::<char>::empty() + "/"@ + a);
    law_separator_divides_a_path(dir, "/"@ + a, true);
    law_separator_divides_a_path(Seq::empty(), a, false);
    assert(twice.take(1) =~= dir.take(1));
    assert(path_names("/"@ + a, false) =~= path_names(a, false));
    let dotted = dir + "/./"@ + a;
    assert(dotted =~= dir + "/"@ + ("."@ + "/"@ + a));
    law_separator_divides_a_path(dir, "."@ + "/"@ + a, true);
    law_separator_divides_a_path("."@, a, false);
    assert(path_names("."@ + "/"@ + a, false) =~= path_names(a, false));
    assert(dotted.take(1) =~= dir.take(1));
    assert(("/"@ + a).take(1) =~= "/"@);
    assert(a.take(1)[0] == a[0]);
}

} // verus!
