//! Text operations shared by the rest of the library, with their meaning on character sequences.

use vstd::prelude::*;
use vstd::string::StringExecFns;
use vstd::utf8::*;

use crate::bytes;

verus! {

/// [`String::push`] appends one character.
pub assume_specification[ String::push ](string: &mut String, ch: char)
    ensures
        final(string)@ == old(string)@.push(ch),
;

/// The text that [`String::from_utf8_lossy`] makes of arbitrary bytes.
pub uninterp spec fn lossy_utf8(bytes: Seq<u8>) -> Seq<char>;

/// [`String::from_utf8_lossy`]: valid UTF-8 is decoded as it is. What replaces an invalid part is
/// not spelled out, only that it depends on nothing but the bytes.
#[verifier::external_body]
pub(crate) fn lossy_text(bytes: &[u8]) -> (text: String)
    ensures
        text@ == lossy_utf8(bytes@),
        valid_utf8(bytes@) ==> text@ == decode_utf8(bytes@),
{
    String::from_utf8_lossy(bytes).into_owned()
}

/// [`std::str::from_utf8`]: succeeds exactly on valid UTF-8, and then decodes it.
#[verifier::external_body]
pub(crate) fn strict_text(bytes: &[u8]) -> (text: Option<String>)
    ensures
        text is Some <==> valid_utf8(bytes@),
        text matches Some(decoded) ==> decoded@ == decode_utf8(bytes@),
{
    std::str::from_utf8(bytes).ok().map(str::to_owned)
}

/// How std formats a text with `{:?}`: in double quotes, with escapes.
pub uninterp spec fn debug_text(text: Seq<char>) -> Seq<char>;

/// `format!` with `{:?}`: its result depends on the text alone and is named.
#[verifier::external_body]
pub(crate) fn quoted(value: &str) -> (result: String)
    ensures
        result@ == debug_text(value@),
{
    format!("{value:?}")
}

/// The character sequences of a sequence of strings.
pub open spec fn texts(strings: Seq<String>) -> Seq<Seq<char>> {
    strings.map_values(|string: String| string@)
}

/// The characters of an optional string.
pub open spec fn optional_text(string: Option<String>) -> Option<Seq<char>> {
    match string {
        Some(string) => Some(string@),
        None => None,
    }
}

/// The character sequences of strings with one more.
pub proof fn lemma_texts_push(strings: Seq<String>, string: String)
    ensures
        texts(strings.push(string)) == texts(strings).push(string@),
{
    assert(texts(strings.push(string)) =~= texts(strings).push(string@));
}

/// Number of UTF-8 bytes of a text.
pub open spec fn byte_len(text: Seq<char>) -> nat {
    encode_utf8(text).len()
}

/// The characters of a string.
pub fn chars_of(text: &str) -> (chars: Vec<char>)
    ensures
        chars@ == text@,
{
    let mut chars: Vec<char> = Vec::new();
    for character in iter: text.chars()
        invariant
            iter.seq() == text@,
            chars@ == text@.take(iter.index() as int),
    {
        chars.push(character);
        assert(chars@ =~= text@.take(iter.index() + 1));
    }
    assert(text@.take(text@.len() as int) =~= text@);
    chars
}

/// The string of the characters `chars[from..to]`.
pub fn text_between(chars: &[char], from: usize, to: usize) -> (text: String)
    requires
        from <= to <= chars@.len(),
    ensures
        text@ == chars@.subrange(from as int, to as int),
{
    let mut text = String::new();
    for i in from..to
        invariant
            from <= to <= chars@.len(),
            text@ == chars@.subrange(from as int, i as int),
    {
        text.push(chars[i]);
        assert(text@ =~= chars@.subrange(from as int, i + 1));
    }
    text
}

/// Whether two texts are equal.
pub fn same_text(left: &str, right: &str) -> (same: bool)
    ensures
        same == (left@ == right@),
{
    broadcast use vstd::utf8::encode_utf8_decode_utf8;

    let same = bytes::same_bytes(left.as_bytes(), right.as_bytes());
    proof {
        if encode_utf8(left@) == encode_utf8(right@) {
            assert(decode_utf8(encode_utf8(left@)) == left@);
            assert(decode_utf8(encode_utf8(right@)) == right@);
        }
    }
    same
}

/// The characters with the Unicode property `White_Space`.
pub open spec fn is_space(character: char) -> bool {
    ||| '\u{9}' <= character <= '\u{d}'
    ||| character == ' '
    ||| character == '\u{85}'
    ||| character == '\u{a0}'
    ||| character == '\u{1680}'
    ||| '\u{2000}' <= character <= '\u{200a}'
    ||| character == '\u{2028}'
    ||| character == '\u{2029}'
    ||| character == '\u{202f}'
    ||| character == '\u{205f}'
    ||| character == '\u{3000}'
}

/// Whether a character is white space.
pub fn space(character: char) -> (result: bool)
    ensures
        result == is_space(character),
{
    ('\u{9}' <= character && character <= '\u{d}') || character == ' ' || character == '\u{85}'
        || character == '\u{a0}' || character == '\u{1680}' || ('\u{2000}' <= character && character
        <= '\u{200a}') || character == '\u{2028}' || character == '\u{2029}' || character
        == '\u{202f}' || character == '\u{205f}' || character == '\u{3000}'
}

/// A text without its leading white space.
pub open spec fn trim_start(text: Seq<char>) -> Seq<char>
    decreases text.len(),
{
    if text.len() > 0 && is_space(text[0]) {
        trim_start(text.skip(1))
    } else {
        text
    }
}

/// A text without its trailing white space.
pub open spec fn trim_end(text: Seq<char>) -> Seq<char>
    decreases text.len(),
{
    if text.len() > 0 && is_space(text.last()) {
        trim_end(text.drop_last())
    } else {
        text
    }
}

/// A text without the white space at either end.
pub open spec fn trim(text: Seq<char>) -> Seq<char> {
    trim_start(trim_end(text))
}

/// Index past the last character of `chars[from..to]` that is not white space.
pub fn trimmed_end(chars: &[char], from: usize, to: usize) -> (end: usize)
    requires
        from <= to <= chars@.len(),
    ensures
        from <= end <= to,
        chars@.subrange(from as int, end as int) == trim_end(
            chars@.subrange(from as int, to as int),
        ),
{
    let mut end: usize = to;
    while end > from && space(chars[end - 1])
        invariant
            from <= end <= to <= chars@.len(),
            trim_end(chars@.subrange(from as int, end as int)) == trim_end(
                chars@.subrange(from as int, to as int),
            ),
        decreases end,
    {
        assert(chars@.subrange(from as int, end as int).drop_last() =~= chars@.subrange(
            from as int,
            end - 1,
        ));
        end = end - 1;
    }
    end
}

/// Index of the first character of `chars[from..to]` that is not white space.
pub fn trimmed_start(chars: &[char], from: usize, to: usize) -> (start: usize)
    requires
        from <= to <= chars@.len(),
    ensures
        from <= start <= to,
        chars@.subrange(start as int, to as int) == trim_start(
            chars@.subrange(from as int, to as int),
        ),
{
    let mut start: usize = from;
    while start < to && space(chars[start])
        invariant
            from <= start <= to <= chars@.len(),
            trim_start(chars@.subrange(start as int, to as int)) == trim_start(
                chars@.subrange(from as int, to as int),
            ),
        decreases to - start,
    {
        assert(chars@.subrange(start as int, to as int).skip(1) =~= chars@.subrange(
            start + 1,
            to as int,
        ));
        start = start + 1;
    }
    start
}

/// Remove the white space at either end of a text.
pub fn trimmed(text: &str) -> (result: String)
    ensures
        result@ == trim(text@),
{
    let chars = chars_of(text);
    let end = trimmed_end(&chars, 0, chars.len());
    let start = trimmed_start(&chars, 0, end);
    assert(chars@.subrange(0, chars@.len() as int) =~= text@);
    text_between(&chars, start, end)
}

/// Remove the trailing white space of a text.
pub fn right_trimmed(text: &str) -> (result: String)
    ensures
        result@ == trim_end(text@),
{
    let chars = chars_of(text);
    let end = trimmed_end(&chars, 0, chars.len());
    assert(chars@.subrange(0, chars@.len() as int) =~= text@);
    text_between(&chars, 0, end)
}

/// Remove the leading white space of a text.
pub fn left_trimmed(text: &str) -> (result: String)
    ensures
        result@ == trim_start(text@),
{
    let chars = chars_of(text);
    let start = trimmed_start(&chars, 0, chars.len());
    assert(chars@.subrange(0, chars@.len() as int) =~= text@);
    text_between(&chars, start, chars.len())
}

/// Index of the first occurrence of `item`, or the length where there is none.
pub open spec fn find<T>(items: Seq<T>, item: T) -> int
    decreases items.len(),
{
    if items.len() == 0 || items[0] == item {
        0
    } else {
        1 + find(items.skip(1), item)
    }
}

/// What is found is within the items, and nothing before it is the one sought.
pub proof fn lemma_find<T>(items: Seq<T>, item: T)
    ensures
        0 <= find(items, item) <= items.len(),
        find(items, item) < items.len() ==> items[find(items, item)] == item,
        forall|i: int| 0 <= i < find(items, item) ==> items[i] != item,
        find(items, item) == items.len() <==> !items.contains(item),
    decreases items.len(),
{
    if items.len() > 0 && items[0] != item {
        lemma_find(items.skip(1), item);
        let rest = find(items.skip(1), item);
        assert forall|i: int| 0 <= i < find(items, item) implies items[i] != item by {
            if i > 0 {
                assert(items.skip(1)[i - 1] == items[i]);
            }
        }
        if items.contains(item) {
            let i = choose|i: int| 0 <= i < items.len() && items[i] == item;
            assert(items.skip(1)[i - 1] == item);
        }
        if items.skip(1).contains(item) {
            let i = choose|i: int| 0 <= i < items.skip(1).len() && items.skip(1)[i] == item;
            assert(items[i + 1] == item);
        }
    } else if items.len() > 0 {
        assert(items[0] == item);
    }
}

/// Index of the last occurrence of `item`, or -1 where there is none.
pub open spec fn find_last<T>(items: Seq<T>, item: T) -> int
    decreases items.len(),
{
    if items.len() == 0 {
        -1
    } else if items.last() == item {
        items.len() - 1
    } else {
        find_last(items.drop_last(), item)
    }
}

/// Index of the first `wanted` in `chars[from..]`, or the length where there is none.
pub fn find_char(chars: &[char], from: usize, wanted: char) -> (index: usize)
    requires
        from <= chars@.len(),
    ensures
        from <= index <= chars@.len(),
        index == from + find(chars@.skip(from as int), wanted),
{
    let mut index: usize = from;
    while index < chars.len() && chars[index] != wanted
        invariant
            from <= index <= chars@.len(),
            find(chars@.skip(from as int), wanted) == (index - from) + find(
                chars@.skip(index as int),
                wanted,
            ),
        decreases chars@.len() - index,
    {
        assert(chars@.skip(index as int).skip(1) =~= chars@.skip(index + 1));
        index = index + 1;
    }
    index
}

/// The parts of a sequence between the occurrences of `separator`; one part where there is none.
pub open spec fn split<T>(items: Seq<T>, separator: T) -> Seq<Seq<T>>
    decreases items.len(),
{
    let end = find(items, separator);
    if 0 <= end < items.len() {
        seq![items.take(end)] + split(items.skip(end + 1), separator)
    } else {
        seq![items]
    }
}

/// One line without the carriage return before its line feed.
pub open spec fn without_return(line: Seq<char>) -> Seq<char> {
    if line.len() > 0 && line.last() == '\r' {
        line.drop_last()
    } else {
        line
    }
}

/// The lines of a text, without their line endings (`\n` or `\r\n`).
///
/// A final line ending does not start another line.
pub open spec fn lines(text: Seq<char>) -> Seq<Seq<char>>
    decreases text.len(),
{
    let end = find(text, '\n');
    if text.len() == 0 {
        seq![]
    } else if 0 <= end < text.len() {
        seq![without_return(text.take(end))] + lines(text.skip(end + 1))
    } else {
        seq![text]
    }
}

/// Split a text into its lines.
pub fn lines_of(text: &str) -> (result: Vec<String>)
    ensures
        texts(result@) == lines(text@),
{
    let chars = chars_of(text);
    let mut result: Vec<String> = Vec::new();
    let mut start: usize = 0;
    assert(text@.skip(0) =~= text@);
    assert(texts(result@) + lines(text@) =~= lines(text@));
    while start < chars.len()
        invariant
            chars@ == text@,
            start <= chars@.len(),
            texts(result@) + lines(text@.skip(start as int)) == lines(text@),
        decreases chars@.len() - start,
    {
        let ghost rest = text@.skip(start as int);
        let ghost before = texts(result@);
        proof {
            lemma_find(rest, '\n');
        }
        let found = find_char(&chars, start, '\n');
        let mut end: usize = found;
        if found < chars.len() && found > start && chars[found - 1] == '\r' {
            end = found - 1;
        }
        let line = text_between(&chars, start, end);
        let ghost shown = line@;
        proof {
            if found < chars@.len() {
                assert(rest.take(found - start) =~= text@.subrange(start as int, found as int));
                assert(without_return(rest.take(found - start)) =~= shown);
                assert(rest.skip(found - start + 1) =~= text@.skip(found + 1));
            } else {
                assert(shown =~= rest);
            }
            lemma_texts_push(result@, line);
        }
        result.push(line);
        if found < chars.len() {
            start = found + 1;
        } else {
            start = found;
            assert(text@.skip(start as int).len() == 0);
        }
        assert(texts(result@) + lines(text@.skip(start as int)) =~= before + lines(rest));
    }
    assert(text@.skip(start as int).len() == 0);
    assert(texts(result@) =~= lines(text@));
    result
}

/// Number of characters before the first white space.
pub open spec fn word_len(text: Seq<char>) -> int
    decreases text.len(),
{
    if text.len() == 0 || is_space(text[0]) {
        0
    } else {
        1 + word_len(text.skip(1))
    }
}

/// A word is within its text and holds no white space, which follows it unless the text ends.
pub proof fn lemma_word_len(text: Seq<char>)
    ensures
        0 <= word_len(text) <= text.len(),
        text.len() > 0 && !is_space(text[0]) ==> word_len(text) > 0,
        forall|i: int| 0 <= i < word_len(text) ==> !is_space(#[trigger] text[i]),
        word_len(text) < text.len() ==> is_space(text[word_len(text)]),
    decreases text.len(),
{
    if text.len() > 0 && !is_space(text[0]) {
        lemma_word_len(text.skip(1));
        assert forall|i: int| 0 <= i < word_len(text) implies !is_space(#[trigger] text[i]) by {
            if i > 0 {
                assert(text.skip(1)[i - 1] == text[i]);
            }
        }
        if word_len(text) < text.len() {
            assert(text.skip(1)[word_len(text) - 1] == text[word_len(text)]);
        }
    }
}

/// Trimming makes no text longer, and leaves no white space at the start.
pub proof fn lemma_trim_start_len(text: Seq<char>)
    ensures
        trim_start(text).len() <= text.len(),
        trim_start(text).len() > 0 ==> !is_space(trim_start(text)[0]),
    decreases text.len(),
{
    if text.len() > 0 && is_space(text[0]) {
        lemma_trim_start_len(text.skip(1));
    }
}

/// The maximal runs of characters that are not white space.
pub open spec fn words(text: Seq<char>) -> Seq<Seq<char>>
    decreases text.len(),
{
    let rest = trim_start(text);
    let len = word_len(rest);
    if rest.len() > 0 && 0 < len <= rest.len() <= text.len() {
        seq![rest.take(len)] + words(rest.skip(len))
    } else {
        seq![]
    }
}

/// Split a text at white space.
pub fn words_of(text: &str) -> (result: Vec<String>)
    ensures
        texts(result@) == words(text@),
{
    let chars = chars_of(text);
    let mut result: Vec<String> = Vec::new();
    let mut at: usize = 0;
    assert(text@.skip(0) =~= text@);
    assert(texts(result@) + words(text@) =~= words(text@));
    loop
        invariant
            chars@ == text@,
            at <= chars@.len(),
            texts(result@) + words(text@.skip(at as int)) == words(text@),
        decreases chars@.len() - at,
    {
        let ghost whole = text@.skip(at as int);
        let ghost before = texts(result@);
        assert(chars@.subrange(at as int, chars@.len() as int) =~= whole);
        let start = trimmed_start(&chars, at, chars.len());
        let ghost rest = trim_start(whole);
        assert(rest =~= text@.skip(start as int));
        proof {
            lemma_word_len(rest);
            lemma_trim_start_len(whole);
        }
        if start == chars.len() {
            assert(words(whole) =~= seq![]);
            assert(texts(result@) =~= words(text@));
            return result;
        }
        let mut end: usize = start;
        while end < chars.len() && !space(chars[end])
            invariant
                chars@ == text@,
                start <= end <= chars@.len(),
                word_len(text@.skip(start as int)) == (end - start) + word_len(
                    text@.skip(end as int),
                ),
            decreases chars@.len() - end,
        {
            assert(text@.skip(end as int).skip(1) =~= text@.skip(end + 1));
            end = end + 1;
        }
        let word = text_between(&chars, start, end);
        proof {
            assert(word@ =~= rest.take(end - start));
            assert(rest.skip(end - start) =~= text@.skip(end as int));
            lemma_texts_push(result@, word);
        }
        result.push(word);
        at = end;
        assert(texts(result@) + words(text@.skip(at as int)) =~= before + words(whole));
    }
}

/// Texts joined with a separator between neighbours.
pub open spec fn join(parts: Seq<Seq<char>>, separator: Seq<char>) -> Seq<char>
    decreases parts.len(),
{
    if parts.len() == 0 {
        seq![]
    } else if parts.len() == 1 {
        parts[0]
    } else {
        join(parts.drop_last(), separator) + separator + parts.last()
    }
}

/// Join texts with a separator between neighbours.
pub fn joined(parts: &[String], separator: &str) -> (result: String)
    ensures
        result@ == join(texts(parts@), separator@),
{
    let mut result = String::new();
    let ghost views = texts(parts@);
    for i in 0..parts.len()
        invariant
            views == texts(parts@),
            result@ == join(views.take(i as int), separator@),
    {
        proof {
            assert(views.take(i + 1).drop_last() =~= views.take(i as int));
        }
        if i > 0 {
            result.append(separator);
        }
        result.append(parts[i].as_str());
        assert(result@ =~= join(views.take(i + 1), separator@));
    }
    assert(views.take(parts@.len() as int) =~= views);
    result
}

/// Whether `text` starts with `prefix`.
pub open spec fn starts_with<T>(text: Seq<T>, prefix: Seq<T>) -> bool {
    prefix.len() <= text.len() && text.take(prefix.len() as int) == prefix
}

/// Whether `text` ends with `suffix`.
pub open spec fn ends_with<T>(text: Seq<T>, suffix: Seq<T>) -> bool {
    suffix.len() <= text.len() && text.skip(text.len() - suffix.len()) == suffix
}

/// Whether `part` occurs in `text`.
pub open spec fn occurs<T>(part: Seq<T>, text: Seq<T>) -> bool {
    exists|at: int| #[trigger] occurs_at(part, text, at)
}

/// Whether `part` stands in `text` from index `at` on.
pub open spec fn occurs_at<T>(part: Seq<T>, text: Seq<T>, at: int) -> bool {
    0 <= at && at + part.len() <= text.len() && text.subrange(at, at + part.len() as int) == part
}

/// Whether the characters from `at` on start with `part`.
pub fn chars_at(chars: &[char], at: usize, part: &[char]) -> (result: bool)
    requires
        at <= chars@.len(),
    ensures
        result == starts_with(chars@.skip(at as int), part@),
{
    if part.len() > chars.len() - at {
        return false;
    }
    for i in 0..part.len()
        invariant
            at + part@.len() <= chars@.len() <= usize::MAX,
            forall|j: int| 0 <= j < i ==> chars@[at + j] == part@[j],
    {
        if chars[at + i] != part[i] {
            assert(chars@.skip(at as int).take(part@.len() as int)[i as int] != part@[i as int]);
            return false;
        }
    }
    assert(chars@.skip(at as int).take(part@.len() as int) =~= part@);
    true
}

/// Whether `part` occurs in `text`.
pub fn has_text(text: &str, part: &str) -> (result: bool)
    ensures
        result == occurs(part@, text@),
{
    let chars = chars_of(text);
    let wanted = chars_of(part);
    if wanted.len() > chars.len() {
        assert forall|at: int| !#[trigger] occurs_at(part@, text@, at) by {}
        return false;
    }
    let last = chars.len() - wanted.len();
    let mut at: usize = 0;
    loop
        invariant
            chars@ == text@,
            wanted@ == part@,
            at <= last == chars@.len() - wanted@.len(),
            forall|i: int| 0 <= i < at ==> !#[trigger] occurs_at(part@, text@, i),
        decreases last - at,
    {
        assert(text@.skip(at as int).take(part@.len() as int) =~= text@.subrange(
            at as int,
            at + part@.len(),
        ));
        if chars_at(&chars, at, &wanted) {
            assert(occurs_at(part@, text@, at as int));
            return true;
        }
        assert(!occurs_at(part@, text@, at as int));
        if at == last {
            return false;
        }
        at = at + 1;
    }
}

/// The text after `prefix`, where the text starts with it.
pub fn after_prefix(text: &str, prefix: &str) -> (result: Option<String>)
    ensures
        match result {
            Some(rest) => starts_with(text@, prefix@) && rest@ == text@.skip(prefix@.len() as int),
            None => !starts_with(text@, prefix@),
        },
{
    let chars = chars_of(text);
    let part = chars_of(prefix);
    assert(chars@.skip(0) =~= text@);
    if chars_at(&chars, 0, &part) {
        let rest = text_between(&chars, part.len(), chars.len());
        assert(rest@ =~= text@.skip(prefix@.len() as int));
        Some(rest)
    } else {
        None
    }
}

/// The text before `suffix`, where the text ends with it.
pub fn before_suffix(text: &str, suffix: &str) -> (result: Option<String>)
    ensures
        match result {
            Some(rest) => ends_with(text@, suffix@) && rest@ == text@.take(
                text@.len() - suffix@.len(),
            ),
            None => !ends_with(text@, suffix@),
        },
{
    let chars = chars_of(text);
    let part = chars_of(suffix);
    if part.len() > chars.len() {
        return None;
    }
    let at = chars.len() - part.len();
    if chars_at(&chars, at, &part) {
        assert(chars@.skip(at as int) =~= chars@.skip(at as int).take(part@.len() as int));
        let rest = text_between(&chars, 0, at);
        assert(rest@ =~= text@.take(at as int));
        Some(rest)
    } else {
        assert(chars@.skip(at as int) =~= chars@.skip(at as int).take(part@.len() as int));
        None
    }
}

/// A text repeated `count` times.
pub open spec fn repeated(unit: Seq<char>, count: nat) -> Seq<char>
    decreases count,
{
    if count == 0 {
        seq![]
    } else {
        repeated(unit, (count - 1) as nat) + unit
    }
}

/// Append `unit` to `output` `count` times.
pub fn append_repeated(output: &mut String, unit: &str, count: usize)
    ensures
        final(output)@ == old(output)@ + repeated(unit@, count as nat),
{
    let ghost start = output@;
    for i in 0..count
        invariant
            output@ == start + repeated(unit@, i as nat),
    {
        output.append(unit);
        assert(output@ =~= start + repeated(unit@, (i + 1) as nat));
    }
    assert(start + repeated(unit@, 0) =~= start);
}

/// The digit character of a number below ten.
pub open spec fn digit(value: int) -> char {
    (('0' as int) + value) as char
}

/// A number in decimal notation, without leading zeros.
pub open spec fn decimal(value: nat) -> Seq<char>
    decreases value,
{
    if value < 10 {
        seq![digit(value as int)]
    } else {
        decimal(value / 10).push(digit((value % 10) as int))
    }
}

/// Append a number in decimal notation.
pub fn append_decimal(output: &mut String, value: u64)
    ensures
        final(output)@ == old(output)@ + decimal(value as nat),
    decreases value,
{
    let ghost start = output@;
    if value >= 10 {
        append_decimal(output, value / 10);
    }
    let character = (('0' as u8) + (value % 10) as u8) as char;
    output.push(character);
    assert(character == digit((value % 10) as int));
    assert(output@ =~= start + decimal(value as nat));
}

/// Whether two sequences of texts are equal.
pub fn same_texts(left: &[String], right: &[String]) -> (result: bool)
    ensures
        result == (texts(left@) == texts(right@)),
{
    if left.len() != right.len() {
        assert(texts(left@).len() != texts(right@).len());
        return false;
    }
    for i in 0..left.len()
        invariant
            left@.len() == right@.len(),
            forall|j: int| 0 <= j < i ==> #[trigger] texts(left@)[j] == texts(right@)[j],
    {
        if !same_text(&left[i], &right[i]) {
            assert(texts(left@)[i as int] != texts(right@)[i as int]);
            return false;
        }
    }
    assert(texts(left@) =~= texts(right@));
    true
}

/// A trimmed text is part of the text.
pub proof fn lemma_trim_is_within(text: Seq<char>)
    ensures
        exists|from: int, to: int|
            0 <= from <= to <= text.len() && trim(text) == #[trigger] text.subrange(from, to),
{
    let to = lemma_trim_end_is_a_prefix(text);
    let ended = text.take(to);
    let from = lemma_trim_start_is_a_suffix(ended);
    assert(trim(text) =~= text.subrange(from, to));
}

proof fn lemma_trim_end_is_a_prefix(text: Seq<char>) -> (to: int)
    ensures
        0 <= to <= text.len(),
        trim_end(text) == text.take(to),
    decreases text.len(),
{
    if text.len() > 0 && is_space(text.last()) {
        let to = lemma_trim_end_is_a_prefix(text.drop_last());
        assert(text.drop_last().take(to) =~= text.take(to));
        to
    } else {
        assert(text.take(text.len() as int) =~= text);
        text.len() as int
    }
}

proof fn lemma_trim_start_is_a_suffix(text: Seq<char>) -> (from: int)
    ensures
        0 <= from <= text.len(),
        trim_start(text) == text.skip(from),
    decreases text.len(),
{
    if text.len() > 0 && is_space(text[0]) {
        let from = lemma_trim_start_is_a_suffix(text.skip(1));
        assert(text.skip(1).skip(from) =~= text.skip(from + 1));
        from + 1
    } else {
        assert(text.skip(0) =~= text);
        0
    }
}

/// A text occurs in itself.
pub proof fn lemma_occurs_in_itself<T>(text: Seq<T>)
    ensures
        occurs(text, text),
{
    assert(text.subrange(0, text.len() as int) =~= text);
    assert(occurs_at(text, text, 0));
}

/// What occurs in a text occurs in every text around it.
pub proof fn lemma_occurs_within<T>(part: Seq<T>, before: Seq<T>, text: Seq<T>, after: Seq<T>)
    requires
        occurs(part, text),
    ensures
        occurs(part, before + text + after),
{
    let at = choose|at: int| #[trigger] occurs_at(part, text, at);
    let whole = before + text + after;
    assert(whole.subrange(before.len() + at, before.len() + at + part.len()) =~= text.subrange(
        at,
        at + part.len(),
    ));
    assert(occurs_at(part, whole, before.len() + at));
}

/// Every part occurs where the parts are joined.
pub proof fn lemma_joined_parts_occur(parts: Seq<Seq<char>>, separator: Seq<char>, i: int)
    requires
        0 <= i < parts.len(),
    ensures
        occurs(parts[i], join(parts, separator)),
    decreases parts.len(),
{
    lemma_occurs_in_itself(parts[i]);
    if parts.len() > 1 {
        let start = join(parts.drop_last(), separator);
        if i < parts.len() - 1 {
            assert(parts.drop_last()[i] == parts[i]);
            lemma_joined_parts_occur(parts.drop_last(), separator, i);
            lemma_occurs_within(parts[i], seq![], start, separator + parts.last());
            assert(seq![] + start + (separator + parts.last()) =~= join(parts, separator));
        } else {
            lemma_occurs_within(parts[i], start + separator, parts.last(), seq![]);
            assert(start + separator + parts.last() + seq![] =~= join(parts, separator));
        }
    }
}

/// The last three of four texts occur, joined, where all four are joined.
pub proof fn lemma_endings_occur<T>(a: Seq<T>, b: Seq<T>, c: Seq<T>, d: Seq<T>)
    ensures
        occurs(b + c + d, a + b + c + d),
{
    let part = b + c + d;
    let whole = a + b + c + d;
    assert(whole.subrange(a.len() as int, a.len() as int + part.len() as int) =~= part);
    assert(occurs_at(part, whole, a.len() as int));
}

/// Trimming takes white space from the ends, all of it and nothing else.
pub proof fn lemma_trimming_takes_only_white_space(text: Seq<char>)
    ensures
        occurs(trim(text), text),
        trim(text).len() > 0 ==> !is_space(trim(text)[0]) && !is_space(trim(text).last()),
        text.len() > 0 && !is_space(text[0]) && !is_space(text.last()) ==> trim(text) == text,
        trim(text).len() == 0 <==> forall|i: int| 0 <= i < text.len() ==> is_space(
            #[trigger] text[i],
        ),
{
    lemma_trim_is_within(text);
    let (from, to) = choose|from: int, to: int|
        0 <= from <= to <= text.len() && trim(text) == #[trigger] text.subrange(from, to);
    assert(occurs_at(trim(text), text, from));
    lemma_trimmed_end(text);
    lemma_trimmed_start(trim_end(text));
    let ended = lemma_trim_end_is_a_prefix(text);
    if forall|i: int| 0 <= i < text.len() ==> is_space(#[trigger] text[i]) {
        if trim_end(text).len() > 0 {
            assert(trim_end(text).last() == text[ended - 1]);
        }
        assert(trim_end(text).len() == 0);
    }
    if trim(text).len() == 0 {
        assert forall|i: int| 0 <= i < text.len() implies is_space(#[trigger] text[i]) by {
            if i < trim_end(text).len() {
                assert(trim_end(text)[i] == text[i]);
            }
        }
    }
}

proof fn lemma_trimmed_end(text: Seq<char>)
    ensures
        trim_end(text).len() > 0 ==> !is_space(trim_end(text).last()),
        trim_end(text).len() <= text.len(),
        forall|i: int| trim_end(text).len() <= i < text.len() ==> is_space(#[trigger] text[i]),
        text.len() > 0 && !is_space(text.last()) ==> trim_end(text) == text,
    decreases text.len(),
{
    if text.len() > 0 && is_space(text.last()) {
        let rest = text.drop_last();
        lemma_trimmed_end(rest);
        assert forall|i: int| trim_end(text).len() <= i < text.len() implies is_space(
            #[trigger] text[i],
        ) by {
            if i < rest.len() {
                assert(rest[i] == text[i]);
            }
        }
    }
}

proof fn lemma_trimmed_start(text: Seq<char>)
    ensures
        trim_start(text).len() > 0 ==> !is_space(trim_start(text)[0]) && trim_start(text).last()
            == text.last(),
        trim_start(text).len() == 0 <==> forall|i: int|
            0 <= i < text.len() ==> is_space(#[trigger] text[i]),
        text.len() > 0 && !is_space(text[0]) ==> trim_start(text) == text,
    decreases text.len(),
{
    if text.len() > 0 && is_space(text[0]) {
        let rest = text.skip(1);
        lemma_trimmed_start(rest);
        if forall|i: int| 0 <= i < text.len() ==> is_space(#[trigger] text[i]) {
            assert forall|i: int| 0 <= i < rest.len() implies is_space(#[trigger] rest[i]) by {
                assert(rest[i] == text[i + 1]);
            }
        }
        if trim_start(text).len() == 0 {
            assert forall|i: int| 0 <= i < text.len() implies is_space(#[trigger] text[i]) by {
                if i > 0 {
                    assert(rest[i - 1] == text[i]);
                }
            }
        }
    } else if text.len() > 0 {
        assert(!is_space(text[0]));
    }
}

/// The pieces that a split gives hold no separator, and joined by it they are the text.
pub proof fn lemma_split_pieces_make_up_the_text(text: Seq<char>, separator: char)
    ensures
        join(split(text, separator), seq![separator]) == text,
        forall|i: int|
            0 <= i < split(text, separator).len() ==> !(#[trigger] split(
                text,
                separator,
            )[i]).contains(separator),
        split(text, separator).len() > 0,
    decreases text.len(),
{
    lemma_find(text, separator);
    let end = find(text, separator);
    let pieces = split(text, separator);
    if end < text.len() {
        let rest = text.skip(end + 1);
        lemma_split_pieces_make_up_the_text(rest, separator);
        let others = split(rest, separator);
        assert forall|i: int| 0 <= i < pieces.len() implies !(#[trigger] pieces[i]).contains(
            separator,
        ) by {
            if i == 0 {
                assert(pieces[0] == text.take(end));
            } else {
                assert(pieces[i] == others[i - 1]);
            }
        }
        lemma_join_first(text.take(end), others, seq![separator]);
        assert(text =~= text.take(end) + seq![separator] + rest);
    } else {
        assert(pieces[0] == text);
    }
}

/// Joined parts start with the first of them.
pub proof fn lemma_join_first(first: Seq<char>, others: Seq<Seq<char>>, separator: Seq<char>)
    requires
        others.len() > 0,
    ensures
        join(seq![first] + others, separator) == first + separator + join(others, separator),
    decreases others.len(),
{
    let all = seq![first] + others;
    if others.len() == 1 {
        assert(all.drop_last() =~= seq![first]);
        assert(join(seq![first], separator) == first);
    } else {
        lemma_join_first(first, others.drop_last(), separator);
        assert(all.drop_last() =~= seq![first] + others.drop_last());
        assert(join(all, separator) =~= first + separator + join(others, separator));
    }
}

/// What occurs in a part of a text occurs in the text.
pub proof fn lemma_parts_of_parts_occur<T>(part: Seq<T>, middle: Seq<T>, text: Seq<T>)
    requires
        occurs(part, middle),
        occurs(middle, text),
    ensures
        occurs(part, text),
{
    let at = choose|at: int| #[trigger] occurs_at(middle, text, at);
    let end = at + middle.len() as int;
    lemma_occurs_within(part, text.take(at), middle, text.skip(end));
    assert(text.take(at) + middle + text.skip(end) =~= text);
}

} // verus!
