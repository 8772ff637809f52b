//! Estimates of the tokens that a model needs for a text.

use vstd::prelude::*;
use vstd::string::StringExecFns;

use crate::text;

verus! {

/// Marker appended when supporting context is clipped.
pub const CLIP_SUFFIX: &'static str = "\n...[clipped for context budget]...";

/// The tokens of a text with this many bytes: one for each 3.3 bytes, rounded up.
///
/// The ratio is intentionally lower than the observed one for typical code-heavy prompts so that
/// token counts are biased upward rather than risking context overflow.
pub open spec fn tokens_for(bytes: nat) -> nat {
    (10 * bytes + 32) / 33
}

/// The tokens of a text.
pub open spec fn tokens(text: Seq<char>) -> nat {
    tokens_for(text::byte_len(text))
}

/// The bytes that a number of tokens stands for, rounded down, unless that is more than a
/// `usize` holds.
pub open spec fn bytes_for(limit: nat) -> nat {
    let bytes = limit * 33 / 10;
    if bytes > usize::MAX {
        usize::MAX as nat
    } else {
        bytes
    }
}

/// The number of characters at the start of a text that fit into the given bytes.
pub open spec fn fitting(text: Seq<char>, bytes: nat) -> nat
    decreases text.len(),
{
    if text.len() == 0 || text::byte_len(text) <= bytes {
        text.len()
    } else {
        fitting(text.drop_last(), bytes)
    }
}

/// A text within a token limit: a longer one is cut between characters and marked as clipped.
pub open spec fn clipped(text: Seq<char>, limit: nat) -> Seq<char> {
    if tokens(text) <= limit {
        text
    } else {
        let suffix = text::byte_len(CLIP_SUFFIX@);
        let room = if bytes_for(limit) > suffix {
            (bytes_for(limit) - suffix) as nat
        } else {
            0
        };
        text.take(fitting(text, room) as int) + CLIP_SUFFIX@
    }
}

/// The UTF-8 bytes of a character.
pub open spec fn width(character: char) -> nat {
    vstd::utf8::encode_scalar(character as u32).len()
}

/// The bytes of two texts add up.
pub proof fn lemma_byte_len_concat(left: Seq<char>, right: Seq<char>)
    ensures
        text::byte_len(left + right) == text::byte_len(left) + text::byte_len(right),
    decreases left.len(),
{
    if left.len() == 0 {
        assert(left + right =~= right);
    } else {
        assert((left + right).drop_first() =~= left.drop_first() + right);
        lemma_byte_len_concat(left.drop_first(), right);
    }
}

/// A character adds its own bytes.
pub proof fn lemma_byte_len_push(text: Seq<char>, character: char)
    ensures
        text::byte_len(text.push(character)) == text::byte_len(text) + width(character),
{
    assert(text.push(character) =~= text + seq![character]);
    lemma_byte_len_concat(text, seq![character]);
    assert(seq![character].drop_first() =~= Seq::<char>::empty());
    assert(text::byte_len(seq![character]) == width(character)) by {
        assert(vstd::utf8::encode_utf8(seq![character].drop_first()) =~= seq![]);
        reveal_with_fuel(vstd::utf8::encode_utf8, 2);
    }
}

/// The UTF-8 bytes of a character.
fn char_width(character: char) -> (result: usize)
    ensures
        result == width(character),
        1 <= result <= 4,
{
    let scalar = character as u32;
    if scalar <= 0x7F {
        1
    } else if scalar <= 0x7FF {
        2
    } else if scalar <= 0xFFFF {
        3
    } else {
        4
    }
}

/// Conservatively estimate the number of tokens needed for a number of bytes.
fn estimate_bytes(bytes: usize) -> (result: usize)
    ensures
        result == tokens_for(bytes as nat),
{
    let whole = bytes / 33;
    let rest = bytes % 33;
    assert(bytes == 33 * whole + rest);
    whole * 10 + (rest * 10 + 32) / 33
}

/// Conservatively estimate the number of tokens needed for the given text.
pub fn estimate_tokens(text: &str) -> (result: usize)
    ensures
        result == tokens(text@),
{
    estimate_bytes(text.as_bytes().len())
}

/// Clip text to the given estimated token budget, appending [`CLIP_SUFFIX`] when clipped.
///
/// When clipping is required, the result always includes [`CLIP_SUFFIX`], even if the suffix
/// itself exceeds `limit`.
pub fn clip_tokens(text: &str, limit: usize) -> (result: String)
    ensures
        result@ == clipped(text@, limit as nat),
{
    if estimate_tokens(text) <= limit {
        return text.to_owned();
    }
    let product = limit as u128 * 33 / 10;
    let max_bytes = if product > usize::MAX as u128 {
        usize::MAX
    } else {
        product as usize
    };
    let room = max_bytes.saturating_sub(CLIP_SUFFIX.as_bytes().len());
    let chars = text::chars_of(text);
    let mut used: usize = 0;
    let mut end: usize = 0;
    let mut fits: bool = true;
    assert(text@.take(0) =~= Seq::<char>::empty());
    while fits && end < chars.len()
        invariant
            chars@ == text@,
            end <= chars@.len(),
            used == text::byte_len(text@.take(end as int)),
            used <= room,
            !fits ==> end < chars@.len() && text::byte_len(text@.take(end + 1)) > room,
        decreases
                chars@.len() - end + (if fits {
                    1int
                } else {
                    0int
                }),
    {
        let next = char_width(chars[end]);
        proof {
            assert(text@.take(end + 1) =~= text@.take(end as int).push(text@[end as int]));
            lemma_byte_len_push(text@.take(end as int), text@[end as int]);
        }
        if next <= room - used {
            used = used + next;
            end = end + 1;
        } else {
            fits = false;
        }
    }
    proof {
        lemma_fitting(text@, room as nat, end as int);
    }
    let mut result = text::text_between(&chars, 0, end);
    assert(result@ =~= text@.take(end as int));
    result.append(CLIP_SUFFIX);
    result
}

/// The characters that fit end where the next one does not.
proof fn lemma_fitting(text: Seq<char>, bytes: nat, end: int)
    requires
        0 <= end <= text.len(),
        text::byte_len(text.take(end)) <= bytes,
        end < text.len() ==> text::byte_len(text.take(end + 1)) > bytes,
    ensures
        fitting(text, bytes) == end,
    decreases text.len(),
{
    if end == text.len() {
        assert(text.take(end) =~= text);
    } else {
        assert(text =~= text.take(end + 1) + text.skip(end + 1));
        lemma_byte_len_concat(text.take(end + 1), text.skip(end + 1));
        assert(text.drop_last().take(end) =~= text.take(end));
        if end < text.len() - 1 {
            assert(text.drop_last().take(end + 1) =~= text.take(end + 1));
        }
        lemma_fitting(text.drop_last(), bytes, end);
    }
}

/// The characters that fit, fit.
pub proof fn lemma_fitting_fits(text: Seq<char>, bytes: nat)
    ensures
        fitting(text, bytes) <= text.len(),
        text::byte_len(text.take(fitting(text, bytes) as int)) <= bytes,
    decreases text.len(),
{
    if text.len() == 0 {
        assert(text.take(0) =~= Seq::<char>::empty());
    } else if text::byte_len(text) <= bytes {
        assert(text.take(text.len() as int) =~= text);
    } else {
        lemma_fitting_fits(text.drop_last(), bytes);
        let end = fitting(text, bytes) as int;
        assert(text.drop_last().take(end) =~= text.take(end));
    }
}

/// A clipped text is within its limit, wherever the limit has room for the marker; it always ends
/// in the marker where the text itself was not within the limit.
pub proof fn lemma_clipped_text_fits(text: Seq<char>, limit: nat)
    ensures
        tokens(text) > limit ==> text::ends_with(clipped(text, limit), CLIP_SUFFIX@),
        text::byte_len(CLIP_SUFFIX@) <= bytes_for(limit) ==> tokens(clipped(text, limit)) <= limit,
{
    if tokens(text) > limit {
        let suffix = text::byte_len(CLIP_SUFFIX@);
        let room = if bytes_for(limit) > suffix {
            (bytes_for(limit) - suffix) as nat
        } else {
            0
        };
        lemma_fitting_fits(text, room);
        let start = text.take(fitting(text, room) as int);
        let whole = start + CLIP_SUFFIX@;
        assert(whole.skip(whole.len() - CLIP_SUFFIX@.len()) =~= CLIP_SUFFIX@);
        lemma_byte_len_concat(start, CLIP_SUFFIX@);
    }
}

/// A longer text needs at least as many tokens.
pub proof fn lemma_tokens_grow(left: nat, right: nat)
    requires
        left <= right,
    ensures
        tokens_for(left) <= tokens_for(right),
{
}

/// The estimate is the smallest number of tokens that holds every byte, at 33 bytes for 10 tokens.
pub proof fn lemma_estimates_hold_every_byte(text: Seq<char>, count: nat)
    ensures
        33 * tokens(text) >= 10 * text::byte_len(text),
        33 * count >= 10 * text::byte_len(text) ==> tokens(text) <= count,
{
}

proof fn lemma_fitting_is_greatest(text: Seq<char>, bytes: nat, end: int)
    requires
        0 <= end <= text.len(),
        text::byte_len(text.take(end)) <= bytes,
    ensures
        end <= fitting(text, bytes),
    decreases text.len(),
{
    if text.len() > 0 && text::byte_len(text) > bytes {
        if end == text.len() {
            assert(text.take(end) =~= text);
        } else {
            assert(text.drop_last().take(end) =~= text.take(end));
            lemma_fitting_is_greatest(text.drop_last(), bytes, end);
        }
    }
}

/// Whether a text is the start of another, up to a character, with the marker for clipped texts.
pub open spec fn is_clipped_at(result: Seq<char>, text: Seq<char>, kept: int) -> bool {
    &&& 0 <= kept <= text.len()
    &&& result == text.take(kept) + "\n...[clipped for context budget]..."@
}

/// A text within the limit stays as it is. Any other is cut, and keeps as much as fits: no longer
/// start of it is within the limit together with the marker.
pub proof fn lemma_clipping_keeps_as_much_as_fits(text: Seq<char>, limit: nat)
    requires
        text::byte_len(text) <= usize::MAX,
    ensures
        tokens(text) <= limit ==> clipped(text, limit) == text,
        tokens(text) > limit ==> exists|kept: int|
            #[trigger] is_clipped_at(clipped(text, limit), text, kept),
        forall|longer: Seq<char>, kept: int|
            #[trigger] is_clipped_at(longer, text, kept) && tokens(longer) <= limit && tokens(text)
                > limit ==> longer.len() <= clipped(text, limit).len(),
{
    if tokens(text) > limit {
        let suffix = text::byte_len(CLIP_SUFFIX@);
        let room = if bytes_for(limit) > suffix {
            (bytes_for(limit) - suffix) as nat
        } else {
            0
        };
        lemma_fitting_fits(text, room);
        let end = fitting(text, room) as int;
        assert(is_clipped_at(clipped(text, limit), text, end));
        assert forall|longer: Seq<char>, kept: int|
            #[trigger] is_clipped_at(longer, text, kept) && tokens(longer)
                <= limit implies longer.len() <= clipped(text, limit).len() by {
            lemma_byte_len_concat(text.take(kept), CLIP_SUFFIX@);
            assert(text::byte_len(text.take(kept)) <= room);
            lemma_fitting_is_greatest(text, room, kept);
        }
    }
}

/// A clipped text needs no more tokens than its limit, or than the marker where that alone needs
/// more.
pub proof fn lemma_clipped_text_is_near_its_limit(text: Seq<char>, limit: nat)
    ensures
        tokens(clipped(text, limit)) <= limit || tokens(clipped(text, limit)) <= 11,
{
    if tokens(text) > limit {
        lemma_clipped_text_fits(text, limit);
        let suffix = text::byte_len(CLIP_SUFFIX@);
        if suffix > bytes_for(limit) {
            lemma_fitting_fits(text, 0);
            let start = text.take(fitting(text, 0) as int);
            lemma_byte_len_concat(start, CLIP_SUFFIX@);
            lemma_marker_bytes();
        }
    }
}

proof fn lemma_marker_bytes()
    ensures
        text::byte_len(CLIP_SUFFIX@) == 35,
{
    reveal_strlit("\n...[clipped for context budget]...");
    vstd::utf8::is_ascii_chars_encode_utf8(CLIP_SUFFIX@);
}

} // verus!
