//! Byte strings.

use vstd::prelude::*;

use crate::text;

verus! {

/// The line feed byte.
pub const LINE_FEED: u8 = 0x0a;

/// The byte sequences of a sequence of byte vectors.
pub open spec fn blobs(vectors: Seq<Vec<u8>>) -> Seq<Seq<u8>> {
    vectors.map_values(|vector: Vec<u8>| vector@)
}

/// The bytes of vectors with one more.
pub proof fn lemma_blobs_push(vectors: Seq<Vec<u8>>, vector: Vec<u8>)
    ensures
        blobs(vectors.push(vector)) == blobs(vectors).push(vector@),
{
    assert(blobs(vectors.push(vector)) =~= blobs(vectors).push(vector@));
}

/// Whether two byte strings are equal.
pub fn same_bytes(left: &[u8], right: &[u8]) -> (same: bool)
    ensures
        same == (left@ == right@),
{
    if left.len() != right.len() {
        return false;
    }
    for i in 0..left.len()
        invariant
            left@.len() == right@.len(),
            forall|j: int| 0 <= j < i ==> left@[j] == right@[j],
    {
        if left[i] != right[i] {
            return false;
        }
    }
    assert(left@ =~= right@);
    true
}

/// The bytes `bytes[from..to]`.
pub fn bytes_between(bytes: &[u8], from: usize, to: usize) -> (result: Vec<u8>)
    requires
        from <= to <= bytes@.len(),
    ensures
        result@ == bytes@.subrange(from as int, to as int),
{
    let mut result: Vec<u8> = Vec::new();
    for i in from..to
        invariant
            from <= to <= bytes@.len(),
            result@ == bytes@.subrange(from as int, i as int),
    {
        result.push(bytes[i]);
        assert(result@ =~= bytes@.subrange(from as int, i + 1));
    }
    result
}

/// Whether two lists of byte strings are equal.
pub fn same_blobs(left: &[Vec<u8>], right: &[Vec<u8>]) -> (result: bool)
    ensures
        result == (blobs(left@) == blobs(right@)),
{
    if left.len() != right.len() {
        assert(blobs(left@).len() != blobs(right@).len());
        return false;
    }
    for i in 0..left.len()
        invariant
            left@.len() == right@.len(),
            forall|j: int| 0 <= j < i ==> left@[j]@ == right@[j]@,
    {
        if !same_bytes(&left[i], &right[i]) {
            assert(blobs(left@)[i as int] != blobs(right@)[i as int]);
            return false;
        }
    }
    assert(blobs(left@) =~= blobs(right@));
    true
}

/// Index of the first `wanted` in `bytes[from..]`, or the length where there is none.
pub fn find_byte(bytes: &[u8], from: usize, wanted: u8) -> (index: usize)
    requires
        from <= bytes@.len(),
    ensures
        from <= index <= bytes@.len(),
        index == from + text::find(bytes@.skip(from as int), wanted),
{
    let mut index: usize = from;
    while index < bytes.len() && bytes[index] != wanted
        invariant
            from <= index <= bytes@.len(),
            text::find(bytes@.skip(from as int), wanted) == (index - from) + text::find(
                bytes@.skip(index as int),
                wanted,
            ),
        decreases bytes@.len() - index,
    {
        assert(bytes@.skip(index as int).skip(1) =~= bytes@.skip(index + 1));
        index = index + 1;
    }
    index
}

/// Split a byte string at every `separator`.
pub fn split_bytes(bytes: &[u8], separator: u8) -> (result: Vec<Vec<u8>>)
    ensures
        blobs(result@) == text::split(bytes@, separator),
        result@.len() > 0,
{
    let mut result: Vec<Vec<u8>> = Vec::new();
    let mut start: usize = 0;
    assert(bytes@.skip(0) =~= bytes@);
    assert(blobs(result@) + text::split(bytes@, separator) =~= text::split(bytes@, separator));
    loop
        invariant
            start <= bytes@.len(),
            blobs(result@) + text::split(bytes@.skip(start as int), separator) == text::split(
                bytes@,
                separator,
            ),
        decreases bytes@.len() - start,
    {
        let ghost rest = bytes@.skip(start as int);
        let ghost before = blobs(result@);
        proof {
            text::lemma_find(rest, separator);
        }
        let end = find_byte(bytes, start, separator);
        let part = bytes_between(bytes, start, end);
        proof {
            lemma_blobs_push(result@, part);
            assert(part@ =~= rest.take(end - start));
        }
        result.push(part);
        if end >= bytes.len() {
            assert(rest.take(end - start) =~= rest);
            assert(blobs(result@) =~= before + text::split(rest, separator));
            return result;
        }
        start = end + 1;
        assert(blobs(result@) + text::split(bytes@.skip(start as int), separator) =~= before
            + text::split(rest, separator)) by {
            assert(rest.skip(text::find(rest, separator) + 1) =~= bytes@.skip(start as int));
        }
    }
}

/// Append bytes.
pub fn append_bytes(output: &mut Vec<u8>, bytes: &[u8])
    ensures
        final(output)@ == old(output)@ + bytes@,
{
    let ghost start = output@;
    for i in 0..bytes.len()
        invariant
            output@ == start + bytes@.take(i as int),
    {
        assert(bytes@.take(i + 1) =~= bytes@.take(i as int).push(bytes@[i as int]));
        output.push(bytes[i]);
        assert(output@ =~= start + bytes@.take(i + 1));
    }
    assert(bytes@.take(bytes@.len() as int) =~= bytes@);
}

} // verus!
