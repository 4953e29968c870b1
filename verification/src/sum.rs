//! The Internet checksum (RFC 1071): the ones-complement of the
//! ones-complement sum of a message's 16-bit big-endian words.

use vstd::prelude::*;
use vstd::slice::slice_subrange;

verus! {

/// The most bytes that are summed in one go: two that carry the sum so far,
/// and a piece of the message.
const SHORT: usize = 62;

/// Bytes of the message that are summed in one go. The number is even, so
/// that every piece starts a word.
const PIECE: usize = 60;

/// What the byte at index `i` of a message weighs in its word: the first byte
/// of each 16-bit word is the high one.
pub open spec fn weight(i: int) -> nat {
    if i % 2 == 0 {
        256
    } else {
        1
    }
}

/// The plain sum of the 16-bit big-endian words of `bytes`. A message of odd
/// length counts as if a zero byte followed it.
pub open spec fn word_sum(bytes: Seq<u8>) -> nat
    decreases bytes.len(),
{
    if bytes.len() == 0 {
        0
    } else {
        word_sum(bytes.drop_last()) + bytes.last() as nat * weight(bytes.len() - 1)
    }
}

/// The ones-complement sum that a plain sum folds to: carries out of the low
/// 16 bits are added back in, so the value is kept modulo `0xFFFF`, and only
/// the empty sum folds to zero.
pub open spec fn fold16(total: nat) -> nat {
    if total == 0 {
        0
    } else {
        ((total - 1) % 0xFFFF + 1) as nat
    }
}

/// The Internet checksum of `bytes`, high byte first.
pub open spec fn checksum_of(bytes: Seq<u8>) -> Seq<u8> {
    let c = 0xFFFF - fold16(word_sum(bytes));
    seq![(c / 256) as u8, (c % 256) as u8]
}

/// `bytes` with its own checksum written into the two bytes at `at`.
pub open spec fn stamped(bytes: Seq<u8>, at: int) -> Seq<u8> {
    bytes.update(at, checksum_of(bytes)[0]).update(at + 1, checksum_of(bytes)[1])
}

/// `internet_checksum::checksum` returns the Internet checksum of `bytes` in
/// network byte order. The claim is made for at most `SHORT` bytes: under 64
/// bytes the crate adds one word at a time to a wide sum, and folds it at the
/// end.
#[verifier::external_body]
fn short_checksum(bytes: &[u8]) -> (sum: [u8; 2])
    requires
        bytes@.len() <= SHORT,
    ensures
        sum@ == checksum_of(bytes@),
{
    internet_checksum::checksum(bytes)
}

/// The checksum of `piece` behind the word `carried`.
fn sum_behind(carried: &[u8; 2], piece: &[u8]) -> (sum: [u8; 2])
    requires
        piece@.len() <= PIECE,
    ensures
        sum@ == checksum_of(carried@ + piece@),
{
    let mut short: Vec<u8> = Vec::with_capacity(SHORT);
    short.push(carried[0]);
    short.push(carried[1]);
    short.extend_from_slice(piece);
    assert(short@ == carried@ + piece@);
    short_checksum(short.as_slice())
}

/// Calculate the Internet checksum of `bytes`.
///
/// The message is summed piece by piece. Each piece is summed behind one
/// word that carries the sum of all before it: the complement of the
/// checksum so far.
pub fn checksum(bytes: &[u8]) -> (sum: [u8; 2])
    ensures
        sum@ == checksum_of(bytes@),
{
    let mut carried: [u8; 2] = [0, 0];
    let mut done: usize = 0;
    proof {
        lemma_word_sum_pair(carried@);
        assert(bytes@.subrange(0, 0).len() == 0);
    }
    while bytes.len() - done > PIECE
        invariant
            done <= bytes@.len(),
            done % 2 == 0,
            fold16(word_sum(carried@)) == fold16(word_sum(bytes@.subrange(0, done as int))),
        decreases bytes@.len() - done,
    {
        let piece = slice_subrange(bytes, done, done + PIECE);
        let so_far = sum_behind(&carried, piece);
        proof {
            lemma_sum_behind(carried@, bytes@.subrange(0, done as int), piece@);
            assert(bytes@.subrange(0, done as int) + piece@ == bytes@.subrange(0, done + PIECE));
            lemma_carried_word(carried@ + piece@, seq![
                (255 - so_far[0]) as u8,
                (255 - so_far[1]) as u8,
            ]);
        }
        carried = [255 - so_far[0], 255 - so_far[1]];
        assert(carried@ == seq![(255 - so_far[0]) as u8, (255 - so_far[1]) as u8]);
        done += PIECE;
    }
    let piece = slice_subrange(bytes, done, bytes.len());
    proof {
        lemma_sum_behind(carried@, bytes@.subrange(0, done as int), piece@);
        assert(bytes@.subrange(0, done as int) + piece@ == bytes@);
    }
    sum_behind(&carried, piece)
}

/// Two bytes sum to the one word they make.
proof fn lemma_word_sum_pair(word: Seq<u8>)
    requires
        word.len() == 2,
    ensures
        word_sum(word) == 256 * word[0] + word[1],
{
    let high = word.drop_last();
    assert(high.len() == 1 && high.last() == word[0]);
    assert(high.drop_last().len() == 0);
    assert(word_sum(high) == word_sum(high.drop_last()) + word[0] as nat * weight(0));
    assert(word_sum(word) == word_sum(high) + word[1] as nat * weight(1));
}

/// Where a word folds to what the message so far folds to, a piece behind
/// the word folds to what the message with the piece folds to.
proof fn lemma_sum_behind(carried: Seq<u8>, before: Seq<u8>, piece: Seq<u8>)
    requires
        carried.len() == 2,
        before.len() % 2 == 0,
        fold16(word_sum(carried)) == fold16(word_sum(before)),
    ensures
        fold16(word_sum(carried + piece)) == fold16(word_sum(before + piece)),
{
    lemma_word_sum_concat(carried, piece);
    lemma_word_sum_concat(before, piece);
    lemma_fold16_add(word_sum(carried), word_sum(before), word_sum(piece));
}

/// Behind a message of even length, the words of what follows stand where
/// they stand alone: the word sums add up.
pub proof fn lemma_word_sum_concat(front: Seq<u8>, back: Seq<u8>)
    requires
        front.len() % 2 == 0,
    ensures
        word_sum(front + back) == word_sum(front) + word_sum(back),
    decreases back.len(),
{
    if back.len() == 0 {
        assert(front + back == front);
    } else {
        assert((front + back).drop_last() == front + back.drop_last());
        lemma_word_sum_concat(front, back.drop_last());
    }
}

/// Sums that fold to the same value still do so after the same is added to
/// both.
pub proof fn lemma_fold16_add(x: nat, y: nat, more: nat)
    requires
        fold16(x) == fold16(y),
    ensures
        fold16(x + more) == fold16(y + more),
{
    if x > 0 && y > 0 {
        let (qx, qy) = ((x - 1) / 0xFFFF, (y - 1) / 0xFFFF);
        assert(x - y == 0xFFFF * (qx - qy));
        assert((x + more - 1) - (y + more - 1) == 0xFFFF * (qx - qy));
    }
}

/// The complement of a message's checksum is one word that folds to what
/// the whole message folds to.
proof fn lemma_carried_word(bytes: Seq<u8>, carried: Seq<u8>)
    requires
        carried.len() == 2,
        carried[0] == 255 - checksum_of(bytes)[0],
        carried[1] == 255 - checksum_of(bytes)[1],
    ensures
        fold16(word_sum(carried)) == fold16(word_sum(bytes)),
{
    let c = 0xFFFF - fold16(word_sum(bytes));
    assert(checksum_of(bytes)[0] == c / 256 && checksum_of(bytes)[1] == c % 256);
    lemma_word_sum_pair(carried);
    assert(word_sum(carried) == 256 * (255 - c / 256) + (255 - c % 256));
}

/// Replacing one byte of a message moves its word sum by the difference of
/// the two bytes, weighed by the byte's place in its word.
pub proof fn lemma_word_sum_update(bytes: Seq<u8>, i: int, v: u8)
    requires
        0 <= i < bytes.len(),
    ensures
        word_sum(bytes.update(i, v)) + bytes[i] as nat * weight(i) == word_sum(bytes) + v as nat
            * weight(i),
    decreases bytes.len(),
{
    let last = bytes.len() - 1;
    if i == last {
        assert(bytes.update(i, v).drop_last() == bytes.drop_last());
    } else {
        assert(bytes.update(i, v).drop_last() == bytes.drop_last().update(i, v));
        lemma_word_sum_update(bytes.drop_last(), i, v);
    }
}

/// A message that carries its own checksum verifies: with the checksum
/// written into a zeroed field at an even offset, the ones-complement sum of
/// the whole message is `0xFFFF`, and its checksum is zero.
pub proof fn lemma_stamped_verifies(bytes: Seq<u8>, at: int)
    requires
        0 <= at,
        at + 1 < bytes.len(),
        at % 2 == 0,
        bytes[at] == 0,
        bytes[at + 1] == 0,
    ensures
        fold16(word_sum(stamped(bytes, at))) == 0xFFFF,
        checksum_of(stamped(bytes, at)) == seq![0u8, 0u8],
{
    let total = word_sum(bytes);
    let c = 0xFFFF - fold16(total);
    let hi = (c / 256) as u8;
    let lo = (c % 256) as u8;
    let first = bytes.update(at, hi);
    lemma_word_sum_update(bytes, at, hi);
    lemma_word_sum_update(first, at + 1, lo);
    assert(word_sum(stamped(bytes, at)) == total + c);
    if total > 0 {
        let q = (total - 1) / 0xFFFF;
        assert(total + c - 1 == 0xFFFF * q + 0xFFFE);
    }
}

} // verus!
