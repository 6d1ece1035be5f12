//! The canonical encoding of record values: numbers as eight little-endian bytes, byte strings and
//! lists behind their length, choices behind a tag. Each form ends where it says it does, so one
//! form followed by another reads back as both.

use crate::digest::{le_bytes, little_endian, push_bytes, push_le_bytes};
use vstd::arithmetic::power::pow;
use vstd::prelude::*;
use vstd::utf8::{decode_utf8, encode_utf8, valid_utf8};

verus! {

/// A number's encoding.
pub open spec fn word(value: u64) -> Seq<u8> {
    le_bytes(value as nat, 8)
}

/// The number a byte string starts with, and what follows it.
pub open spec fn read_word(bytes: Seq<u8>) -> Option<(u64, Seq<u8>)> {
    if bytes.len() < 8 {
        None
    } else {
        Some((little_endian(bytes.take(8)) as u64, bytes.skip(8)))
    }
}

/// A byte string's encoding.
pub open spec fn blob(bytes: Seq<u8>) -> Seq<u8> {
    word(bytes.len() as u64) + bytes
}

/// The byte string a byte string starts with, and what follows it.
pub open spec fn read_blob(bytes: Seq<u8>) -> Option<(Seq<u8>, Seq<u8>)> {
    match read_word(bytes) {
        None => None,
        Some((count, rest)) => if rest.len() < count {
            None
        } else {
            Some((rest.take(count as int), rest.skip(count as int)))
        },
    }
}

/// Numbers one after the other.
pub open spec fn words(list: Seq<u64>) -> Seq<u8>
    decreases list.len(),
{
    if list.len() == 0 {
        Seq::empty()
    } else {
        word(list[0]) + words(list.skip(1))
    }
}

/// The first `count` numbers a byte string starts with, and what follows them.
pub open spec fn read_words(bytes: Seq<u8>, count: nat) -> Option<(Seq<u64>, Seq<u8>)>
    decreases count,
{
    if count == 0 {
        Some((Seq::empty(), bytes))
    } else {
        match read_word(bytes) {
            None => None,
            Some((first, rest)) => match read_words(rest, (count - 1) as nat) {
                None => None,
                Some((others, rest)) => Some((seq![first] + others, rest)),
            },
        }
    }
}

/// A list of numbers' encoding.
pub open spec fn word_list(list: Seq<u64>) -> Seq<u8> {
    word(list.len() as u64) + words(list)
}

/// The list of numbers a byte string starts with, and what follows it.
pub open spec fn read_word_list(bytes: Seq<u8>) -> Option<(Seq<u64>, Seq<u8>)> {
    match read_word(bytes) {
        None => None,
        Some((count, rest)) => read_words(rest, count as nat),
    }
}

/// The tag a byte string starts with, and what follows it.
pub open spec fn read_tag(bytes: Seq<u8>) -> Option<(u8, Seq<u8>)> {
    if bytes.len() == 0 {
        None
    } else {
        Some((bytes[0], bytes.skip(1)))
    }
}

/// Text's encoding.
pub open spec fn text(chars: Seq<char>) -> Seq<u8> {
    blob(encode_utf8(chars))
}

/// The text a byte string starts with, and what follows it.
pub open spec fn read_text(bytes: Seq<u8>) -> Option<(Seq<char>, Seq<u8>)> {
    match read_blob(bytes) {
        None => None,
        Some((encoded, rest)) => if valid_utf8(encoded) {
            Some((decode_utf8(encoded), rest))
        } else {
            None
        },
    }
}

/// A number written and read back.
proof fn lemma_number_of_le_bytes(value: nat, count: nat)
    requires
        value < pow(256, count),
    ensures
        little_endian(le_bytes(value, count)) == value,
    decreases count,
{
    reveal(pow);
    if count > 0 {
        let rest = le_bytes(value / 256, (count - 1) as nat);
        assert(pow(256, count) == 256 * pow(256, (count - 1) as nat));
        assert(value / 256 < pow(256, (count - 1) as nat)) by (nonlinear_arith)
            requires
                value < 256 * pow(256, (count - 1) as nat),
        ;
        lemma_number_of_le_bytes(value / 256, (count - 1) as nat);
        assert(le_bytes(value, count).skip(1) =~= rest);
        assert(le_bytes(value, count)[0] as nat == value % 256);
        assert(value == value % 256 + 256 * (value / 256)) by (nonlinear_arith);
    }
}

/// Bytes read and written back.
proof fn lemma_le_bytes_of_number(bytes: Seq<u8>)
    ensures
        le_bytes(little_endian(bytes), bytes.len()) == bytes,
    decreases bytes.len(),
{
    if bytes.len() > 0 {
        let rest = bytes.skip(1);
        lemma_le_bytes_of_number(rest);
        let value = little_endian(bytes);
        assert(value == bytes[0] as nat + 256 * little_endian(rest));
        assert(value % 256 == bytes[0] as nat && value / 256 == little_endian(rest))
            by (nonlinear_arith)
            requires
                value == bytes[0] as nat + 256 * little_endian(rest),
                (bytes[0] as nat) < 256,
        ;
        assert(bytes =~= seq![bytes[0]] + rest);
    } else {
        assert(le_bytes(0, 0) =~= bytes);
    }
}

/// A number has as many bytes as asked.
proof fn lemma_le_bytes_len(value: nat, count: nat)
    ensures
        le_bytes(value, count).len() == count,
    decreases count,
{
    if count > 0 {
        lemma_le_bytes_len(value / 256, (count - 1) as nat);
    }
}

/// Eight bytes make a 64-bit number.
proof fn lemma_word_range(bytes: Seq<u8>)
    requires
        bytes.len() == 8,
    ensures
        little_endian(bytes) <= u64::MAX,
{
    reveal_with_fuel(little_endian, 9);
    assert(bytes.skip(1).skip(1) =~= bytes.skip(2));
    assert(bytes.skip(2).skip(1) =~= bytes.skip(3));
    assert(bytes.skip(3).skip(1) =~= bytes.skip(4));
    assert(bytes.skip(4).skip(1) =~= bytes.skip(5));
    assert(bytes.skip(5).skip(1) =~= bytes.skip(6));
    assert(bytes.skip(6).skip(1) =~= bytes.skip(7));
    assert(bytes.skip(7).skip(1) =~= bytes.skip(8));
}

/// A number's encoding is eight bytes, and reads back with what follows it.
pub proof fn a_word_reads_back(value: u64, rest: Seq<u8>)
    ensures
        word(value).len() == 8,
        read_word(word(value) + rest) == Some((value, rest)),
{
    lemma_le_bytes_len(value as nat, 8);
    assert(pow(256, 8) == 0x1_0000_0000_0000_0000) by {
        reveal_with_fuel(pow, 9);
    }
    lemma_number_of_le_bytes(value as nat, 8);
    let bytes = word(value) + rest;
    assert(bytes.take(8) =~= word(value));
    assert(bytes.skip(8) =~= rest);
}

/// Bytes that read as a number are that number's encoding and the rest.
pub proof fn a_read_word_is_its_encoding(bytes: Seq<u8>)
    ensures
        read_word(bytes) matches Some((value, rest)) ==> bytes == word(value) + rest,
{
    if bytes.len() >= 8 {
        lemma_word_range(bytes.take(8));
        lemma_le_bytes_of_number(bytes.take(8));
        assert(bytes =~= bytes.take(8) + bytes.skip(8));
    }
}

/// A byte string's encoding reads back with what follows it.
pub proof fn a_blob_reads_back(bytes: Seq<u8>, rest: Seq<u8>)
    requires
        bytes.len() <= u64::MAX,
    ensures
        read_blob(blob(bytes) + rest) == Some((bytes, rest)),
{
    a_word_reads_back(bytes.len() as u64, bytes + rest);
    assert(blob(bytes) + rest =~= word(bytes.len() as u64) + (bytes + rest));
    assert((bytes + rest).take(bytes.len() as int) =~= bytes);
    assert((bytes + rest).skip(bytes.len() as int) =~= rest);
}

/// Bytes that read as a byte string are its encoding and the rest.
pub proof fn a_read_blob_is_its_encoding(bytes: Seq<u8>)
    ensures
        read_blob(bytes) matches Some((value, rest)) ==> bytes == blob(value) + rest && value.len()
            <= u64::MAX,
{
    a_read_word_is_its_encoding(bytes);
    if let Some((value, rest)) = read_blob(bytes) {
        let (count, tail) = read_word(bytes)->0;
        assert(tail =~= value + rest);
        assert(bytes =~= blob(value) + rest);
    }
}

/// Numbers one after the other read back with what follows them.
proof fn lemma_words_read_back(list: Seq<u64>, rest: Seq<u8>)
    ensures
        read_words(words(list) + rest, list.len()) == Some((list, rest)),
    decreases list.len(),
{
    if list.len() == 0 {
        assert(words(list) + rest =~= rest);
        assert(list =~= Seq::<u64>::empty());
    } else {
        let others = list.skip(1);
        lemma_words_read_back(others, rest);
        a_word_reads_back(list[0], words(others) + rest);
        assert(words(list) + rest =~= word(list[0]) + (words(others) + rest));
        assert(seq![list[0]] + others =~= list);
    }
}

/// Bytes that read as numbers are their encodings and the rest.
proof fn lemma_read_words_are_encoded(bytes: Seq<u8>, count: nat)
    ensures
        read_words(bytes, count) matches Some((list, rest)) ==> bytes == words(list) + rest
            && list.len() == count,
    decreases count,
{
    if count == 0 {
        assert(words(Seq::<u64>::empty()) + bytes =~= bytes);
    } else {
        a_read_word_is_its_encoding(bytes);
        if let Some((first, tail)) = read_word(bytes) {
            lemma_read_words_are_encoded(tail, (count - 1) as nat);
            if let Some((others, rest)) = read_words(tail, (count - 1) as nat) {
                let list = seq![first] + others;
                assert(list.skip(1) =~= others);
                assert(bytes =~= words(list) + rest);
            }
        }
    }
}

/// A list's encoding reads back with what follows it.
pub proof fn a_word_list_reads_back(list: Seq<u64>, rest: Seq<u8>)
    requires
        list.len() <= u64::MAX,
    ensures
        read_word_list(word_list(list) + rest) == Some((list, rest)),
{
    a_word_reads_back(list.len() as u64, words(list) + rest);
    assert(word_list(list) + rest =~= word(list.len() as u64) + (words(list) + rest));
    lemma_words_read_back(list, rest);
}

/// Bytes that read as a list are its encoding and the rest.
pub proof fn a_read_word_list_is_its_encoding(bytes: Seq<u8>)
    ensures
        read_word_list(bytes) matches Some((list, rest)) ==> bytes == word_list(list) + rest
            && list.len() <= u64::MAX,
{
    a_read_word_is_its_encoding(bytes);
    if let Some((count, tail)) = read_word(bytes) {
        lemma_read_words_are_encoded(tail, count as nat);
        if let Some((list, rest)) = read_words(tail, count as nat) {
            assert(bytes =~= word_list(list) + rest);
        }
    }
}

/// Text's encoding reads back with what follows it.
pub proof fn text_reads_back(chars: Seq<char>, rest: Seq<u8>)
    requires
        encode_utf8(chars).len() <= u64::MAX,
    ensures
        read_text(text(chars) + rest) == Some((chars, rest)),
{
    broadcast use {vstd::utf8::encode_utf8_valid_utf8, vstd::utf8::encode_utf8_decode_utf8};

    a_blob_reads_back(encode_utf8(chars), rest);
}

/// Bytes that read as text are its encoding and the rest.
pub proof fn read_text_is_its_encoding(bytes: Seq<u8>)
    ensures
        read_text(bytes) matches Some((chars, rest)) ==> bytes == text(chars) + rest
            && encode_utf8(chars).len() <= u64::MAX,
{
    broadcast use vstd::utf8::decode_utf8_encode_utf8;

    a_read_blob_is_its_encoding(bytes);
}

/// Appends a number.
pub fn push_word(out: &mut Vec<u8>, value: u64)
    ensures
        final(out)@ == old(out)@ + word(value),
{
    push_le_bytes(out, value, 8);
}

/// Appends a byte string.
pub fn push_blob(out: &mut Vec<u8>, bytes: &[u8])
    ensures
        final(out)@ == old(out)@ + blob(bytes@),
{
    assert(bytes@.len() == bytes.len());
    push_word(out, bytes.len() as u64);
    push_bytes(out, bytes);
    assert(out@ =~= old(out)@ + blob(bytes@));
}

/// Appends a list of numbers.
pub fn push_word_list(out: &mut Vec<u8>, list: &Vec<u64>)
    ensures
        final(out)@ == old(out)@ + word_list(list@),
{
    push_word(out, list.len() as u64);
    let mut i: usize = 0;
    assert(list@.skip(0) =~= list@);
    assert(out@ + words(list@.skip(0)) =~= old(out)@ + word_list(list@));
    while i < list.len()
        invariant
            i <= list@.len(),
            out@ + words(list@.skip(i as int)) == old(out)@ + word_list(list@),
        decreases list@.len() - i,
    {
        let ghost before = out@;
        proof {
            assert(list@.skip(i as int).skip(1) =~= list@.skip(i + 1));
        }
        push_word(out, list[i]);
        proof {
            assert(out@ + words(list@.skip(i + 1)) =~= before + words(list@.skip(i as int)));
        }
        i += 1;
    }
    assert(list@.skip(i as int) =~= Seq::<u64>::empty());
    assert(out@ + Seq::<u8>::empty() =~= out@);
}

/// Appends text.
pub fn push_text(out: &mut Vec<u8>, value: &str)
    ensures
        final(out)@ == old(out)@ + text(value@),
{
    push_blob(out, value.as_bytes());
}

/// The number at `at`, and where it ends.
pub fn word_at(bytes: &[u8], at: usize) -> (read: Option<(u64, usize)>)
    requires
        at <= bytes@.len(),
    ensures
        match read {
            None => read_word(bytes@.skip(at as int)) is None,
            Some((value, end)) => end <= bytes@.len() && read_word(bytes@.skip(at as int)) == Some(
                (value, bytes@.skip(end as int)),
            ),
        },
{
    assert(bytes@.len() == bytes.len());
    let ghost tail = bytes@.skip(at as int);
    if bytes.len() - at < 8 {
        return None;
    }
    let mut value: u64 = 0;
    let mut left: usize = 8;
    let ghost whole = tail.take(8);
    proof {
        assert(whole.skip(8) =~= Seq::<u8>::empty());
        reveal(pow);
        assert(pow(256, 0) == 1);
    }
    while left > 0
        invariant
            left <= 8,
            bytes@.len() == bytes.len(),
            at + 8 <= bytes@.len(),
            whole == bytes@.skip(at as int).take(8),
            value == little_endian(whole.skip(left as int)),
            value < pow(256, (8 - left) as nat),
        decreases left,
    {
        proof {
            let longer = whole.skip(left - 1);
            assert(longer.skip(1) =~= whole.skip(left as int));
            assert(longer[0] == bytes@[at + left - 1]);
            reveal(pow);
            assert(pow(256, (9 - left) as nat) == 256 * pow(256, (8 - left) as nat));
            vstd::arithmetic::power::lemma_pow_increases(256, (9 - left) as nat, 8);
            assert(pow(256, 8) == 0x1_0000_0000_0000_0000) by {
                reveal_with_fuel(pow, 9);
            }
        }
        value = value * 256 + bytes[at + left - 1] as u64;
        left -= 1;
    }
    proof {
        assert(whole.skip(0) =~= whole);
        assert(tail.skip(8) =~= bytes@.skip(at + 8));
    }
    Some((value, at + 8))
}

/// The byte string at `at`, and where it ends.
pub fn blob_at(bytes: &[u8], at: usize) -> (read: Option<(Vec<u8>, usize)>)
    requires
        at <= bytes@.len(),
    ensures
        match read {
            None => read_blob(bytes@.skip(at as int)) is None,
            Some((value, end)) => end <= bytes@.len() && read_blob(bytes@.skip(at as int)) == Some(
                (value@, bytes@.skip(end as int)),
            ),
        },
{
    assert(bytes@.len() == bytes.len());
    let (count, start) = match word_at(bytes, at) {
        Some(read) => read,
        None => {
            return None;
        },
    };
    if ((bytes.len() - start) as u64) < count {
        return None;
    }
    let end: usize = start + count as usize;
    let mut value: Vec<u8> = Vec::new();
    let mut i: usize = start;
    while i < end
        invariant
            start <= i <= end <= bytes@.len(),
            value@ == bytes@.subrange(start as int, i as int),
        decreases end - i,
    {
        value.push(bytes[i]);
        i += 1;
        assert(value@ =~= bytes@.subrange(start as int, i as int));
    }
    proof {
        let tail = bytes@.skip(start as int);
        assert(tail.take(count as int) =~= value@);
        assert(tail.skip(count as int) =~= bytes@.skip(end as int));
    }
    Some((value, end))
}

/// The list of numbers at `at`, and where it ends. The count is checked against the bytes that are
/// there before any number is read.
pub fn word_list_at(bytes: &[u8], at: usize) -> (read: Option<(Vec<u64>, usize)>)
    requires
        at <= bytes@.len(),
    ensures
        match read {
            None => read_word_list(bytes@.skip(at as int)) is None,
            Some((list, end)) => end <= bytes@.len() && read_word_list(bytes@.skip(at as int))
                == Some((list@, bytes@.skip(end as int))),
        },
{
    let (count, start) = match word_at(bytes, at) {
        Some(read) => read,
        None => {
            return None;
        },
    };
    let mut list: Vec<u64> = Vec::new();
    let mut next: usize = start;
    let mut left: u64 = count;
    proof {
        assert(bytes@.skip(start as int) =~= bytes@.skip(next as int));
        assert(list@ =~= Seq::<u64>::empty());
        if let Some((all, rest)) = read_words(bytes@.skip(start as int), count as nat) {
            assert(Seq::<u64>::empty() + all =~= all);
        }
    }
    while left > 0
        invariant
            next <= bytes@.len(),
            left <= count,
            read_word(bytes@.skip(at as int)) == Some((count, bytes@.skip(start as int))),
            read_words(bytes@.skip(start as int), count as nat) == (match read_words(
                bytes@.skip(next as int),
                left as nat,
            ) {
                None => None,
                Some((others, rest)) => Some((list@ + others, rest)),
            }),
        decreases left,
    {
        let (value, after) = match word_at(bytes, next) {
            Some(read) => read,
            None => {
                return None;
            },
        };
        proof {
            let tail = bytes@.skip(after as int);
            if let Some((others, rest)) = read_words(tail, (left - 1) as nat) {
                assert(list@ + (seq![value] + others) =~= list@.push(value) + others);
            }
        }
        list.push(value);
        next = after;
        left -= 1;
    }
    proof {
        assert(list@ + Seq::<u64>::empty() =~= list@);
    }
    Some((list, next))
}

/// The text `bytes` are the encoding of, by std's `String::from_utf8`: text exactly when they are
/// valid, and then the characters they decode to.
#[verifier::external_body]
fn string_from_utf8(bytes: Vec<u8>) -> (value: Option<String>)
    ensures
        match value {
            Some(value) => valid_utf8(bytes@) && value@ == decode_utf8(bytes@),
            None => !valid_utf8(bytes@),
        },
{
    String::from_utf8(bytes).ok()
}

/// The text at `at`, and where it ends.
pub fn text_at(bytes: &[u8], at: usize) -> (read: Option<(String, usize)>)
    requires
        at <= bytes@.len(),
    ensures
        match read {
            None => read_text(bytes@.skip(at as int)) is None,
            Some((value, end)) => end <= bytes@.len() && read_text(bytes@.skip(at as int)) == Some(
                (value@, bytes@.skip(end as int)),
            ),
        },
{
    match blob_at(bytes, at) {
        None => None,
        Some((encoded, end)) => match string_from_utf8(encoded) {
            None => None,
            Some(value) => Some((value, end)),
        },
    }
}

/// The tag at `at`, and where it ends.
pub fn tag_at(bytes: &[u8], at: usize) -> (read: Option<(u8, usize)>)
    requires
        at <= bytes@.len(),
    ensures
        match read {
            None => read_tag(bytes@.skip(at as int)) is None,
            Some((tag, end)) => end <= bytes@.len() && read_tag(bytes@.skip(at as int)) == Some(
                (tag, bytes@.skip(end as int)),
            ),
        },
{
    assert(bytes@.len() == bytes.len());
    if at == bytes.len() {
        return None;
    }
    proof {
        assert(bytes@.skip(at as int).skip(1) =~= bytes@.skip(at + 1));
    }
    Some((bytes[at], at + 1))
}

} // verus!
