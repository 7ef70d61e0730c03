//! The RWKV tokenizer: greedy longest-match encoding over a byte vocabulary.
//!
//! A vocabulary is a list of `(id, bytes)` pairs. Where two pairs share their
//! bytes, the later one gives the id; where two pairs share an id, the later one
//! gives the bytes. [`encoding`] and [`decoding`] say what a text encodes to and
//! what a list of ids decodes to, over the vocabulary alone.

use std::collections::HashMap;

use vstd::prelude::*;
use vstd::string::*;
use vstd::utf8::*;

use crate::text::{
    decimal, decimal_string, parse_unsigned, parse_usize, split_words, texts, unsigned_value, words,
};

verus! {

// ---------------------------------------------------------------------------
// The model
// ---------------------------------------------------------------------------
/// The `(id, bytes)` pairs of a list of tokens.
pub open spec fn vocabulary(tokens: Seq<(u32, Vec<u8>)>) -> Seq<(u32, Seq<u8>)> {
    tokens.map_values(|t: (u32, Vec<u8>)| (t.0, t.1@))
}

/// The id of the last pair that holds `bytes`.
pub open spec fn id_of(vocab: Seq<(u32, Seq<u8>)>, bytes: Seq<u8>) -> Option<u32>
    decreases vocab.len(),
{
    if vocab.len() == 0 {
        None
    } else if vocab.last().1 == bytes {
        Some(vocab.last().0)
    } else {
        id_of(vocab.drop_last(), bytes)
    }
}

/// The bytes of the last pair with this id; nothing for an id that no pair has.
pub open spec fn bytes_of(vocab: Seq<(u32, Seq<u8>)>, id: u32) -> Seq<u8>
    decreases vocab.len(),
{
    if vocab.len() == 0 {
        Seq::empty()
    } else if vocab.last().0 == id {
        vocab.last().1
    } else {
        bytes_of(vocab.drop_last(), id)
    }
}

/// Whether `token` stands in `src` at index `i`.
pub open spec fn starts_at(src: Seq<u8>, i: int, token: Seq<u8>) -> bool {
    0 <= i && i + token.len() <= src.len() && src.subrange(i, i + token.len()) == token
}

/// The length of the longest token of the vocabulary that stands in `src` at index `i`; zero
/// where none does.
pub open spec fn longest(vocab: Seq<(u32, Seq<u8>)>, src: Seq<u8>, i: int) -> nat
    decreases vocab.len(),
{
    if vocab.len() == 0 {
        0
    } else {
        let rest = longest(vocab.drop_last(), src, i);
        let token = vocab.last().1;
        if token.len() > rest && starts_at(src, i, token) {
            token.len()
        } else {
            rest
        }
    }
}

/// How far the encoder moves at index `i`: over the longest token, or over one byte.
pub open spec fn step(vocab: Seq<(u32, Seq<u8>)>, src: Seq<u8>, i: int) -> nat {
    if longest(vocab, src, i) == 0 {
        1
    } else {
        longest(vocab, src, i)
    }
}

/// The ids of `src[i..]`: at each step the id of the longest token. A byte that is no token
/// gives no id.
pub open spec fn encoding_from(vocab: Seq<(u32, Seq<u8>)>, src: Seq<u8>, i: int) -> Seq<u32>
    decreases
            (if i < src.len() {
                src.len() - i
            } else {
                0
            }),
{
    if i < 0 || i >= src.len() {
        Seq::empty()
    } else {
        let n = step(vocab, src, i);
        let rest = encoding_from(vocab, src, i + n);
        match id_of(vocab, src.subrange(i, i + n)) {
            Some(id) => seq![id] + rest,
            None => rest,
        }
    }
}

/// The ids of `src`.
pub open spec fn encoding(vocab: Seq<(u32, Seq<u8>)>, src: Seq<u8>) -> Seq<u32> {
    encoding_from(vocab, src, 0)
}

/// The bytes of the ids, one after another. An unknown id gives no bytes.
pub open spec fn decoding(vocab: Seq<(u32, Seq<u8>)>, ids: Seq<u32>) -> Seq<u8>
    decreases ids.len(),
{
    if ids.len() == 0 {
        Seq::empty()
    } else {
        decoding(vocab, ids.drop_last()) + bytes_of(vocab, ids.last())
    }
}

// ---------------------------------------------------------------------------
// Laws
// ---------------------------------------------------------------------------
/// Greedy means longest: the length found is that of a token that stands there, and no token
/// that stands there is longer.
pub proof fn longest_is_longest(vocab: Seq<(u32, Seq<u8>)>, src: Seq<u8>, i: int)
    ensures
        longest(vocab, src, i) > 0 ==> exists|p: int|
            0 <= p < vocab.len() && (#[trigger] vocab[p]).1.len() == longest(vocab, src, i)
                && starts_at(src, i, vocab[p].1),
        forall|p: int|
            0 <= p < vocab.len() && starts_at(src, i, (#[trigger] vocab[p]).1) ==> vocab[p].1.len()
                <= longest(vocab, src, i),
    decreases vocab.len(),
{
    if vocab.len() > 0 {
        let shorter = vocab.drop_last();
        longest_is_longest(shorter, src, i);
        if longest(shorter, src, i) > 0 {
            let p = choose|p: int|
                0 <= p < shorter.len() && (#[trigger] shorter[p]).1.len() == longest(
                    shorter,
                    src,
                    i,
                ) && starts_at(src, i, shorter[p].1);
            assert(vocab[p] == shorter[p]);
        }
        if longest(vocab, src, i) > 0 && longest(vocab, src, i) != longest(shorter, src, i) {
            assert(vocab[vocab.len() - 1] == vocab.last());
        }
        assert forall|p: int|
            0 <= p < vocab.len() && starts_at(
                src,
                i,
                (#[trigger] vocab[p]).1,
            ) implies vocab[p].1.len() <= longest(vocab, src, i) by {
            if p < shorter.len() {
                assert(vocab[p] == shorter[p]);
            }
        }
    }
}

/// Bytes have an id exactly where some pair holds them.
pub proof fn id_of_known(vocab: Seq<(u32, Seq<u8>)>, bytes: Seq<u8>)
    ensures
        match id_of(vocab, bytes) {
            Some(id) => exists|p: int| 0 <= p < vocab.len() && #[trigger] vocab[p] == (id, bytes),
            None => forall|p: int| 0 <= p < vocab.len() ==> (#[trigger] vocab[p]).1 != bytes,
        },
    decreases vocab.len(),
{
    if vocab.len() > 0 {
        let shorter = vocab.drop_last();
        id_of_known(shorter, bytes);
        if vocab.last().1 == bytes {
            assert(vocab[vocab.len() - 1] == (vocab.last().0, bytes));
        } else {
            match id_of(shorter, bytes) {
                Some(id) => {
                    let p = choose|p: int|
                        0 <= p < shorter.len() && #[trigger] shorter[p] == (id, bytes);
                    assert(vocab[p] == (id, bytes));
                },
                None => {
                    assert forall|p: int| 0 <= p < vocab.len() implies (#[trigger] vocab[p]).1
                        != bytes by {
                        if p < shorter.len() {
                            assert(vocab[p] == shorter[p]);
                        }
                    }
                },
            }
        }
    }
}

/// The bytes of an id that some pair has are those of such a pair.
pub proof fn bytes_of_known(vocab: Seq<(u32, Seq<u8>)>, id: u32)
    ensures
        (exists|p: int| 0 <= p < vocab.len() && (#[trigger] vocab[p]).0 == id) ==> exists|p: int|
            0 <= p < vocab.len() && #[trigger] vocab[p] == (id, bytes_of(vocab, id)),
        (forall|p: int| 0 <= p < vocab.len() ==> (#[trigger] vocab[p]).0 != id) ==> bytes_of(
            vocab,
            id,
        ) == Seq::<u8>::empty(),
    decreases vocab.len(),
{
    if vocab.len() > 0 {
        let shorter = vocab.drop_last();
        bytes_of_known(shorter, id);
        if vocab.last().0 == id {
            assert(vocab[vocab.len() - 1] == (id, vocab.last().1));
        } else {
            if exists|p: int| 0 <= p < vocab.len() && (#[trigger] vocab[p]).0 == id {
                let p = choose|p: int| 0 <= p < vocab.len() && (#[trigger] vocab[p]).0 == id;
                assert(shorter[p] == vocab[p]);
                let q = choose|q: int|
                    0 <= q < shorter.len() && #[trigger] shorter[q] == (id, bytes_of(shorter, id));
                assert(vocab[q] == (id, bytes_of(vocab, id)));
            } else {
                assert forall|p: int| 0 <= p < shorter.len() implies (#[trigger] shorter[p]).0
                    != id by {
                    assert(vocab[p] == shorter[p]);
                }
            }
        }
    }
}

/// Decoding goes id by id.
pub proof fn decoding_of_concat(vocab: Seq<(u32, Seq<u8>)>, left: Seq<u32>, right: Seq<u32>)
    ensures
        decoding(vocab, left + right) == decoding(vocab, left) + decoding(vocab, right),
    decreases right.len(),
{
    if right.len() == 0 {
        assert(left + right =~= left);
        assert(decoding(vocab, left) + Seq::empty() =~= decoding(vocab, left));
    } else {
        assert((left + right).drop_last() =~= left + right.drop_last());
        decoding_of_concat(vocab, left, right.drop_last());
        let bytes = bytes_of(vocab, right.last());
        let a = decoding(vocab, left);
        let b = decoding(vocab, right.drop_last());
        assert((a + b) + bytes =~= a + (b + bytes));
    }
}

/// Whether each piece that the encoder takes from `src[i..]` has an id, and that id has the
/// piece as its bytes.
pub open spec fn reversible_from(vocab: Seq<(u32, Seq<u8>)>, src: Seq<u8>, i: int) -> bool
    decreases
            (if i < src.len() {
                src.len() - i
            } else {
                0
            }),
{
    if i < 0 || i >= src.len() {
        true
    } else {
        let n = step(vocab, src, i);
        let piece = src.subrange(i, i + n);
        &&& id_of(vocab, piece) is Some
        &&& bytes_of(vocab, id_of(vocab, piece)->Some_0) == piece
        &&& reversible_from(vocab, src, i + n)
    }
}

/// The encoder never moves past the end of the input.
pub proof fn step_in_bounds(vocab: Seq<(u32, Seq<u8>)>, src: Seq<u8>, i: int)
    requires
        0 <= i < src.len(),
    ensures
        1 <= step(vocab, src, i) <= src.len() - i,
{
    longest_is_longest(vocab, src, i);
}

proof fn decoding_reverses_encoding_from(vocab: Seq<(u32, Seq<u8>)>, src: Seq<u8>, i: int)
    requires
        0 <= i <= src.len(),
        reversible_from(vocab, src, i),
    ensures
        decoding(vocab, encoding_from(vocab, src, i)) == src.skip(i),
    decreases src.len() - i,
{
    if i < src.len() {
        step_in_bounds(vocab, src, i);
        let n = step(vocab, src, i);
        decoding_reverses_encoding_from(vocab, src, i + n);
        let piece = src.subrange(i, i + n);
        let id = id_of(vocab, piece)->Some_0;
        let rest = encoding_from(vocab, src, i + n);
        decoding_of_concat(vocab, seq![id], rest);
        assert(seq![id].drop_last() =~= Seq::empty());
        assert(decoding(vocab, seq![id]) =~= piece) by {
            reveal_with_fuel(decoding, 2);
        }
        assert(piece + src.skip(i + n) =~= src.skip(i));
    } else {
        assert(src.skip(i) =~= Seq::empty());
    }
}

/// Decoding gives back what was encoded, wherever each piece that the encoder takes has an id
/// and that id has the piece as its bytes.
pub proof fn decoding_reverses_encoding(vocab: Seq<(u32, Seq<u8>)>, src: Seq<u8>)
    requires
        reversible_from(vocab, src, 0),
    ensures
        decoding(vocab, encoding(vocab, src)) == src,
{
    decoding_reverses_encoding_from(vocab, src, 0);
    assert(src.skip(0) =~= src);
}

/// Whether no id stands for two different byte strings.
pub open spec fn ids_unambiguous(vocab: Seq<(u32, Seq<u8>)>) -> bool {
    forall|p: int, q: int|
        0 <= p < vocab.len() && 0 <= q < vocab.len() && (#[trigger] vocab[p]).0 == (
        #[trigger] vocab[q]).0 ==> vocab[p].1 == vocab[q].1
}

/// Whether each byte of `src` is a token by itself.
pub open spec fn bytes_known(vocab: Seq<(u32, Seq<u8>)>, src: Seq<u8>) -> bool {
    forall|i: int| 0 <= i < src.len() ==> id_of(vocab, seq![#[trigger] src[i]]) is Some
}

proof fn known_bytes_are_reversible(vocab: Seq<(u32, Seq<u8>)>, src: Seq<u8>, i: int)
    requires
        ids_unambiguous(vocab),
        bytes_known(vocab, src),
        0 <= i <= src.len(),
    ensures
        reversible_from(vocab, src, i),
    decreases src.len() - i,
{
    if i < src.len() {
        step_in_bounds(vocab, src, i);
        longest_is_longest(vocab, src, i);
        let n = step(vocab, src, i);
        let piece = src.subrange(i, i + n);
        if longest(vocab, src, i) == 0 {
            assert(piece =~= seq![src[i]]);
        } else {
            let p = choose|p: int|
                0 <= p < vocab.len() && (#[trigger] vocab[p]).1.len() == longest(vocab, src, i)
                    && starts_at(src, i, vocab[p].1);
            assert(vocab[p].1 == piece);
        }
        id_of_known(vocab, piece);
        let id = id_of(vocab, piece)->Some_0;
        bytes_of_known(vocab, id);
        known_bytes_are_reversible(vocab, src, i + n);
    }
}

/// With the single-byte fallback present for every byte of the input, and no id used for two
/// byte strings, decoding gives back what was encoded.
pub proof fn round_trip(vocab: Seq<(u32, Seq<u8>)>, src: Seq<u8>)
    requires
        ids_unambiguous(vocab),
        bytes_known(vocab, src),
    ensures
        decoding(vocab, encoding(vocab, src)) == src,
{
    known_bytes_are_reversible(vocab, src, 0);
    decoding_reverses_encoding(vocab, src);
}

/// The same of text: a string decodes to itself from its own encoding.
pub proof fn text_round_trip(vocab: Seq<(u32, Seq<u8>)>, text: Seq<char>)
    requires
        ids_unambiguous(vocab),
        bytes_known(vocab, encode_utf8(text)),
    ensures
        valid_utf8(decoding(vocab, encoding(vocab, encode_utf8(text)))),
        decode_utf8(decoding(vocab, encoding(vocab, encode_utf8(text)))) == text,
{
    round_trip(vocab, encode_utf8(text));
    encode_utf8_valid_utf8(text);
    encode_utf8_decode_utf8(text);
}

// ---------------------------------------------------------------------------
// Vocabulary lines
// ---------------------------------------------------------------------------
/// The value of a hexadecimal digit.
pub open spec fn hex_digit(b: u8) -> Option<int> {
    if 48 <= b <= 57 {
        Some(b - 48)
    } else if 65 <= b <= 70 {
        Some(b - 55)
    } else if 97 <= b <= 102 {
        Some(b - 87)
    } else {
        None
    }
}

/// The bytes that pairs of hexadecimal digits spell.
pub open spec fn hex_value(hex: Seq<u8>) -> Option<Seq<u8>>
    decreases hex.len(),
{
    if hex.len() == 0 {
        Some(Seq::empty())
    } else if hex.len() == 1 {
        None
    } else {
        match (hex_digit(hex[0]), hex_digit(hex[1]), hex_value(hex.skip(2))) {
            (Some(hi), Some(lo), Some(rest)) => Some(seq![(hi * 16 + lo) as u8] + rest),
            _ => None,
        }
    }
}

/// The value of a hexadecimal digit.
fn hex_digit_value(b: u8) -> (d: Option<u8>)
    ensures
        match d {
            Some(v) => hex_digit(b) == Some(v as int) && v < 16,
            None => hex_digit(b) is None,
        },
{
    if 48 <= b && b <= 57 {
        Some(b - 48)
    } else if 65 <= b && b <= 70 {
        Some(b - 55)
    } else if 97 <= b && b <= 102 {
        Some(b - 87)
    } else {
        None
    }
}

/// The bytes that a hexadecimal text spells; nothing where its length is odd or a character is
/// no digit.
pub fn hex_to_bytes(hex: &str) -> (r: Option<Vec<u8>>)
    ensures
        match r {
            Some(bytes) => hex_value(hex.spec_bytes()) == Some(bytes@),
            None => hex_value(hex.spec_bytes()) is None,
        },
{
    let digits: &[u8] = hex.as_bytes();
    let n: usize = digits.len();
    if n % 2 != 0 {
        proof {
            odd_hex_has_no_value(digits@);
        }
        return None;
    }
    let mut out: Vec<u8> = Vec::with_capacity(n / 2);
    let mut i: usize = 0;
    proof {
        assert(digits@.skip(0) =~= digits@);
    }
    while i < n
        invariant
            digits@ == hex.spec_bytes(),
            n == digits@.len(),
            n % 2 == 0,
            i % 2 == 0,
            i <= n,
            match hex_value(digits@.skip(i as int)) {
                Some(rest) => hex_value(digits@) == Some(out@ + rest),
                None => hex_value(digits@) is None,
            },
        decreases n - i,
    {
        let ghost before = out@;
        let ghost tail = digits@.skip(i as int);
        proof {
            assert(tail[0] == digits@[i as int]);
            assert(tail[1] == digits@[i + 1]);
            assert(tail.skip(2) =~= digits@.skip(i + 2));
        }
        let hi: u8 = match hex_digit_value(digits[i]) {
            Some(v) => v,
            None => {
                return None;
            },
        };
        let lo: u8 = match hex_digit_value(digits[i + 1]) {
            Some(v) => v,
            None => {
                return None;
            },
        };
        out.push(hi * 16 + lo);
        proof {
            match hex_value(digits@.skip(i + 2)) {
                Some(rest) => {
                    assert(before + (seq![(hi * 16 + lo) as u8] + rest) =~= out@ + rest);
                },
                None => {},
            }
        }
        i = i + 2;
    }
    proof {
        assert(digits@.skip(i as int) =~= Seq::empty());
        assert(out@ + Seq::empty() =~= out@);
    }
    Some(out)
}

proof fn odd_hex_has_no_value(hex: Seq<u8>)
    requires
        hex.len() % 2 != 0,
    ensures
        hex_value(hex) is None,
    decreases hex.len(),
{
    if hex.len() > 1 {
        odd_hex_has_no_value(hex.skip(2));
    }
}

/// What a vocabulary line says: `idx len hex`, where `len` is the number of bytes that `hex`
/// spells; or what is wrong with it.
pub open spec fn line_pair(number: nat, line: Seq<char>) -> Result<(u32, Seq<u8>), Seq<char>> {
    let w = words(line);
    let at = "line "@ + decimal(number) + ": "@;
    if w.len() < 1 {
        Err(at + "missing idx"@)
    } else {
        match unsigned_value(w[0], u32::MAX as int) {
            Err(e) => Err(at + "bad idx: "@ + e.words()),
            Ok(id) => if w.len() < 2 {
                Err(at + "missing len"@)
            } else {
                match unsigned_value(w[1], usize::MAX as int) {
                    Err(e) => Err(at + "bad len: "@ + e.words()),
                    Ok(len) => if w.len() < 3 {
                        Err(at + "missing hex"@)
                    } else {
                        match hex_value(encode_utf8(w[2])) {
                            None => Err(at + "bad hex"@),
                            Some(bytes) => if bytes.len() != len {
                                Err(
                                    at + "len "@ + decimal(len as nat) + " != bytes "@ + decimal(
                                        bytes.len(),
                                    ),
                                )
                            } else {
                                Ok((id as u32, bytes))
                            },
                        }
                    },
                }
            },
        }
    }
}

/// The characters of each line.
pub open spec fn line_texts(lines: Seq<&str>) -> Seq<Seq<char>> {
    lines.map_values(|l: &str| l@)
}

/// The pairs of all lines, or what is wrong with the first bad one.
pub open spec fn line_pairs(lines: Seq<Seq<char>>) -> Result<Seq<(u32, Seq<u8>)>, Seq<char>>
    decreases lines.len(),
{
    if lines.len() == 0 {
        Ok(Seq::empty())
    } else {
        match line_pairs(lines.drop_last()) {
            Err(e) => Err(e),
            Ok(pairs) => match line_pair((lines.len() - 1) as nat, lines.last()) {
                Err(e) => Err(e),
                Ok(pair) => Ok(pairs.push(pair)),
            },
        }
    }
}

/// Lines behind a bad one do not change what is reported.
pub proof fn first_bad_line(lines: Seq<Seq<char>>, n: int)
    requires
        0 <= n <= lines.len(),
        line_pairs(lines.take(n)) is Err,
    ensures
        line_pairs(lines) == line_pairs(lines.take(n)),
    decreases lines.len() - n,
{
    if n < lines.len() {
        assert(lines.take(n + 1).drop_last() =~= lines.take(n));
        first_bad_line(lines, n + 1);
    } else {
        assert(lines.take(n) =~= lines);
    }
}

/// `"line {number}: {what}"`.
fn line_error(number: usize, what: &str) -> (s: String)
    ensures
        s@ == "line "@ + decimal(number as nat) + ": "@ + what@,
{
    let mut s = String::from_str("line ");
    s.append(decimal_string(number).as_str());
    s.append(": ");
    s.append(what);
    s
}

/// Reads one vocabulary line.
fn read_line(number: usize, line: &str) -> (r: Result<(u32, Vec<u8>), String>)
    ensures
        match r {
            Ok(pair) => line_pair(number as nat, line@) == Ok::<(u32, Seq<u8>), Seq<char>>(
                (pair.0, pair.1@),
            ),
            Err(e) => line_pair(number as nat, line@) == Err::<(u32, Seq<u8>), Seq<char>>(e@),
        },
{
    let w: Vec<String> = split_words(line);
    proof {
        assert(texts(w@).len() == w@.len());
        assert(forall|k: int| 0 <= k < w@.len() ==> texts(w@)[k] == (#[trigger] w@[k])@);
    }
    if w.len() < 1 {
        return Err(line_error(number, "missing idx"));
    }
    let id: u32 = match parse_unsigned(w[0].as_str(), u32::MAX as u64) {
        Ok(n) => n as u32,
        Err(e) => {
            let mut s = line_error(number, "bad idx: ");
            s.append(e.message());
            return Err(s);
        },
    };
    if w.len() < 2 {
        return Err(line_error(number, "missing len"));
    }
    let len: usize = match parse_usize(w[1].as_str()) {
        Ok(n) => n,
        Err(e) => {
            let mut s = line_error(number, "bad len: ");
            s.append(e.message());
            return Err(s);
        },
    };
    if w.len() < 3 {
        return Err(line_error(number, "missing hex"));
    }
    let bytes: Vec<u8> = match hex_to_bytes(w[2].as_str()) {
        Some(bytes) => bytes,
        None => {
            return Err(line_error(number, "bad hex"));
        },
    };
    if bytes.len() != len {
        let mut s = line_error(number, "len ");
        s.append(decimal_string(len).as_str());
        s.append(" != bytes ");
        s.append(decimal_string(bytes.len()).as_str());
        return Err(s);
    }
    Ok((id, bytes))
}

// ---------------------------------------------------------------------------
// The tokenizer
// ---------------------------------------------------------------------------
/// A token of at least two bytes, with its id.
struct Candidate {
    bytes: Vec<u8>,
    id: u32,
}

/// The RWKV tokenizer.
///
/// Construction precomputes a table of candidate multi-byte tokens per leading byte pair
/// (longest first), which byte pairs lead a token, and the longest token per first byte.
pub struct RWKVTokenizer {
    /// The bytes of each id.
    idx2token: HashMap<u32, Vec<u8>>,
    /// The id of each one-byte token.
    single: Vec<Option<u32>>,
    /// The tokens that start with the byte pair `(s0, s1)`, at `s0 * 256 + s1`, longest first.
    table: Vec<Vec<Candidate>>,
    /// Whether a multi-byte token starts with the byte pair `(s0, s1)`.
    good: Vec<bool>,
    /// The length of the longest multi-byte token that starts with a byte.
    wlen: Vec<usize>,
    /// The vocabulary that the tables were built from.
    vocab: Ghost<Seq<(u32, Seq<u8>)>>,
}

/// Where the tokens that start with `bytes[0], bytes[1]` are kept.
spec fn row_of(bytes: Seq<u8>) -> int {
    bytes[0] as int * 256 + bytes[1] as int
}

/// Whether `row` holds the tokens that start with the byte pair number `r`, longest first.
spec fn row_valid(row: Seq<Candidate>, vocab: Seq<(u32, Seq<u8>)>, r: int) -> bool {
    &&& forall|k: int|
        0 <= k < row.len() ==> (#[trigger] row[k]).bytes@.len() >= 2 && row_of(row[k].bytes@) == r
            && id_of(vocab, row[k].bytes@) == Some(row[k].id)
    &&& forall|j: int, k: int|
        0 <= j < k < row.len() ==> (#[trigger] row[j]).bytes@.len() >= (
        #[trigger] row[k]).bytes@.len() && row[j].bytes@ != row[k].bytes@
    &&& forall|p: int|
        #![trigger vocab[p]]
        0 <= p < vocab.len() && vocab[p].1.len() >= 2 && row_of(vocab[p].1) == r ==> exists|k: int|
            0 <= k < row.len() && (#[trigger] row[k]).bytes@ == vocab[p].1
}

/// Whether the tables are those of the vocabulary.
spec fn tables_valid(
    idx2token: Map<u32, Vec<u8>>,
    single: Seq<Option<u32>>,
    table: Seq<Vec<Candidate>>,
    good: Seq<bool>,
    wlen: Seq<usize>,
    vocab: Seq<(u32, Seq<u8>)>,
) -> bool {
    &&& forall|id: u32| #[trigger]
        bytes_of(vocab, id) == (if idx2token.dom().contains(id) {
            idx2token[id]@
        } else {
            Seq::empty()
        })
    &&& single.len() == 256
    &&& forall|b: u8| #[trigger] single[b as int] == id_of(vocab, seq![b])
    &&& table.len() == 65536
    &&& forall|r: int| 0 <= r < 65536 ==> row_valid((#[trigger] table[r])@, vocab, r)
    &&& good.len() == 65536
    &&& forall|r: int| 0 <= r < 65536 ==> #[trigger] good[r] == (table[r]@.len() > 0)
    &&& wlen.len() == 256
    &&& forall|p: int|
        0 <= p < vocab.len() && (#[trigger] vocab[p]).1.len() >= 2 ==> vocab[p].1.len()
            <= wlen[vocab[p].1[0] as int]
}

/// Whether two byte strings are equal.
fn same_bytes(a: &Vec<u8>, b: &Vec<u8>) -> (same: bool)
    ensures
        same == (a@ == b@),
{
    if a.len() != b.len() {
        return false;
    }
    let mut i: usize = 0;
    while i < a.len()
        invariant
            i <= a@.len() == b@.len(),
            forall|j: int| 0 <= j < i ==> a@[j] == b@[j],
        decreases a@.len() - i,
    {
        if a[i] != b[i] {
            return false;
        }
        i = i + 1;
    }
    proof {
        assert(a@ =~= b@);
    }
    true
}

/// A copy of a byte string.
fn copy_bytes(src: &Vec<u8>) -> (copy: Vec<u8>)
    ensures
        copy@ == src@,
{
    let mut copy: Vec<u8> = Vec::with_capacity(src.len());
    let mut i: usize = 0;
    while i < src.len()
        invariant
            i <= src@.len(),
            copy@ == src@.take(i as int),
        decreases src@.len() - i,
    {
        copy.push(src[i]);
        i = i + 1;
        proof {
            assert(src@.take(i as int) =~= src@.take(i - 1).push(src@[i - 1]));
        }
    }
    proof {
        assert(src@.take(i as int) =~= src@);
    }
    copy
}

/// What one more pair changes: the ids of its bytes and the bytes of its id.
proof fn one_more_pair(vocab: Seq<(u32, Seq<u8>)>, pair: (u32, Seq<u8>))
    ensures
        forall|b: Seq<u8>| #[trigger]
            id_of(vocab.push(pair), b) == (if b == pair.1 {
                Some(pair.0)
            } else {
                id_of(vocab, b)
            }),
        forall|id: u32| #[trigger]
            bytes_of(vocab.push(pair), id) == (if id == pair.0 {
                pair.1
            } else {
                bytes_of(vocab, id)
            }),
{
    assert(vocab.push(pair).drop_last() =~= vocab);
}

/// Adds a token to the row of its leading byte pair: a token that is there already gets the new
/// id, another one goes behind the last token that is at least as long.
fn place(
    row: &mut Vec<Candidate>,
    id: u32,
    bytes: &Vec<u8>,
    Ghost(vocab): Ghost<Seq<(u32, Seq<u8>)>>,
)
    requires
        bytes@.len() >= 2,
        row_valid(old(row)@, vocab, row_of(bytes@)),
    ensures
        row_valid(final(row)@, vocab.push((id, bytes@)), row_of(bytes@)),
        final(row)@.len() > 0,
{
    let ghost grown = vocab.push((id, bytes@));
    let ghost before = row@;
    let ghost r = row_of(bytes@);
    proof {
        one_more_pair(vocab, (id, bytes@));
    }
    let mut at: usize = 0;
    while at < row.len() && row[at].bytes.len() >= bytes.len()
        invariant
            row@ == before,
            at <= row@.len(),
            forall|k: int| 0 <= k < at ==> (#[trigger] row@[k]).bytes@.len() >= bytes@.len(),
            forall|k: int| 0 <= k < at ==> (#[trigger] row@[k]).bytes@ != bytes@,
            grown == vocab.push((id, bytes@)),
            r == row_of(bytes@),
            row_valid(before, vocab, r),
            forall|b: Seq<u8>| #[trigger]
                id_of(grown, b) == (if b == bytes@ {
                    Some(id)
                } else {
                    id_of(vocab, b)
                }),
        ensures
            row@ == before,
            at <= row@.len(),
            forall|k: int| 0 <= k < at ==> (#[trigger] row@[k]).bytes@.len() >= bytes@.len(),
            forall|k: int| 0 <= k < at ==> (#[trigger] row@[k]).bytes@ != bytes@,
            at < row@.len() ==> row@[at as int].bytes@.len() < bytes@.len(),
        decreases row@.len() - at,
    {
        if same_bytes(&row[at].bytes, bytes) {
            let token = Candidate { bytes: copy_bytes(bytes), id };
            row.set(at, token);
            proof {
                assert(row_valid(before.update(at as int, token), grown, r)) by {
                    let after = before.update(at as int, token);
                    assert forall|k: int| 0 <= k < after.len() implies (
                    #[trigger] after[k]).bytes@.len() >= 2 && row_of(after[k].bytes@) == r && id_of(
                        grown,
                        after[k].bytes@,
                    ) == Some(after[k].id) by {
                        if k != at {
                            assert(after[k] == before[k]);
                        }
                    }
                    assert forall|p: int|
                        #![trigger grown[p]]
                        0 <= p < grown.len() && grown[p].1.len() >= 2 && row_of(grown[p].1)
                            == r implies exists|k: int|
                        0 <= k < after.len() && (#[trigger] after[k]).bytes@ == grown[p].1 by {
                        if p < vocab.len() {
                            assert(grown[p] == vocab[p]);
                            let k = choose|k: int|
                                0 <= k < before.len() && (#[trigger] before[k]).bytes@
                                    == vocab[p].1;
                            assert(after[k].bytes@ == grown[p].1);
                        } else {
                            assert(after[at as int].bytes@ == grown[p].1);
                        }
                    }
                }
            }
            return;
        }
        at = at + 1;
    }
    let token = Candidate { bytes: copy_bytes(bytes), id };
    row.insert(at, token);
    proof {
        let after = before.insert(at as int, token);
        assert forall|k: int| 0 <= k < after.len() implies (#[trigger] after[k]).bytes@.len() >= 2
            && row_of(after[k].bytes@) == r && id_of(grown, after[k].bytes@) == Some(
            after[k].id,
        ) by {
            if k < at {
                assert(after[k] == before[k]);
            } else if k > at {
                assert(after[k] == before[k - 1]);
                assert(before[k - 1].bytes@.len() <= before[at as int].bytes@.len());
            }
        }
        assert forall|j: int, k: int| 0 <= j < k < after.len() implies (
        #[trigger] after[j]).bytes@.len() >= (#[trigger] after[k]).bytes@.len() && after[j].bytes@
            != after[k].bytes@ by {
            if j != at {
                assert(after[j] == before[if j < at { j } else { j - 1 }]);
            }
            if k != at {
                assert(after[k] == before[if k < at { k } else { k - 1 }]);
            }
            if at < before.len() && k > at {
                assert(before[k - 1].bytes@.len() <= before[at as int].bytes@.len());
            }
        }
        assert forall|p: int|
            #![trigger grown[p]]
            0 <= p < grown.len() && grown[p].1.len() >= 2 && row_of(grown[p].1)
                == r implies exists|k: int|
            0 <= k < after.len() && (#[trigger] after[k]).bytes@ == grown[p].1 by {
            if p < vocab.len() {
                assert(grown[p] == vocab[p]);
                let k = choose|k: int|
                    0 <= k < before.len() && (#[trigger] before[k]).bytes@ == vocab[p].1;
                assert(after[if k < at { k } else { k + 1 }].bytes@ == grown[p].1);
            } else {
                assert(after[at as int].bytes@ == grown[p].1);
            }
        }
        assert(row_valid(after, grown, r));
    }
}

/// A pair of another row changes nothing in this row.
proof fn other_rows_stay(
    row: Seq<Candidate>,
    vocab: Seq<(u32, Seq<u8>)>,
    r: int,
    pair: (u32, Seq<u8>),
)
    requires
        row_valid(row, vocab, r),
        pair.1.len() < 2 || row_of(pair.1) != r,
    ensures
        row_valid(row, vocab.push(pair), r),
{
    let grown = vocab.push(pair);
    one_more_pair(vocab, pair);
    assert forall|p: int|
        #![trigger grown[p]]
        0 <= p < grown.len() && grown[p].1.len() >= 2 && row_of(grown[p].1)
            == r implies exists|k: int|
        0 <= k < row.len() && (#[trigger] row[k]).bytes@ == grown[p].1 by {
        assert(grown[p] == vocab[p]);
    }
}

/// One empty row per byte pair.
fn empty_table() -> (table: Vec<Vec<Candidate>>)
    ensures
        table@.len() == 65536,
        forall|r: int| 0 <= r < 65536 ==> (#[trigger] table@[r])@.len() == 0,
{
    let mut table: Vec<Vec<Candidate>> = Vec::with_capacity(65536);
    let mut r: usize = 0;
    while r < 65536
        invariant
            r <= 65536,
            table@.len() == r,
            forall|q: int| 0 <= q < r ==> (#[trigger] table@[q])@.len() == 0,
        decreases 65536 - r,
    {
        table.push(Vec::new());
        r = r + 1;
    }
    table
}

impl RWKVTokenizer {
    /// The vocabulary of the tokenizer.
    pub closed spec fn vocab(&self) -> Seq<(u32, Seq<u8>)> {
        self.vocab@
    }

    /// The tables are those of the vocabulary.
    #[verifier::type_invariant]
    spec fn valid(&self) -> bool {
        tables_valid(
            self.idx2token@,
            self.single@,
            self.table@,
            self.good@,
            self.wlen@,
            self.vocab@,
        )
    }

    /// Builds a tokenizer from token-id and bytes pairs. Every list of pairs is accepted.
    pub fn from_pairs(tokens: &[(u32, Vec<u8>)]) -> (r: Result<Self, String>)
        ensures
            r is Ok,
            r->Ok_0.vocab() == vocabulary(tokens@),
    {
        broadcast use vstd::std_specs::hash::group_hash_axioms;

        let mut idx2token: HashMap<u32, Vec<u8>> = HashMap::new();
        let mut single: Vec<Option<u32>> = vec![None; 256];
        let mut table: Vec<Vec<Candidate>> = empty_table();
        let mut good: Vec<bool> = vec![false; 65536];
        let mut wlen: Vec<usize> = vec![0; 256];
        let ghost mut vocab: Seq<(u32, Seq<u8>)> = Seq::empty();
        let mut k: usize = 0;
        while k < tokens.len()
            invariant
                k <= tokens@.len(),
                vocab == vocabulary(tokens@.take(k as int)),
                tables_valid(idx2token@, single@, table@, good@, wlen@, vocab),
            decreases tokens@.len() - k,
        {
            let id: u32 = tokens[k].0;
            let bytes: &Vec<u8> = &tokens[k].1;
            let ghost pair = (id, bytes@);
            let ghost grown = vocab.push(pair);
            let ghost table_before = table@;
            proof {
                one_more_pair(vocab, pair);
                assert(vocabulary(tokens@.take(k + 1)) =~= grown);
                assert(grown.drop_last() =~= vocab);
            }
            idx2token.insert(id, copy_bytes(bytes));
            if bytes.len() == 1 {
                single.set(bytes[0] as usize, Some(id));
                proof {
                    assert(bytes@ =~= seq![bytes@[0]]);
                }
            }
            if bytes.len() >= 2 {
                let s0: usize = bytes[0] as usize;
                let r: usize = s0 * 256 + bytes[1] as usize;
                place(&mut table[r], id, bytes, Ghost(vocab));
                good.set(r, true);
                if wlen[s0] < bytes.len() {
                    wlen.set(s0, bytes.len());
                }
            }
            proof {
                assert forall|b: u8| #[trigger] single@[b as int] == id_of(grown, seq![b]) by {
                    assert(seq![b][0] == b);
                    if bytes@.len() == 1 {
                        assert(bytes@ =~= seq![bytes@[0]]);
                    }
                }
                assert forall|q: int| 0 <= q < 65536 implies row_valid(
                    (#[trigger] table@[q])@,
                    grown,
                    q,
                ) by {
                    if bytes@.len() < 2 || q != row_of(bytes@) {
                        assert(table@[q] == table_before[q]);
                        other_rows_stay(table_before[q]@, vocab, q, pair);
                    }
                }
                assert forall|q: int|
                    0 <= q < grown.len() && (
                    #[trigger] grown[q]).1.len() >= 2 implies grown[q].1.len()
                    <= wlen@[grown[q].1[0] as int] by {
                    if q < vocab.len() {
                        assert(grown[q] == vocab[q]);
                    }
                }
                vocab = grown;
            }
            k = k + 1;
        }
        proof {
            assert(tokens@.take(k as int) =~= tokens@);
        }
        Ok(RWKVTokenizer { idx2token, single, table, good, wlen, vocab: Ghost(vocab) })
    }

    /// Builds a tokenizer from vocabulary lines of the form `idx len hex`: the first bad line
    /// is reported, else the pairs of the lines are the vocabulary.
    pub fn from_vocab(lines: &[&str]) -> (r: Result<Self, String>)
        ensures
            match r {
                Ok(tokenizer) => line_pairs(line_texts(lines@)) == Ok::<
                    Seq<(u32, Seq<u8>)>,
                    Seq<char>,
                >(tokenizer.vocab()),
                Err(e) => line_pairs(line_texts(lines@)) == Err::<Seq<(u32, Seq<u8>)>, Seq<char>>(
                    e@,
                ),
            },
    {
        let mut pairs: Vec<(u32, Vec<u8>)> = Vec::new();
        let mut n: usize = 0;
        proof {
            assert(line_texts(lines@).take(0) =~= Seq::empty());
            assert(vocabulary(pairs@) =~= Seq::empty());
        }
        while n < lines.len()
            invariant
                n <= lines@.len(),
                line_pairs(line_texts(lines@).take(n as int)) == Ok::<
                    Seq<(u32, Seq<u8>)>,
                    Seq<char>,
                >(vocabulary(pairs@)),
            decreases lines@.len() - n,
        {
            let ghost all = line_texts(lines@);
            proof {
                assert(all.take(n + 1).drop_last() =~= all.take(n as int));
                assert(all.take(n + 1).last() == lines@[n as int]@);
            }
            match read_line(n, lines[n]) {
                Ok(pair) => {
                    let ghost before = pairs@;
                    pairs.push(pair);
                    proof {
                        assert(vocabulary(pairs@) =~= vocabulary(before).push((pair.0, pair.1@)));
                    }
                },
                Err(e) => {
                    proof {
                        first_bad_line(all, n + 1);
                    }
                    return Err(e);
                },
            }
            n = n + 1;
        }
        proof {
            assert(line_texts(lines@).take(n as int) =~= line_texts(lines@));
        }
        Self::from_pairs(pairs.as_slice())
    }

    /// The index of the first candidate of row `r` that stands in `src[i..end]`.
    fn find_candidate(&self, r: usize, src: &[u8], i: usize, end: usize) -> (found: Option<usize>)
        requires
            r < self.table@.len(),
            i <= end <= src@.len(),
        ensures
            match found {
                Some(k) => k < self.table@[r as int]@.len() && candidate_at(
                    self.table@[r as int]@[k as int],
                    src@,
                    i as int,
                    end as int,
                ) && forall|j: int|
                    0 <= j < k ==> !candidate_at(
                        #[trigger] self.table@[r as int]@[j],
                        src@,
                        i as int,
                        end as int,
                    ),
                None => forall|j: int|
                    0 <= j < self.table@[r as int]@.len() ==> !candidate_at(
                        #[trigger] self.table@[r as int]@[j],
                        src@,
                        i as int,
                        end as int,
                    ),
            },
    {
        let row: &Vec<Candidate> = &self.table[r];
        let mut k: usize = 0;
        while k < row.len()
            invariant
                row@ == self.table@[r as int]@,
                k <= row@.len(),
                i <= end <= src@.len(),
                forall|j: int|
                    0 <= j < k ==> !candidate_at(
                        #[trigger] row@[j],
                        src@,
                        i as int,
                        end as int,
                    ),
            decreases row@.len() - k,
        {
            if prefix_in(&row[k].bytes, src, i, end) {
                return Some(k);
            }
            k = k + 1;
        }
        None
    }

    /// Greedy longest-match encoding of raw bytes.
    pub fn encode_bytes(&self, src: &[u8]) -> (ids: Vec<u32>)
        ensures
            ids@ == encoding(self.vocab(), src@),
    {
        proof {
            use_type_invariant(self);
        }
        let ghost vocab = self.vocab@;
        let mut ids: Vec<u32> = Vec::new();
        let mut i: usize = 0;
        proof {
            assert(ids@ + encoding(vocab, src@) =~= encoding(vocab, src@));
        }
        while i < src.len()
            invariant
                i <= src@.len(),
                vocab == self.vocab@,
                tables_valid(
                    self.idx2token@,
                    self.single@,
                    self.table@,
                    self.good@,
                    self.wlen@,
                    vocab,
                ),
                ids@ + encoding_from(vocab, src@, i as int) == encoding(vocab, src@),
            decreases src@.len() - i,
        {
            let ghost before = ids@;
            proof {
                step_in_bounds(vocab, src@, i as int);
            }
            let left: usize = src.len() - i;
            let s0: usize = src[i] as usize;
            let mut found: Option<usize> = None;
            let mut r: usize = 0;
            if left > 1 {
                r = s0 * 256 + src[i + 1] as usize;
                if self.good[r] {
                    let reach: usize = self.wlen[s0];
                    let end: usize = if reach < left {
                        i + reach
                    } else {
                        src.len()
                    };
                    found = self.find_candidate(r, src, i, end);
                    proof {
                        match found {
                            Some(k) => {
                                found_is_longest(
                                    vocab,
                                    src@,
                                    i as int,
                                    end as int,
                                    self.table@[r as int]@,
                                    r as int,
                                    k as int,
                                );
                            },
                            None => {
                                absent_is_short(
                                    vocab,
                                    src@,
                                    i as int,
                                    end as int,
                                    self.table@[r as int]@,
                                    r as int,
                                );
                            },
                        }
                    }
                } else {
                    proof {
                        absent_is_short(
                            vocab,
                            src@,
                            i as int,
                            src@.len() as int,
                            self.table@[r as int]@,
                            r as int,
                        );
                    }
                }
            }
            let ghost n = step(vocab, src@, i as int);
            let ghost piece = src@.subrange(i as int, i + n);
            let (id, length): (Option<u32>, usize) = match found {
                Some(k) => (Some(self.table[r][k].id), self.table[r][k].bytes.len()),
                None => {
                    proof {
                        longest_is_longest(vocab, src@, i as int);
                        assert(piece =~= seq![src@[i as int]]);
                    }
                    (self.single[s0], 1)
                },
            };
            proof {
                assert(length == n);
                assert(id == id_of(vocab, piece));
            }
            match id {
                Some(known) => {
                    ids.push(known);
                    proof {
                        let rest = encoding_from(vocab, src@, i + n);
                        assert(ids@ + rest =~= before + (seq![known] + rest));
                    }
                },
                None => {},
            }
            i = i + length;
        }
        proof {
            assert(ids@ + Seq::<u32>::empty() =~= ids@);
        }
        ids
    }

    /// The stored bytes of each token id, one after another.
    pub fn decode_bytes(&self, tokens: &[u32]) -> (bytes: Vec<u8>)
        ensures
            bytes@ == decoding(self.vocab(), tokens@),
    {
        proof {
            use_type_invariant(self);
        }
        broadcast use vstd::std_specs::hash::group_hash_axioms;

        let mut out: Vec<u8> = Vec::new();
        let mut k: usize = 0;
        while k < tokens.len()
            invariant
                k <= tokens@.len(),
                tables_valid(
                    self.idx2token@,
                    self.single@,
                    self.table@,
                    self.good@,
                    self.wlen@,
                    self.vocab@,
                ),
                out@ == decoding(self.vocab@, tokens@.take(k as int)),
            decreases tokens@.len() - k,
        {
            let id: u32 = tokens[k];
            let ghost before = out@;
            let ghost bytes = bytes_of(self.vocab@, id);
            proof {
                assert(tokens@.take(k + 1).drop_last() =~= tokens@.take(k as int));
            }
            match self.idx2token.get(&id) {
                Some(token) => {
                    let mut j: usize = 0;
                    while j < token.len()
                        invariant
                            j <= token@.len(),
                            token@ == bytes,
                            out@ == before + bytes.take(j as int),
                        decreases token@.len() - j,
                    {
                        out.push(token[j]);
                        j = j + 1;
                        proof {
                            assert(out@ =~= before + bytes.take(j as int));
                        }
                    }
                    proof {
                        assert(bytes.take(j as int) =~= bytes);
                    }
                },
                None => {
                    proof {
                        assert(before + bytes =~= before);
                    }
                },
            }
            k = k + 1;
        }
        proof {
            assert(tokens@.take(k as int) =~= tokens@);
        }
        out
    }

    /// The ids of a string, by its UTF-8 bytes.
    pub fn encode(&self, src: &str) -> (ids: Vec<u32>)
        ensures
            ids@ == encoding(self.vocab(), src.spec_bytes()),
    {
        self.encode_bytes(src.as_bytes())
    }

    /// The string of a list of token ids; fails exactly where their bytes are not UTF-8.
    pub fn decode(&self, tokens: &[u32]) -> (r: Result<String, DecodeError>)
        ensures
            match r {
                Ok(s) => valid_utf8(decoding(self.vocab(), tokens@)) && s@ == decode_utf8(
                    decoding(self.vocab(), tokens@),
                ),
                Err(e) => !valid_utf8(decoding(self.vocab(), tokens@)) && e
                    == DecodeError::InvalidUtf8,
            },
    {
        match string_from_utf8(self.decode_bytes(tokens)) {
            Some(s) => Ok(s),
            None => Err(DecodeError::InvalidUtf8),
        }
    }
}

/// Why token ids do not decode to a string.
#[derive(Clone, Copy, Debug, PartialEq, Eq, Structural)]
pub enum DecodeError {
    /// The bytes of the tokens are not UTF-8.
    InvalidUtf8,
}

/// Trusted: `String::from_utf8` gives the string whose UTF-8 encoding the bytes are, and fails
/// exactly where they are not valid UTF-8.
#[verifier::external_body]
fn string_from_utf8(bytes: Vec<u8>) -> (r: Option<String>)
    ensures
        match r {
            Some(s) => valid_utf8(bytes@) && s@ == decode_utf8(bytes@),
            None => !valid_utf8(bytes@),
        },
{
    String::from_utf8(bytes).ok()
}

/// Whether a candidate stands in `src[i..end]` at its start.
spec fn candidate_at(candidate: Candidate, src: Seq<u8>, i: int, end: int) -> bool {
    i + candidate.bytes@.len() <= end && starts_at(src, i, candidate.bytes@)
}

/// Whether `src[i..end]` starts with `token`.
fn prefix_in(token: &Vec<u8>, src: &[u8], i: usize, end: usize) -> (b: bool)
    requires
        i <= end <= src@.len(),
    ensures
        b == (i + token@.len() <= end && starts_at(src@, i as int, token@)),
{
    let n: usize = src.len();
    if token.len() > end - i {
        return false;
    }
    let mut k: usize = 0;
    while k < token.len()
        invariant
            n == src@.len(),
            i + token@.len() <= end <= src@.len(),
            k <= token@.len(),
            forall|j: int| 0 <= j < k ==> src@[i + j] == token@[j],
        decreases token@.len() - k,
    {
        if src[i + k] != token[k] {
            proof {
                assert(src@.subrange(i as int, i + token@.len())[k as int] != token@[k as int]);
            }
            return false;
        }
        k = k + 1;
    }
    proof {
        assert(src@.subrange(i as int, i + token@.len()) =~= token@);
    }
    true
}

/// A token of at least two bytes that stands at `i` is kept in the row of the two bytes there.
proof fn row_of_start(src: Seq<u8>, i: int, token: Seq<u8>)
    requires
        starts_at(src, i, token),
        token.len() >= 2,
    ensures
        token[0] == src[i],
        token[1] == src[i + 1],
{
    assert(src.subrange(i, i + token.len())[0] == src[i]);
    assert(src.subrange(i, i + token.len())[1] == src[i + 1]);
}

/// The first candidate that stands at `i` is the longest token there.
proof fn found_is_longest(
    vocab: Seq<(u32, Seq<u8>)>,
    src: Seq<u8>,
    i: int,
    end: int,
    row: Seq<Candidate>,
    r: int,
    k: int,
)
    requires
        0 <= i < src.len() - 1,
        end <= src.len(),
        r == src[i] as int * 256 + src[i + 1] as int,
        row_valid(row, vocab, r),
        forall|p: int|
            0 <= p < vocab.len() && (#[trigger] vocab[p]).1.len() >= 2 && vocab[p].1[0] == src[i]
                && starts_at(src, i, vocab[p].1) ==> i + vocab[p].1.len() <= end,
        0 <= k < row.len(),
        candidate_at(row[k], src, i, end),
        forall|j: int| 0 <= j < k ==> !candidate_at(#[trigger] row[j], src, i, end),
    ensures
        step(vocab, src, i) == row[k].bytes@.len(),
        id_of(vocab, src.subrange(i, i + step(vocab, src, i))) == Some(row[k].id),
{
    longest_is_longest(vocab, src, i);
    id_of_known(vocab, row[k].bytes@);
    let q = choose|q: int|
        0 <= q < vocab.len() && #[trigger] vocab[q] == (row[k].id, row[k].bytes@);
    let n = longest(vocab, src, i);
    assert(vocab[q].1.len() <= n);
    let p = choose|p: int|
        0 <= p < vocab.len() && (#[trigger] vocab[p]).1.len() == n && starts_at(
            src,
            i,
            vocab[p].1,
        );
    row_of_start(src, i, vocab[p].1);
    let j = choose|j: int| 0 <= j < row.len() && (#[trigger] row[j]).bytes@ == vocab[p].1;
    assert(candidate_at(row[j], src, i, end));
    assert(j >= k);
}

/// Where no candidate stands at `i`, no token of two bytes or more does.
proof fn absent_is_short(
    vocab: Seq<(u32, Seq<u8>)>,
    src: Seq<u8>,
    i: int,
    end: int,
    row: Seq<Candidate>,
    r: int,
)
    requires
        0 <= i < src.len() - 1,
        end <= src.len(),
        r == src[i] as int * 256 + src[i + 1] as int,
        row_valid(row, vocab, r),
        forall|p: int|
            0 <= p < vocab.len() && (#[trigger] vocab[p]).1.len() >= 2 && vocab[p].1[0] == src[i]
                && starts_at(src, i, vocab[p].1) ==> i + vocab[p].1.len() <= end,
        forall|j: int| 0 <= j < row.len() ==> !candidate_at(#[trigger] row[j], src, i, end),
    ensures
        longest(vocab, src, i) <= 1,
{
    longest_is_longest(vocab, src, i);
    let n = longest(vocab, src, i);
    if n >= 2 {
        let p = choose|p: int|
            0 <= p < vocab.len() && (#[trigger] vocab[p]).1.len() == n && starts_at(
                src,
                i,
                vocab[p].1,
            );
        row_of_start(src, i, vocab[p].1);
        let j = choose|j: int| 0 <= j < row.len() && (#[trigger] row[j]).bytes@ == vocab[p].1;
        assert(candidate_at(row[j], src, i, end));
    }
}

} // verus!
