//! Text primitives: character scans, white space, substring search and decimal
//! numbers, each stated over the sequence of characters of a string.

use vstd::prelude::*;

verus! {

/// Trusted: `String::push` appends one character to the end of the string.
pub assume_specification[ String::push ](s: &mut String, c: char)
    ensures
        final(s)@ == old(s)@.push(c),
;

/// The characters of a string, in order.
pub fn chars_of(s: &str) -> (chars: Vec<char>)
    ensures
        chars@ == s@,
{
    let mut chars: Vec<char> = Vec::new();
    for c in it: s.chars()
        invariant
            chars@ == it.seq().take(it.index() as int),
    {
        chars.push(c);
    }
    chars
}

/// The string that holds `chars[lo..hi]`.
pub fn string_of(chars: &[char], lo: usize, hi: usize) -> (s: String)
    requires
        lo <= hi <= chars@.len(),
    ensures
        s@ == chars@.subrange(lo as int, hi as int),
{
    let mut s = String::new();
    let mut i: usize = lo;
    while i < hi
        invariant
            lo <= i <= hi <= chars@.len(),
            s@ == chars@.subrange(lo as int, i as int),
        decreases hi - i,
    {
        s.push(chars[i]);
        i = i + 1;
        assert(chars@.subrange(lo as int, i as int) =~= chars@.subrange(lo as int, i - 1).push(
            chars@[i - 1],
        ));
    }
    s
}

// ---------------------------------------------------------------------------
// White space
// ---------------------------------------------------------------------------
/// The characters with the Unicode property `White_Space`.
pub open spec fn is_white(c: char) -> bool {
    ||| '\u{9}' <= c <= '\u{d}'
    ||| c == ' '
    ||| c == '\u{85}'
    ||| c == '\u{a0}'
    ||| c == '\u{1680}'
    ||| '\u{2000}' <= c <= '\u{200a}'
    ||| c == '\u{2028}'
    ||| c == '\u{2029}'
    ||| c == '\u{202f}'
    ||| c == '\u{205f}'
    ||| c == '\u{3000}'
}

/// Whether `c` is white space.
pub fn white(c: char) -> (b: bool)
    ensures
        b == is_white(c),
{
    ('\u{9}' <= c && c <= '\u{d}') || c == ' ' || c == '\u{85}' || c == '\u{a0}' || c == '\u{1680}'
        || ('\u{2000}' <= c && c <= '\u{200a}') || c == '\u{2028}' || c == '\u{2029}' || c
        == '\u{202f}' || c == '\u{205f}' || c == '\u{3000}'
}

/// `s` without its leading white space.
pub open spec fn trimmed_start(s: Seq<char>) -> Seq<char>
    decreases s.len(),
{
    if s.len() > 0 && is_white(s[0]) {
        trimmed_start(s.skip(1))
    } else {
        s
    }
}

/// `s` without its trailing white space.
pub open spec fn trimmed_end(s: Seq<char>) -> Seq<char>
    decreases s.len(),
{
    if s.len() > 0 && is_white(s.last()) {
        trimmed_end(s.drop_last())
    } else {
        s
    }
}

/// `s` without leading and trailing white space.
pub open spec fn trimmed(s: Seq<char>) -> Seq<char> {
    trimmed_end(trimmed_start(s))
}

/// The first index at or after `lo` whose character is not white space.
pub fn skip_white(chars: &[char], lo: usize) -> (i: usize)
    requires
        lo <= chars@.len(),
    ensures
        lo <= i <= chars@.len(),
        trimmed_start(chars@.skip(lo as int)) == chars@.skip(i as int),
        i < chars@.len() ==> !is_white(chars@[i as int]),
{
    let mut i: usize = lo;
    while i < chars.len() && white(chars[i])
        invariant
            lo <= i <= chars@.len(),
            trimmed_start(chars@.skip(lo as int)) == trimmed_start(chars@.skip(i as int)),
        decreases chars@.len() - i,
    {
        proof {
            assert(chars@.skip(i as int).skip(1) =~= chars@.skip(i + 1));
        }
        i = i + 1;
    }
    i
}

/// The bounds `[lo, hi)` of `chars` without leading and trailing white space.
pub fn trim_bounds(chars: &[char]) -> (bounds: (usize, usize))
    ensures
        bounds.0 <= bounds.1 <= chars@.len(),
        chars@.subrange(bounds.0 as int, bounds.1 as int) == trimmed(chars@),
{
    let lo: usize = skip_white(chars, 0);
    let mut hi: usize = chars.len();
    proof {
        assert(chars@.skip(0) =~= chars@);
        assert(chars@.skip(lo as int) =~= chars@.subrange(lo as int, hi as int));
    }
    while hi > lo && white(chars[hi - 1])
        invariant
            lo <= hi <= chars@.len(),
            trimmed(chars@) == trimmed_end(chars@.subrange(lo as int, hi as int)),
        decreases hi,
    {
        proof {
            assert(chars@.subrange(lo as int, hi as int).drop_last() =~= chars@.subrange(
                lo as int,
                hi - 1,
            ));
        }
        hi = hi - 1;
    }
    (lo, hi)
}

/// `s` without leading and trailing white space.
pub fn trim(s: &str) -> (t: String)
    ensures
        t@ == trimmed(s@),
{
    let chars = chars_of(s);
    let (lo, hi): (usize, usize) = trim_bounds(chars.as_slice());
    string_of(chars.as_slice(), lo, hi)
}

/// The words of `s` when `current` is the word that is being read just before it.
pub open spec fn words_after(s: Seq<char>, current: Seq<char>) -> Seq<Seq<char>>
    decreases s.len(),
{
    let finished = if current.len() == 0 {
        Seq::empty()
    } else {
        seq![current]
    };
    if s.len() == 0 {
        finished
    } else if is_white(s[0]) {
        finished + words_after(s.skip(1), Seq::empty())
    } else {
        words_after(s.skip(1), current.push(s[0]))
    }
}

/// The maximal runs of characters that are not white space, in order.
pub open spec fn words(s: Seq<char>) -> Seq<Seq<char>> {
    words_after(s, Seq::empty())
}

/// The characters of an optional string.
pub open spec fn optional_text(s: Option<String>) -> Option<Seq<char>> {
    match s {
        Some(s) => Some(s@),
        None => None,
    }
}

/// The characters of each string of a list.
pub open spec fn texts(v: Seq<String>) -> Seq<Seq<char>> {
    v.map_values(|s: String| s@)
}

/// Splits a string at its white space.
pub fn split_words(s: &str) -> (out: Vec<String>)
    ensures
        texts(out@) == words(s@),
{
    let chars = chars_of(s);
    let mut out: Vec<String> = Vec::new();
    let mut start: usize = 0;
    let mut i: usize = 0;
    proof {
        assert(chars@.skip(0) =~= chars@);
        assert(chars@.subrange(0, 0) =~= Seq::<char>::empty());
        assert(texts(out@) =~= Seq::empty());
    }
    while i < chars.len()
        invariant
            start <= i <= chars@.len(),
            texts(out@) + words_after(
                chars@.skip(i as int),
                chars@.subrange(start as int, i as int),
            )
                == words(chars@),
        decreases chars@.len() - i,
    {
        let ghost before = texts(out@);
        let ghost current = chars@.subrange(start as int, i as int);
        proof {
            assert(chars@.skip(i as int)[0] == chars@[i as int]);
            assert(chars@.skip(i as int).skip(1) =~= chars@.skip(i + 1));
        }
        if white(chars[i]) {
            if start < i {
                let word = string_of(chars.as_slice(), start, i);
                let ghost prior = out@;
                out.push(word);
                proof {
                    assert(texts(out@) =~= texts(prior).push(word@));
                }
            }
            start = i + 1;
            proof {
                let finished = if current.len() == 0 {
                    Seq::empty()
                } else {
                    seq![current]
                };
                let rest = words_after(chars@.skip(i + 1), Seq::empty());
                assert(chars@.subrange(i + 1, i + 1) =~= Seq::<char>::empty());
                assert(texts(out@) =~= before + finished);
                assert((before + finished) + rest =~= before + (finished + rest));
            }
        } else {
            proof {
                assert(chars@.subrange(start as int, i + 1) =~= current.push(chars@[i as int]));
            }
        }
        i = i + 1;
    }
    if start < i {
        let word = string_of(chars.as_slice(), start, i);
        let ghost prior = out@;
        out.push(word);
        proof {
            assert(texts(out@) =~= texts(prior).push(word@));
            assert(texts(prior).push(word@) =~= texts(prior) + seq![word@]);
        }
    } else {
        proof {
            assert(texts(out@) + Seq::empty() =~= texts(out@));
        }
    }
    out
}

// ---------------------------------------------------------------------------
// Substrings
// ---------------------------------------------------------------------------
/// Whether `needle` stands in `s` at index `i`.
pub open spec fn occurs_at(s: Seq<char>, needle: Seq<char>, i: int) -> bool {
    0 <= i && i + needle.len() <= s.len() && s.subrange(i, i + needle.len()) == needle
}

/// The first index at or after `from` at which `needle` stands in `s`.
pub open spec fn first_occurrence(s: Seq<char>, needle: Seq<char>, from: int) -> Option<int>
    decreases s.len() + 1 - from,
{
    if from < 0 || from + needle.len() > s.len() {
        None
    } else if occurs_at(s, needle, from) {
        Some(from)
    } else {
        first_occurrence(s, needle, from + 1)
    }
}

/// `first_occurrence` finds an occurrence, skips none, and fails only where there is none.
pub proof fn lemma_first_occurrence(s: Seq<char>, needle: Seq<char>, from: int)
    requires
        0 <= from,
    ensures
        match first_occurrence(s, needle, from) {
            Some(i) => from <= i && occurs_at(s, needle, i) && forall|j: int|
                from <= j < i ==> !#[trigger] occurs_at(s, needle, j),
            None => forall|j: int| from <= j ==> !#[trigger] occurs_at(s, needle, j),
        },
    decreases s.len() + 1 - from,
{
    if from + needle.len() <= s.len() && !occurs_at(s, needle, from) {
        lemma_first_occurrence(s, needle, from + 1);
    }
}

/// Whether `needle` stands in `s` at index `i`.
pub fn stands_at(s: &[char], needle: &[char], i: usize) -> (b: bool)
    ensures
        b == occurs_at(s@, needle@, i as int),
{
    let n: usize = s.len();
    if needle.len() > n || i > n - needle.len() {
        return false;
    }
    let mut k: usize = 0;
    while k < needle.len()
        invariant
            n == s@.len(),
            i + needle@.len() <= s@.len(),
            k <= needle@.len(),
            forall|j: int| 0 <= j < k ==> s@[i + j] == needle@[j],
        decreases needle@.len() - k,
    {
        if s[i + k] != needle[k] {
            proof {
                assert(s@.subrange(i as int, i + needle@.len())[k as int] != needle@[k as int]);
            }
            return false;
        }
        k = k + 1;
    }
    proof {
        assert(s@.subrange(i as int, i + needle@.len()) =~= needle@);
    }
    true
}

/// The first index at or after `from` at which `needle` stands in `s`.
pub fn find_from(s: &[char], needle: &[char], from: usize) -> (r: Option<usize>)
    requires
        from <= s@.len(),
    ensures
        match r {
            Some(i) => first_occurrence(s@, needle@, from as int) == Some(i as int) && i
                + needle@.len() <= s@.len(),
            None => first_occurrence(s@, needle@, from as int) is None,
        },
{
    if needle.len() > s.len() {
        return None;
    }
    let last: usize = s.len() - needle.len();
    let mut i: usize = from;
    while i <= last
        invariant
            last + needle@.len() == s@.len(),
            from <= i,
            first_occurrence(s@, needle@, from as int) == first_occurrence(s@, needle@, i as int),
        decreases last + 1 - i,
    {
        if stands_at(s, needle, i) {
            return Some(i);
        }
        if i == last {
            proof {
                assert(first_occurrence(s@, needle@, i + 1) is None);
            }
            return None;
        }
        i = i + 1;
    }
    None
}

/// The pieces of `s` between separators when `current` is the piece that is being read just
/// before it.
pub open spec fn pieces_after(s: Seq<char>, separator: char, current: Seq<char>) -> Seq<Seq<char>>
    decreases s.len(),
{
    if s.len() == 0 {
        seq![current]
    } else if s[0] == separator {
        seq![current] + pieces_after(s.skip(1), separator, Seq::empty())
    } else {
        pieces_after(s.skip(1), separator, current.push(s[0]))
    }
}

/// The pieces of `s` between separators, empty ones too.
pub open spec fn pieces(s: Seq<char>, separator: char) -> Seq<Seq<char>> {
    pieces_after(s, separator, Seq::empty())
}

/// Splits a string at a separator.
pub fn split_pieces(s: &str, separator: char) -> (out: Vec<String>)
    ensures
        texts(out@) == pieces(s@, separator),
{
    let chars = chars_of(s);
    let mut out: Vec<String> = Vec::new();
    let mut start: usize = 0;
    let mut i: usize = 0;
    proof {
        assert(chars@.skip(0) =~= chars@);
        assert(chars@.subrange(0, 0) =~= Seq::<char>::empty());
        assert(texts(out@) =~= Seq::empty());
    }
    while i < chars.len()
        invariant
            start <= i <= chars@.len(),
            texts(out@) + pieces_after(
                chars@.skip(i as int),
                separator,
                chars@.subrange(start as int, i as int),
            ) == pieces(chars@, separator),
        decreases chars@.len() - i,
    {
        let ghost before = texts(out@);
        let ghost current = chars@.subrange(start as int, i as int);
        proof {
            assert(chars@.skip(i as int)[0] == chars@[i as int]);
            assert(chars@.skip(i as int).skip(1) =~= chars@.skip(i + 1));
        }
        if chars[i] == separator {
            let piece = string_of(chars.as_slice(), start, i);
            let ghost prior = out@;
            out.push(piece);
            start = i + 1;
            proof {
                let rest = pieces_after(chars@.skip(i + 1), separator, Seq::empty());
                assert(chars@.subrange(i + 1, i + 1) =~= Seq::<char>::empty());
                assert(texts(out@) =~= before + seq![current]);
                assert((before + seq![current]) + rest =~= before + (seq![current] + rest));
            }
        } else {
            proof {
                assert(chars@.subrange(start as int, i + 1) =~= current.push(chars@[i as int]));
            }
        }
        i = i + 1;
    }
    let piece = string_of(chars.as_slice(), start, i);
    let ghost prior = out@;
    out.push(piece);
    proof {
        assert(texts(out@) =~= texts(prior) + seq![piece@]);
    }
    out
}

/// Whether two texts are equal.
pub fn same_text(a: &str, b: &str) -> (same: bool)
    ensures
        same == (a@ == b@),
{
    let x = chars_of(a);
    let y = chars_of(b);
    if x.len() != y.len() {
        return false;
    }
    let same: bool = stands_at(x.as_slice(), y.as_slice(), 0);
    proof {
        assert(x@.subrange(0, x@.len() as int) =~= x@);
    }
    same
}

// ---------------------------------------------------------------------------
// Decimal numbers
// ---------------------------------------------------------------------------
/// Why a text is not a number.
#[derive(Clone, Copy, Debug, PartialEq, Eq, Structural)]
pub enum NumberFault {
    /// The text is empty.
    Empty,
    /// A character is not a digit.
    InvalidDigit,
    /// The number is above the largest value of its type.
    TooLarge,
    /// The number is below the smallest value of its type.
    TooSmall,
}

impl NumberFault {
    /// What is wrong, in words.
    pub open spec fn words(self) -> Seq<char> {
        match self {
            NumberFault::Empty => "cannot parse integer from empty string"@,
            NumberFault::InvalidDigit => "invalid digit found in string"@,
            NumberFault::TooLarge => "number too large to fit in target type"@,
            NumberFault::TooSmall => "number too small to fit in target type"@,
        }
    }

    /// What is wrong, in words.
    pub fn message(self) -> (s: &'static str)
        ensures
            s@ == self.words(),
    {
        match self {
            NumberFault::Empty => "cannot parse integer from empty string",
            NumberFault::InvalidDigit => "invalid digit found in string",
            NumberFault::TooLarge => "number too large to fit in target type",
            NumberFault::TooSmall => "number too small to fit in target type",
        }
    }
}

/// Whether `c` is one of `0` to `9`.
pub open spec fn is_digit(c: char) -> bool {
    '0' <= c <= '9'
}

/// The value of a digit.
pub open spec fn digit_value(c: char) -> int {
    c as int - '0' as int
}

/// The number that the digits `s` spell after a prefix worth `acc`, if it stays at most `max`.
pub open spec fn magnitude(s: Seq<char>, acc: int, max: int) -> Result<int, NumberFault>
    decreases s.len(),
{
    if s.len() == 0 {
        Ok(acc)
    } else if !is_digit(s[0]) {
        Err(NumberFault::InvalidDigit)
    } else if acc * 10 + digit_value(s[0]) > max {
        Err(NumberFault::TooLarge)
    } else {
        magnitude(s.skip(1), acc * 10 + digit_value(s[0]), max)
    }
}

/// The unsigned number that `s` spells: an optional `+`, then at least one digit.
pub open spec fn unsigned_value(s: Seq<char>, max: int) -> Result<int, NumberFault> {
    if s.len() == 0 {
        Err(NumberFault::Empty)
    } else if s.len() > 1 && s[0] == '+' {
        magnitude(s.skip(1), 0, max)
    } else {
        magnitude(s, 0, max)
    }
}

/// The signed number that `s` spells: an optional `+` or `-`, then at least one digit.
pub open spec fn signed_value(s: Seq<char>, min: int, max: int) -> Result<int, NumberFault> {
    if s.len() > 1 && s[0] == '-' {
        match magnitude(s.skip(1), 0, -min) {
            Ok(m) => Ok(-m),
            Err(NumberFault::TooLarge) => Err(NumberFault::TooSmall),
            Err(e) => Err(e),
        }
    } else {
        unsigned_value(s, max)
    }
}

/// The value of `chars[lo..]` as digits, if it is at most `max`.
fn read_digits(chars: &[char], lo: usize, max: u64) -> (r: Result<u64, NumberFault>)
    requires
        lo <= chars@.len(),
    ensures
        match r {
            Ok(n) => magnitude(chars@.skip(lo as int), 0, max as int) == Ok::<int, NumberFault>(
                n as int,
            ) && n <= max,
            Err(e) => magnitude(chars@.skip(lo as int), 0, max as int) == Err::<int, NumberFault>(
                e,
            ),
        },
{
    let mut acc: u64 = 0;
    let mut i: usize = lo;
    while i < chars.len()
        invariant
            lo <= i <= chars@.len(),
            acc <= max,
            magnitude(chars@.skip(lo as int), 0, max as int) == magnitude(
                chars@.skip(i as int),
                acc as int,
                max as int,
            ),
        decreases chars@.len() - i,
    {
        proof {
            assert(chars@.skip(i as int)[0] == chars@[i as int]);
            assert(chars@.skip(i as int).skip(1) =~= chars@.skip(i + 1));
        }
        let c = chars[i];
        if !('0' <= c && c <= '9') {
            return Err(NumberFault::InvalidDigit);
        }
        let d: u64 = (c as u64) - 48;
        if acc > max / 10 || d > max - acc * 10 {
            return Err(NumberFault::TooLarge);
        }
        acc = acc * 10 + d;
        i = i + 1;
    }
    Ok(acc)
}

/// The unsigned number that `s` spells, if it is at most `max`.
pub fn parse_unsigned(s: &str, max: u64) -> (r: Result<u64, NumberFault>)
    ensures
        match r {
            Ok(n) => unsigned_value(s@, max as int) == Ok::<int, NumberFault>(n as int) && n <= max,
            Err(e) => unsigned_value(s@, max as int) == Err::<int, NumberFault>(e),
        },
{
    let chars = chars_of(s);
    if chars.len() == 0 {
        Err(NumberFault::Empty)
    } else if chars.len() > 1 && chars[0] == '+' {
        read_digits(chars.as_slice(), 1, max)
    } else {
        proof {
            assert(chars@.skip(0) =~= chars@);
        }
        read_digits(chars.as_slice(), 0, max)
    }
}

/// The `usize` that `s` spells.
pub fn parse_usize(s: &str) -> (r: Result<usize, NumberFault>)
    ensures
        match r {
            Ok(n) => unsigned_value(s@, usize::MAX as int) == Ok::<int, NumberFault>(n as int),
            Err(e) => unsigned_value(s@, usize::MAX as int) == Err::<int, NumberFault>(e),
        },
{
    match parse_unsigned(s, usize::MAX as u64) {
        Ok(n) => Ok(n as usize),
        Err(e) => Err(e),
    }
}

/// The `i32` that `s` spells.
pub fn parse_i32(s: &str) -> (r: Result<i32, NumberFault>)
    ensures
        match r {
            Ok(n) => signed_value(s@, i32::MIN as int, i32::MAX as int) == Ok::<int, NumberFault>(
                n as int,
            ),
            Err(e) => signed_value(s@, i32::MIN as int, i32::MAX as int) == Err::<int, NumberFault>(
                e,
            ),
        },
{
    let chars = chars_of(s);
    if chars.len() > 1 && chars[0] == '-' {
        match read_digits(chars.as_slice(), 1, 2147483648) {
            Ok(m) => Ok((-(m as i64)) as i32),
            Err(NumberFault::TooLarge) => Err(NumberFault::TooSmall),
            Err(e) => Err(e),
        }
    } else {
        match parse_unsigned(s, 2147483647) {
            Ok(n) => Ok(n as i32),
            Err(e) => Err(e),
        }
    }
}

/// The decimal digits of `n`.
pub open spec fn decimal(n: nat) -> Seq<char>
    decreases n,
{
    if n < 10 {
        seq![('0' as u32 + n as u32) as char]
    } else {
        decimal(n / 10).push(('0' as u32 + (n % 10) as u32) as char)
    }
}

/// The decimal digits of `n`.
pub fn decimal_string(n: usize) -> (s: String)
    ensures
        s@ == decimal(n as nat),
    decreases n,
{
    let digit: char = (48u8 + (n % 10) as u8) as char;
    if n < 10 {
        let mut s = String::new();
        s.push(digit);
        proof {
            assert(s@ =~= decimal(n as nat));
        }
        s
    } else {
        let mut s = decimal_string(n / 10);
        s.push(digit);
        s
    }
}

} // verus!
