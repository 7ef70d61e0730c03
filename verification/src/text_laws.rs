//! What holds of texts: numbers are read as they are written, trimming takes white space and
//! nothing else, and words and pieces can be put behind each other.

use vstd::prelude::*;

use crate::llm_bandits::{
    accuracy_of, amount_run, answer_of, digit_run, in_amount, last_piece, numbers_from,
    predicted_answer, without,
};
use crate::text::{
    decimal, digit_value, first_occurrence, is_digit, is_white, lemma_first_occurrence, magnitude,
    pieces, pieces_after, signed_value, trimmed, trimmed_end, trimmed_start, unsigned_value, words,
    words_after, NumberFault,
};

verus! {

// ---------------------------------------------------------------------------
// Numbers
// ---------------------------------------------------------------------------
proof fn one_more_digit(s: Seq<char>, c: char, acc: int, max: int)
    requires
        is_digit(c),
    ensures
        magnitude(s.push(c), acc, max) == (match magnitude(s, acc, max) {
            Ok(v) => if v * 10 + digit_value(c) > max {
                Err(NumberFault::TooLarge)
            } else {
                Ok(v * 10 + digit_value(c))
            },
            Err(e) => Err(e),
        }),
    decreases s.len(),
{
    reveal_with_fuel(magnitude, 2);
    if s.len() > 0 {
        assert(s.push(c)[0] == s[0]);
        assert(s.push(c).skip(1) =~= s.skip(1).push(c));
        if is_digit(s[0]) && acc * 10 + digit_value(s[0]) <= max {
            one_more_digit(s.skip(1), c, acc * 10 + digit_value(s[0]), max);
        }
    } else {
        assert(s.push(c).skip(1) =~= Seq::empty());
    }
}

proof fn digits_are_read(n: nat, max: int)
    requires
        0 <= max,
    ensures
        decimal(n).len() > 0,
        forall|i: int| 0 <= i < decimal(n).len() ==> is_digit(#[trigger] decimal(n)[i]),
        magnitude(decimal(n), 0, max) == (if n <= max {
            Ok::<int, NumberFault>(n as int)
        } else {
            Err(NumberFault::TooLarge)
        }),
    decreases n,
{
    let d = (n % 10) as u32;
    let c = ('0' as u32 + d) as char;
    assert(is_digit(c) && digit_value(c) == n % 10);
    if n < 10 {
        assert(decimal(n) =~= Seq::<char>::empty().push(c));
        one_more_digit(Seq::empty(), c, 0, max);
    } else {
        digits_are_read(n / 10, max);
        one_more_digit(decimal(n / 10), c, 0, max);
    }
}

/// Numbers are read as they are written: the decimal digits of a number are read as the number,
/// with a plus sign too, and behind a minus sign as its opposite. What is beyond the limits is
/// refused as too large or too small.
pub proof fn numbers_are_read_as_written(n: nat, min: int, max: int)
    requires
        min <= 0 <= max,
    ensures
        unsigned_value(decimal(n), max) == (if n <= max {
            Ok::<int, NumberFault>(n as int)
        } else {
            Err(NumberFault::TooLarge)
        }),
        unsigned_value(seq!['+'] + decimal(n), max) == unsigned_value(decimal(n), max),
        signed_value(decimal(n), min, max) == unsigned_value(decimal(n), max),
        signed_value(seq!['+'] + decimal(n), min, max) == unsigned_value(decimal(n), max),
        signed_value(seq!['-'] + decimal(n), min, max) == (if n <= -min {
            Ok::<int, NumberFault>(-(n as int))
        } else {
            Err(NumberFault::TooSmall)
        }),
{
    digits_are_read(n, max);
    digits_are_read(n, -min);
    assert(is_digit(decimal(n)[0]));
    let (plus, minus) = (seq!['+'] + decimal(n), seq!['-'] + decimal(n));
    assert(plus[0] == '+' && minus[0] == '-');
    assert(plus.skip(1) =~= decimal(n));
    assert(minus.skip(1) =~= decimal(n));
}

/// What is read is within the limits, and is spelled by digits alone but for a sign.
pub proof fn read_numbers_are_digits(s: Seq<char>, acc: int, max: int)
    requires
        0 <= acc <= max,
    ensures
        match magnitude(s, acc, max) {
            Ok(v) => 0 <= v <= max && forall|i: int| 0 <= i < s.len() ==> is_digit(#[trigger] s[i]),
            Err(e) => e == NumberFault::TooLarge || e == NumberFault::InvalidDigit,
        },
    decreases s.len(),
{
    if s.len() > 0 && is_digit(s[0]) && acc * 10 + digit_value(s[0]) <= max {
        read_numbers_are_digits(s.skip(1), acc * 10 + digit_value(s[0]), max);
        assert forall|i: int|
            magnitude(s, acc, max) is Ok && 0 <= i < s.len() implies is_digit(#[trigger] s[i]) by {
            if i > 0 {
                assert(s.skip(1)[i - 1] == s[i]);
            }
        }
    }
}

// ---------------------------------------------------------------------------
// White space
// ---------------------------------------------------------------------------
proof fn start_is_trimmed(s: Seq<char>) -> (lo: int)
    ensures
        0 <= lo <= s.len(),
        trimmed_start(s) == s.skip(lo),
        forall|i: int| 0 <= i < lo ==> is_white(#[trigger] s[i]),
        lo < s.len() ==> !is_white(s[lo]),
    decreases s.len(),
{
    if s.len() > 0 && is_white(s[0]) {
        let k = start_is_trimmed(s.skip(1));
        assert(s.skip(1).skip(k) =~= s.skip(k + 1));
        assert forall|i: int| 0 <= i < k + 1 implies is_white(#[trigger] s[i]) by {
            if i > 0 {
                assert(s.skip(1)[i - 1] == s[i]);
            }
        }
        k + 1
    } else {
        assert(s.skip(0) =~= s);
        0
    }
}

proof fn end_is_trimmed(s: Seq<char>) -> (hi: int)
    ensures
        0 <= hi <= s.len(),
        trimmed_end(s) == s.take(hi),
        forall|i: int| hi <= i < s.len() ==> is_white(#[trigger] s[i]),
        0 < hi ==> !is_white(s[hi - 1]),
    decreases s.len(),
{
    if s.len() > 0 && is_white(s.last()) {
        let k = end_is_trimmed(s.drop_last());
        assert(s.drop_last().take(k) =~= s.take(k));
        assert forall|i: int| k <= i < s.len() implies is_white(#[trigger] s[i]) by {
            if i < s.len() - 1 {
                assert(s.drop_last()[i] == s[i]);
            }
        }
        k
    } else {
        assert(s.take(s.len() as int) =~= s);
        s.len() as int
    }
}

/// Trimming takes white space from both ends and nothing else: what is left stands in the text,
/// between two runs of white space, and neither begins nor ends with white space.
pub proof fn trimming_takes_white_space(s: Seq<char>) -> (range: (int, int))
    ensures
        0 <= range.0 <= range.1 <= s.len(),
        trimmed(s) == s.subrange(range.0, range.1),
        forall|i: int| 0 <= i < range.0 || range.1 <= i < s.len() ==> is_white(#[trigger] s[i]),
        trimmed(s).len() > 0 ==> !is_white(trimmed(s)[0]) && !is_white(trimmed(s).last()),
{
    let lo = start_is_trimmed(s);
    let rest = s.skip(lo);
    let k = end_is_trimmed(rest);
    assert(rest.take(k) =~= s.subrange(lo, lo + k));
    assert forall|i: int| 0 <= i < lo || lo + k <= i < s.len() implies is_white(
        #[trigger] s[i],
    ) by {
        if i >= lo {
            assert(rest[i - lo] == s[i]);
        }
    }
    if k > 0 {
        assert(rest[k - 1] == s[lo + k - 1]);
    }
    (lo, lo + k)
}

/// A text without white space at its ends is left as it is; so trimming twice is trimming once.
pub proof fn trimming_once_is_enough(s: Seq<char>)
    ensures
        trimmed(trimmed(s)) == trimmed(s),
        s.len() > 0 && !is_white(s[0]) && !is_white(s.last()) ==> trimmed(s) == s,
{
    let range = trimming_takes_white_space(s);
    let t = trimmed(s);
    assert(trimmed(t) == t);
}

// ---------------------------------------------------------------------------
// Words and pieces
// ---------------------------------------------------------------------------
proof fn words_behind(a: Seq<char>, w: char, b: Seq<char>, current: Seq<char>)
    requires
        is_white(w),
    ensures
        words_after(a + seq![w] + b, current) == words_after(a, current) + words(b),
    decreases a.len(),
{
    let all = a + seq![w] + b;
    if a.len() == 0 {
        assert(all[0] == w);
        assert(all.skip(1) =~= b);
    } else {
        assert(all[0] == a[0]);
        assert(all.skip(1) =~= a.skip(1) + seq![w] + b);
        if is_white(a[0]) {
            words_behind(a.skip(1), w, b, Seq::empty());
            let finished = if current.len() == 0 {
                Seq::empty()
            } else {
                seq![current]
            };
            assert(finished + (words_after(a.skip(1), Seq::empty()) + words(b)) =~= (finished
                + words_after(a.skip(1), Seq::empty())) + words(b));
        } else {
            words_behind(a.skip(1), w, b, current.push(a[0]));
        }
    }
}

proof fn one_word(s: Seq<char>, current: Seq<char>)
    requires
        forall|i: int| 0 <= i < s.len() ==> !is_white(#[trigger] s[i]),
        (current + s).len() > 0,
    ensures
        words_after(s, current) == seq![current + s],
    decreases s.len(),
{
    if s.len() == 0 {
        assert(current + s =~= current);
    } else {
        assert forall|i: int| 0 <= i < s.skip(1).len() implies !is_white(
            #[trigger] s.skip(1)[i],
        ) by {
            assert(s.skip(1)[i] == s[i + 1]);
        }
        one_word(s.skip(1), current.push(s[0]));
        assert(current.push(s[0]) + s.skip(1) =~= current + s);
    }
}

/// White space parts words: the words of two texts with white space between them are those of the
/// first, then those of the second; a text without white space is one word.
pub proof fn white_space_parts_words(a: Seq<char>, w: char, b: Seq<char>)
    requires
        is_white(w),
    ensures
        words(a + seq![w] + b) == words(a) + words(b),
        a.len() > 0 && (forall|i: int| 0 <= i < a.len() ==> !is_white(#[trigger] a[i])) ==> words(a)
            == seq![a],
        words(Seq::empty()) == Seq::<Seq<char>>::empty(),
{
    words_behind(a, w, b, Seq::empty());
    if a.len() > 0 && (forall|i: int| 0 <= i < a.len() ==> !is_white(#[trigger] a[i])) {
        one_word(a, Seq::empty());
        assert(Seq::<char>::empty() + a =~= a);
    }
}

proof fn pieces_behind(a: Seq<char>, separator: char, b: Seq<char>, current: Seq<char>)
    ensures
        pieces_after(a + seq![separator] + b, separator, current) == pieces_after(
            a,
            separator,
            current,
        ) + pieces(b, separator),
    decreases a.len(),
{
    let all = a + seq![separator] + b;
    if a.len() == 0 {
        assert(all[0] == separator);
        assert(all.skip(1) =~= b);
    } else {
        assert(all[0] == a[0]);
        assert(all.skip(1) =~= a.skip(1) + seq![separator] + b);
        if a[0] == separator {
            pieces_behind(a.skip(1), separator, b, Seq::empty());
            let rest = pieces_after(a.skip(1), separator, Seq::empty());
            assert(seq![current] + (rest + pieces(b, separator)) =~= (seq![current] + rest)
                + pieces(b, separator));
        } else {
            pieces_behind(a.skip(1), separator, b, current.push(a[0]));
        }
    }
}

proof fn one_piece(s: Seq<char>, separator: char, current: Seq<char>)
    requires
        forall|i: int| 0 <= i < s.len() ==> #[trigger] s[i] != separator,
    ensures
        pieces_after(s, separator, current) == seq![current + s],
    decreases s.len(),
{
    if s.len() == 0 {
        assert(current + s =~= current);
    } else {
        assert forall|i: int| 0 <= i < s.skip(1).len() implies #[trigger] s.skip(1)[i]
            != separator by {
            assert(s.skip(1)[i] == s[i + 1]);
        }
        one_piece(s.skip(1), separator, current.push(s[0]));
        assert(current.push(s[0]) + s.skip(1) =~= current + s);
    }
}

/// Separators part pieces: the pieces of two texts with a separator between them are those of the
/// first, then those of the second; a text without separators, empty or not, is one piece.
pub proof fn separators_part_pieces(a: Seq<char>, separator: char, b: Seq<char>)
    ensures
        pieces(a + seq![separator] + b, separator) == pieces(a, separator) + pieces(b, separator),
        (forall|i: int| 0 <= i < a.len() ==> #[trigger] a[i] != separator) ==> pieces(a, separator)
            == seq![a],
{
    pieces_behind(a, separator, b, Seq::empty());
    if forall|i: int| 0 <= i < a.len() ==> #[trigger] a[i] != separator {
        one_piece(a, separator, Seq::empty());
        assert(Seq::<char>::empty() + a =~= a);
    }
}

// ---------------------------------------------------------------------------
// Answers
// ---------------------------------------------------------------------------
proof fn digits_run_on(s: Seq<char>, i: int)
    requires
        0 <= i <= s.len(),
        forall|k: int| 0 <= k < s.len() ==> is_digit(#[trigger] s[k]),
    ensures
        digit_run(s, i) == s.len() - i,
        amount_run(s, i) == s.len() - i,
    decreases s.len() - i,
{
    if i < s.len() {
        assert(is_digit(s[i]));
        digits_run_on(s, i + 1);
    }
}

/// A written number is found: the numbers of a text that is a number, or a number behind a minus
/// sign, are this one.
pub proof fn written_numbers_are_found(n: nat)
    ensures
        numbers_from(decimal(n), 0) == seq![decimal(n)],
        numbers_from(seq!['-'] + decimal(n), 0) == seq![seq!['-'] + decimal(n)],
{
    digits_are_read(n, n as int);
    let s = decimal(n);
    digits_run_on(s, 0);
    assert(is_digit(s[0]));
    assert(s.subrange(0, s.len() as int) =~= s);
    reveal_with_fuel(numbers_from, 2);
    assert(seq![s] + Seq::<Seq<char>>::empty() =~= seq![s]);
    let t = seq!['-'] + s;
    assert(t[0] == '-');
    minus_runs_on(s, 0);
    assert(t.subrange(0, t.len() as int) =~= t);
    assert(seq![t] + Seq::<Seq<char>>::empty() =~= seq![t]);
}

proof fn minus_runs_on(s: Seq<char>, i: int)
    requires
        0 <= i <= s.len(),
        forall|k: int| 0 <= k < s.len() ==> is_digit(#[trigger] s[k]),
    ensures
        digit_run(seq!['-'] + s, i + 1) == s.len() - i,
        amount_run(seq!['-'] + s, i + 1) == s.len() - i,
    decreases s.len() - i,
{
    let t = seq!['-'] + s;
    if i < s.len() {
        assert(t[i + 1] == s[i]);
        minus_runs_on(s, i + 1);
    }
}

/// A text without the first character of a separator is its own last piece.
proof fn no_separator(s: Seq<char>, separator: Seq<char>)
    requires
        separator.len() > 0,
        forall|i: int| 0 <= i < s.len() ==> #[trigger] s[i] != separator[0],
    ensures
        last_piece(s, separator) == s,
{
    lemma_first_occurrence(s, separator, 0);
    if let Some(i) = first_occurrence(s, separator, 0) {
        assert(s.subrange(i, i + separator.len())[0] == s[i]);
    }
}

/// A written number is the answer: a text that is a number answers with this number.
pub proof fn written_numbers_are_answers(n: nat)
    ensures
        predicted_answer(decimal(n)) == Some(decimal(n)),
{
    let s = decimal(n);
    written_numbers_are_found(n);
    digits_are_read(n, n as int);
    assert(is_digit(s[0]) && is_digit(s.last()));
    trimming_once_is_enough(s);
    assert forall|i: int| 0 <= i < s.len() implies #[trigger] s[i] != ',' && s[i] != '$' && s[i]
        != '#' by {
        assert(is_digit(s[i]));
    }
    nothing_removed(s, ',');
    nothing_removed(s, '$');
    no_separator(s, seq!['#', '#', '#', '#', ' ']);
    assert(seq![s].last() == s);
}

/// Only the last number counts: whatever numbers stand before it, the answer is that of the last.
pub proof fn only_the_last_number_counts(before: Seq<Seq<char>>, last: Seq<char>)
    ensures
        answer_of(before.push(last)) == answer_of(seq![last]),
        answer_of(Seq::empty()) == None::<Seq<char>>,
{
    assert(before.push(last).last() == last && seq![last].last() == last);
}

/// Right answers score: a text that is a number scores one against a solution that ends, behind
/// the marker, with the same number, and zero against every other number.
pub proof fn right_answers_score(n: nat, m: nat)
    ensures
        accuracy_of(decimal(n), seq!['#', '#', '#', '#', ' '] + decimal(m)) == (if n == m {
            1u8
        } else {
            0u8
        }),
{
    let (s, t) = (decimal(n), decimal(m));
    written_numbers_are_answers(n);
    digits_are_read(n, n as int + m);
    digits_are_read(m, n as int + m);
    assert(is_digit(s[0]) && is_digit(s.last()));
    trimming_once_is_enough(s);
    let marker = seq!['#', '#', '#', '#'];
    let solution = seq!['#', '#', '#', '#', ' '] + t;
    let rest = seq![' '] + t;
    assert(solution.subrange(0, 4) =~= marker);
    assert(first_occurrence(solution, marker, 0) == Some(0int));
    assert(solution.skip(4) =~= rest);
    assert forall|i: int| 0 <= i < rest.len() implies #[trigger] rest[i] != '#' by {
        if i > 0 {
            assert(is_digit(t[i - 1]));
        }
    }
    no_separator(rest, marker);
    assert(rest[0] == ' ');
    assert(rest.skip(1) =~= t);
    assert(is_digit(t[0]) && is_digit(t.last()));
    assert(trimmed_start(rest) == trimmed_start(t));
    trimming_once_is_enough(t);
}

/// Where nothing can stand in an amount there is no number.
pub proof fn other_texts_have_no_numbers(s: Seq<char>, i: int)
    requires
        0 <= i,
        forall|k: int| 0 <= k < s.len() ==> !in_amount(#[trigger] s[k]),
    ensures
        numbers_from(s, i) == Seq::<Seq<char>>::empty(),
    decreases s.len() - i,
{
    if i < s.len() {
        other_texts_have_no_numbers(s, i + 1);
    }
}

/// A removed character is gone, and nothing else is: what is left has no such character, and what
/// was left of two texts stands behind each other.
pub proof fn removed_characters_are_gone(s: Seq<char>, t: Seq<char>, c: char)
    ensures
        forall|i: int| 0 <= i < without(s, c).len() ==> #[trigger] without(s, c)[i] != c,
        without(s + t, c) == without(s, c) + without(t, c),
        (forall|i: int| 0 <= i < s.len() ==> #[trigger] s[i] != c) ==> without(s, c) == s,
{
    none_left(s, c);
    Seq::filter_distributes_over_add(s, t, |x: char| x != c);
    if forall|i: int| 0 <= i < s.len() ==> #[trigger] s[i] != c {
        nothing_removed(s, c);
    }
}

proof fn none_left(s: Seq<char>, c: char)
    ensures
        forall|i: int| 0 <= i < without(s, c).len() ==> #[trigger] without(s, c)[i] != c,
    decreases s.len(),
{
    reveal(Seq::filter);
    if s.len() > 0 {
        none_left(s.drop_last(), c);
        let before = without(s.drop_last(), c);
        assert(without(s, c) =~= if s.last() != c {
            before.push(s.last())
        } else {
            before
        });
    }
}

proof fn nothing_removed(s: Seq<char>, c: char)
    requires
        forall|i: int| 0 <= i < s.len() ==> #[trigger] s[i] != c,
    ensures
        without(s, c) == s,
    decreases s.len(),
{
    let keep = |x: char| x != c;
    reveal(Seq::filter);
    if s.len() > 0 {
        nothing_removed(s.drop_last(), c);
        assert(s.last() != c);
        assert(s.drop_last().push(s.last()) =~= s);
    } else {
        assert(s.filter(keep) =~= s);
    }
}

} // verus!
