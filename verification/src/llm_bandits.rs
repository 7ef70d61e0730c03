//! Scoring of language-model answers: prompt shaping, answer extraction and
//! comparison with the ground truth.

use vstd::prelude::*;

use crate::text::{
    chars_of, find_from, first_occurrence, optional_text, string_of, texts, trim, trimmed,
};

verus! {

// ---------------------------------------------------------------------------
// Prompts
// ---------------------------------------------------------------------------
/// `prompt` cut to `length` tokens, then filled up with zeros.
pub open spec fn padded(prompt: Seq<i64>, length: nat) -> Seq<i64> {
    Seq::new(
        length,
        |i: int|
            if i < prompt.len() {
                prompt[i]
            } else {
                0
            },
    )
}

/// Truncates `prompt` to `generation_length` tokens and right-pads with zeros, so that the
/// result has exactly `generation_length` tokens.
pub fn get_padded_prompt(prompt: &[i64], generation_length: usize) -> (out: Vec<i64>)
    ensures
        out@ == padded(prompt@, generation_length as nat),
{
    let mut out: Vec<i64> = Vec::new();
    let mut i: usize = 0;
    while i < generation_length
        invariant
            i <= generation_length,
            out@.len() == i,
            forall|j: int|
                0 <= j < i ==> out@[j] == padded(prompt@, generation_length as nat)[j],
        decreases generation_length - i,
    {
        if i < prompt.len() {
            out.push(prompt[i]);
        } else {
            out.push(0);
        }
        i = i + 1;
    }
    proof {
        assert(out@ =~= padded(prompt@, generation_length as nat));
    }
    out
}

/// Padding twice to one length changes nothing more.
pub proof fn padding_is_idempotent(prompt: Seq<i64>, length: nat)
    ensures
        padded(prompt, length).len() == length,
        padded(padded(prompt, length), length) == padded(prompt, length),
{
    assert(padded(padded(prompt, length), length) =~= padded(prompt, length));
}

/// The prompt that asks for reasoning before an answer to `question`.
pub fn make_rg_prompt(question: &str) -> (prompt: String)
    ensures
        prompt@
            == "User: You are a helpful assistant. You first think about the reasoning process in your mind and then provide the user with the answer. Question: "@
            + question@ + ". Assistant: <think"@,
{
    let mut prompt = String::from_str(
        "User: You are a helpful assistant. You first think about the reasoning process in your mind and then provide the user with the answer. Question: ",
    );
    prompt.append(question);
    prompt.append(". Assistant: <think");
    prompt
}

// ---------------------------------------------------------------------------
// The response marker
// ---------------------------------------------------------------------------
/// What follows the first response marker, if there is one.
pub open spec fn after_marker(txt: Seq<char>) -> Option<Seq<char>> {
    match first_occurrence(txt, " response"@, 0) {
        Some(i) => Some(txt.skip(i + " response"@.len())),
        None => None,
    }
}

/// The index just behind the first response marker.
fn marker_end(txt: &str) -> (r: Option<usize>)
    ensures
        match r {
            Some(i) => i <= txt@.len() && after_marker(txt@) == Some(txt@.skip(i as int)),
            None => after_marker(txt@) is None,
        },
{
    let chars = chars_of(txt);
    let marker = chars_of(" response");
    let n: usize = chars.len();
    match find_from(chars.as_slice(), marker.as_slice(), 0) {
        Some(i) => {
            proof {
                assert(i + marker@.len() <= n);
            }
            Some(i + marker.len())
        },
        None => None,
    }
}

/// The text after the first `" response"`, or the whole input where there is none.
pub fn strip_thoughts(txt: &str) -> (rest: &str)
    ensures
        rest@ == (match after_marker(txt@) {
            Some(suffix) => suffix,
            None => txt@,
        }),
{
    match marker_end(txt) {
        Some(i) => {
            let n: usize = txt.unicode_len();
            proof {
                assert(txt@.subrange(i as int, n as int) =~= txt@.skip(i as int));
            }
            txt.substring_char(i, n)
        },
        None => txt,
    }
}

// ---------------------------------------------------------------------------
// Answers
// ---------------------------------------------------------------------------
/// Whether a character can stand in an amount: a digit, a currency sign, a period or a comma.
pub open spec fn in_amount(c: char) -> bool {
    '0' <= c <= '9' || c == '$' || c == '.' || c == ','
}

/// How many characters in a row, from `i` on, can stand in an amount.
pub open spec fn amount_run(s: Seq<char>, i: int) -> int
    decreases s.len() - i,
{
    if 0 <= i < s.len() && in_amount(s[i]) {
        1 + amount_run(s, i + 1)
    } else {
        0
    }
}

/// How many digits in a row stand from `i` on.
pub open spec fn digit_run(s: Seq<char>, i: int) -> int
    decreases s.len() - i,
{
    if 0 <= i < s.len() && '0' <= s[i] <= '9' {
        1 + digit_run(s, i + 1)
    } else {
        0
    }
}

/// The length of the number at `i`, zero where there is none: a minus sign, if there is one, and
/// as much of an amount as there is, at least two characters; failing that, all digits.
pub open spec fn number_len(s: Seq<char>, i: int) -> int {
    let start = if 0 <= i < s.len() && s[i] == '-' {
        i + 1
    } else {
        i
    };
    if amount_run(s, start) >= 2 {
        start - i + amount_run(s, start)
    } else if digit_run(s, start) >= 1 {
        start - i + digit_run(s, start)
    } else {
        0
    }
}

/// The numbers of a text from `i` on, read from the left without overlaps.
pub open spec fn numbers_from(s: Seq<char>, i: int) -> Seq<Seq<char>>
    decreases s.len() - i,
{
    let n = number_len(s, i);
    if i < 0 || i >= s.len() {
        Seq::empty()
    } else if 0 < n <= s.len() - i {
        seq![s.subrange(i, i + n)] + numbers_from(s, i + n)
    } else {
        numbers_from(s, i + 1)
    }
}

/// Trusted: `regex::Regex::find_iter`, on an expression that `regex::Regex::new` compiles, gives
/// the texts of the successive leftmost matches. For `(-?[$0-9.,]{2,})|(-?[0-9]+)`, where the
/// first alternative is preferred and repetitions are greedy, they are the numbers of the text.
#[verifier::external_body]
fn find_matches(pattern: &str, text: &str) -> (found: Vec<String>)
    requires
        pattern@ == "(-?[$0-9.,]{2,})|(-?[0-9]+)"@,
    ensures
        texts(found@) == numbers_from(text@, 0),
{
    let expression = regex::Regex::new(pattern).unwrap();
    expression.find_iter(text).map(|m| m.as_str().to_string()).collect()
}

/// A text without a character.
pub open spec fn without(s: Seq<char>, c: char) -> Seq<char> {
    s.filter(|x: char| x != c)
}

/// What follows the last of the separators, read from the left without overlaps.
pub open spec fn last_piece(text: Seq<char>, separator: Seq<char>) -> Seq<char>
    decreases text.len(),
{
    match first_occurrence(text, separator, 0) {
        Some(i) => if 0 <= i <= text.len() - separator.len() && 0 < separator.len() {
            last_piece(text.skip(i + separator.len()), separator)
        } else {
            text
        },
        None => text,
    }
}

/// A text without its last character, if that is a period.
pub open spec fn without_final_period(s: Seq<char>) -> Seq<char> {
    if s.len() > 0 && s.last() == '.' {
        s.drop_last()
    } else {
        s
    }
}

/// Trusted: `regex::Regex::replace_all` with an empty replacement, on an expression that
/// `regex::Regex::new` compiles, removes every match: all commas; all currency signs; everything
/// up to the last `"#### "`, which the greedy `.*` reaches over line ends too; a period at the
/// very end.
#[verifier::external_body]
fn remove_matches(pattern: &str, text: &str) -> (rest: String)
    requires
        pattern@ == ","@ || pattern@ == "\\$"@ || pattern@ == "(?s).*#### "@ || pattern@
            == "\\.$"@,
    ensures
        pattern@ == ","@ ==> rest@ == without(text@, ','),
        pattern@ == "\\$"@ ==> rest@ == without(text@, '$'),
        pattern@ == "(?s).*#### "@ ==> rest@ == last_piece(text@, seq!['#', '#', '#', '#', ' ']),
        pattern@ == "\\.$"@ ==> rest@ == without_final_period(text@),
{
    let expression = regex::Regex::new(pattern).unwrap();
    expression.replace_all(text, "").into_owned()
}

/// A matched number without separators, currency signs, a leading marker and a final period,
/// removed in this order.
pub open spec fn cleaned(matched: Seq<char>) -> Seq<char> {
    without_final_period(
        last_piece(
            without(without(trimmed(matched), ','), '$'),
            seq!['#', '#', '#', '#', ' '],
        ),
    )
}

/// The answer that the matches of a text give: the last one, cleaned up; none without a match.
pub open spec fn answer_of(matches: Seq<Seq<char>>) -> Option<Seq<char>> {
    if matches.len() == 0 {
        None
    } else {
        Some(cleaned(matches.last()))
    }
}

/// The answer that a text gives.
pub open spec fn predicted_answer(text: Seq<char>) -> Option<Seq<char>> {
    answer_of(numbers_from(text, 0))
}

/// The answer that the matches of a text give: the last one, cleaned up; none without a match.
pub fn answer_from_matches(matches: &[String]) -> (answer: Option<String>)
    ensures
        optional_text(answer) == answer_of(texts(matches@)),
{
    if matches.len() == 0 {
        return None;
    }
    let last: &String = &matches[matches.len() - 1];
    let mut text = trim(last.as_str());
    text = remove_matches(",", text.as_str());
    text = remove_matches("\\$", text.as_str());
    text = remove_matches("(?s).*#### ", text.as_str());
    text = remove_matches("\\.$", text.as_str());
    Some(text)
}

/// Extracts the last number-like token of `text` and cleans it up.
pub fn extract_predicted_answer(text: &str) -> (answer: Option<String>)
    ensures
        optional_text(answer) == predicted_answer(text@),
{
    let matches = find_matches("(-?[$0-9.,]{2,})|(-?[0-9]+)", text);
    answer_from_matches(matches.as_slice())
}

/// The trimmed text after the last `"####"`.
pub fn extract_ground_truth(text: &str) -> (truth: String)
    ensures
        truth@ == trimmed(last_piece(text@, seq!['#', '#', '#', '#'])),
{
    let chars = chars_of(text);
    let separator: [char; 4] = ['#', '#', '#', '#'];
    proof {
        assert(separator@ =~= seq!['#', '#', '#', '#']);
        assert(chars@.skip(0) =~= chars@);
    }
    let n: usize = chars.len();
    let mut start: usize = 0;
    loop
        invariant
            n == chars@.len(),
            start <= chars@.len(),
            separator@ == seq!['#', '#', '#', '#'],
            last_piece(text@, separator@) == last_piece(chars@.skip(start as int), separator@),
        ensures
            start <= chars@.len(),
            last_piece(text@, separator@) == chars@.skip(start as int),
        decreases chars@.len() - start,
    {
        match find_from(chars.as_slice(), &separator, start) {
            Some(i) => {
                proof {
                    occurrence_in_suffix(chars@, separator@, start as int, start as int);
                    crate::text::lemma_first_occurrence(chars@, separator@, start as int);
                    assert(chars@.skip(start as int).skip(i - start + 4) =~= chars@.skip(i + 4));
                }
                start = i + 4;
            },
            None => {
                proof {
                    occurrence_in_suffix(chars@, separator@, start as int, start as int);
                }
                break;
            },
        }
    }
    let piece = string_of(chars.as_slice(), start, chars.len());
    proof {
        assert(piece@ =~= chars@.skip(start as int));
    }
    trim(piece.as_str())
}

/// An occurrence in a suffix is one in the whole, further on.
proof fn occurrence_in_suffix(s: Seq<char>, needle: Seq<char>, start: int, from: int)
    requires
        0 <= start <= from,
        start <= s.len(),
    ensures
        match first_occurrence(s, needle, from) {
            Some(i) => first_occurrence(s.skip(start), needle, from - start) == Some(i - start),
            None => first_occurrence(s.skip(start), needle, from - start) is None,
        },
    decreases s.len() + 1 - from,
{
    if from + needle.len() <= s.len() {
        assert(s.skip(start).subrange(from - start, from - start + needle.len()) =~= s.subrange(
            from,
            from + needle.len(),
        ));
        occurrence_in_suffix(s, needle, start, from + 1);
    }
}

// ---------------------------------------------------------------------------
// Scores
// ---------------------------------------------------------------------------
/// One for the right answer; zero for a wrong one or none.
pub open spec fn score_of(answer: Option<Seq<char>>, truth: Seq<char>) -> u8 {
    if answer == Some(truth) {
        1
    } else {
        0
    }
}

/// The score of a generated text against a solution.
pub open spec fn accuracy_of(generated: Seq<char>, solution: Seq<char>) -> u8 {
    score_of(
        predicted_answer(trimmed(generated)),
        trimmed(last_piece(solution, seq!['#', '#', '#', '#'])),
    )
}

/// One for the right answer; zero for a wrong one or none.
pub fn score_answer(answer: Option<String>, truth: String) -> (score: u8)
    ensures
        score == score_of(optional_text(answer), truth@),
{
    match answer {
        Some(answer) => {
            if answer == truth {
                1
            } else {
                0
            }
        },
        None => 0,
    }
}

/// Compares a generated answer with the ground truth of the solution: one where they agree, zero
/// where they differ or the answer cannot be read.
pub fn check_accuracy(generated_ans: &str, solution: &str) -> (score: u8)
    ensures
        score == accuracy_of(generated_ans@, solution@),
{
    let truth = extract_ground_truth(solution);
    let answer = extract_predicted_answer(trim(generated_ans).as_str());
    score_answer(answer, truth)
}

/// Scores the text behind the response marker; zero without a marker.
pub fn single_fitness(generated_answer: &str, true_answer: &str) -> (score: u8)
    ensures
        score == (match after_marker(generated_answer@) {
            Some(rest) => accuracy_of(rest, true_answer@),
            None => 0,
        }),
{
    match marker_end(generated_answer) {
        Some(i) => {
            let n: usize = generated_answer.unicode_len();
            proof {
                assert(generated_answer@.subrange(i as int, n as int) =~= generated_answer@.skip(
                    i as int,
                ));
            }
            check_accuracy(generated_answer.substring_char(i, n), true_answer)
        },
        None => 0,
    }
}

} // verus!
