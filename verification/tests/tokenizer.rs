use hyperscalees::tokenizer::{hex_to_bytes, DecodeError, RWKVTokenizer};

fn tiny_vocab() -> RWKVTokenizer {
    RWKVTokenizer::from_pairs(&[
        (0, b"a".to_vec()),
        (1, b"b".to_vec()),
        (2, b"ab".to_vec()),
        (3, b"\n".to_vec()),
    ])
    .unwrap_or_else(|e| panic!("{e}"))
}

fn vocab_error(lines: &[&str]) -> String {
    match RWKVTokenizer::from_vocab(lines) {
        Ok(_) => panic!("the lines are bad"),
        Err(e) => e,
    }
}

#[test]
fn tokenizer_round_trip() {
    let tok = tiny_vocab();
    for s in ["ab", "ba", "ab\n", "bab", "a\nb\n", ""] {
        let enc = tok.encode(s);
        let dec = tok.decode(&enc).unwrap();
        assert_eq!(dec, s, "round-trip failed for {s:?}");
    }
}

#[test]
fn tokenizer_greedy_longest_match() {
    let tok = tiny_vocab();
    assert_eq!(tok.encode("ab"), vec![2]);
    assert_eq!(tok.encode("aba"), vec![2, 0]);
    assert_eq!(tok.encode("bab"), vec![1, 2]);
}

#[test]
fn tokenizer_decode_reverses_encode() {
    let tok = tiny_vocab();
    assert_eq!(tok.decode_bytes(&[2, 3]), b"ab\n");
    assert_eq!(tok.decode(&[2]), Ok(String::from("ab")));
}

#[test]
fn tokenizer_from_vocab_lines() {
    let lines = ["0 1 61", "1 1 62", "2 2 6162", "3 1 0a"];
    let tok = RWKVTokenizer::from_vocab(&lines).unwrap_or_else(|e| panic!("{e}"));
    assert_eq!(tok.encode("ab"), vec![2]);
    assert_eq!(tok.encode("ba"), vec![1, 0]);
    assert_eq!(tok.decode(&[2, 3]).unwrap(), "ab\n");
}

#[test]
fn tokenizer_hex_helper() {
    assert_eq!(hex_to_bytes("6162").unwrap(), b"ab");
    assert_eq!(hex_to_bytes("0a").unwrap(), b"\n");
    assert!(hex_to_bytes("abc").is_none());
}

#[test]
fn hex_helper_takes_both_cases_and_nothing_else() {
    assert_eq!(hex_to_bytes("fF0A"), Some(vec![0xff, 0x0a]));
    assert_eq!(hex_to_bytes(""), Some(vec![]));
    assert_eq!(hex_to_bytes("0g"), None);
    assert_eq!(hex_to_bytes("é"), None);
}

#[test]
fn longest_of_many_lengths_wins() {
    let tok = RWKVTokenizer::from_pairs(&[
        (1, b"x".to_vec()),
        (2, b"xy".to_vec()),
        (3, b"xyzw".to_vec()),
        (4, b"xyz".to_vec()),
        (5, b"y".to_vec()),
        (6, b"z".to_vec()),
    ])
    .unwrap_or_else(|e| panic!("{e}"));
    assert_eq!(tok.encode("xyzw"), vec![3]);
    assert_eq!(tok.encode("xyzxyx"), vec![4, 2, 1]);
}

#[test]
fn unknown_bytes_and_ids_give_nothing() {
    let tok = tiny_vocab();
    assert_eq!(tok.encode("aqb"), vec![0, 1]);
    assert_eq!(tok.decode_bytes(&[0, 99, 1]), b"ab");
}

#[test]
fn later_pairs_win() {
    let tok = RWKVTokenizer::from_pairs(&[
        (1, b"hi".to_vec()),
        (2, b"hi".to_vec()),
        (1, b"yo".to_vec()),
    ])
    .unwrap_or_else(|e| panic!("{e}"));
    assert_eq!(tok.encode("hi"), vec![2]);
    assert_eq!(tok.decode_bytes(&[1, 2]), b"yohi");
}

#[test]
fn ids_may_be_large() {
    let tok = RWKVTokenizer::from_pairs(&[(u32::MAX, b"a".to_vec())])
        .unwrap_or_else(|e| panic!("{e}"));
    assert_eq!(tok.encode("a"), vec![u32::MAX]);
    assert_eq!(tok.decode(&[u32::MAX]), Ok("a".to_string()));
}

#[test]
fn bytes_that_are_no_text_do_not_decode() {
    let tok = RWKVTokenizer::from_pairs(&[(0, vec![0xff])]).unwrap_or_else(|e| panic!("{e}"));
    assert_eq!(tok.decode(&[0]), Err(DecodeError::InvalidUtf8));
    assert_eq!(tok.decode_bytes(&[0]), vec![0xff]);
}

#[test]
fn vocabulary_faults_name_their_line() {
    assert_eq!(vocab_error(&["0 1 61", "   "]), "line 1: missing idx");
    assert_eq!(vocab_error(&["x 1 61"]), "line 0: bad idx: invalid digit found in string");
    assert_eq!(
        vocab_error(&["4294967296 1 61"]),
        "line 0: bad idx: number too large to fit in target type"
    );
    assert_eq!(vocab_error(&["0"]), "line 0: missing len");
    assert_eq!(vocab_error(&["0 -1 61"]), "line 0: bad len: invalid digit found in string");
    assert_eq!(vocab_error(&["0 1"]), "line 0: missing hex");
    assert_eq!(vocab_error(&["0 1 6"]), "line 0: bad hex");
    assert_eq!(vocab_error(&["0 12 6162"]), "line 0: len 12 != bytes 2");
}

#[test]
fn vocabulary_lines_split_at_any_white_space() {
    let tok = RWKVTokenizer::from_vocab(&["\t+7\u{3000}1   61 rest"])
        .unwrap_or_else(|e| panic!("{e}"));
    assert_eq!(tok.encode("a"), vec![7]);
}
