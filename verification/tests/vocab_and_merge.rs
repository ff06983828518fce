use scribble::error::Error;
use scribble::scribble::{merge_finish_and_decode, merge_run_and_close, DecodeOutcome};
use scribble::silero::{decode_token_ids, last_boundary_age, normalize_text, parse_vocab_text};

fn strings(v: &[&str]) -> Vec<String> {
    v.iter().map(|s| s.to_string()).collect()
}

#[test]
fn vocab_newline_tokens_are_trimmed_and_blank_lines_dropped() {
    let got = parse_vocab_text("a\nb\n\n c \n").unwrap();
    assert_eq!(got, strings(&["a", "b", "c"]));
}

#[test]
fn vocab_json_array_keeps_string_elements() {
    let got = parse_vocab_text(" [\"_\", \"a\", 3, \"b\"]").unwrap();
    assert_eq!(got, strings(&["_", "a", "b"]));
}

#[test]
fn vocab_json_object_contributes_its_labels() {
    let got = parse_vocab_text("{\"labels\": [\"x\", \"y\"]}").unwrap();
    assert_eq!(got, strings(&["x", "y"]));
    let got = parse_vocab_text("{\"tokens\": [\"p\", \"q\"]}").unwrap();
    assert_eq!(got, strings(&["p", "q"]));
}

#[test]
fn vocab_invalid_json_falls_back_to_lines() {
    let got = parse_vocab_text("[not json").unwrap();
    assert_eq!(got, strings(&["[not json"]));
}

#[test]
fn ctc_decode_collapses_repeats_and_blanks() {
    let alphabet = strings(&["_", "a", "b", "|"]);
    let got = decode_token_ids(&vec![1, 1, 0, 1, 3, 2, 2], &alphabet).unwrap();
    assert_eq!(got, "aa b");
}

#[test]
fn ctc_decode_rejects_ids_outside_the_alphabet() {
    let alphabet = strings(&["_", "a"]);
    assert!(decode_token_ids(&vec![1, 9], &alphabet).is_err());
    assert!(decode_token_ids(&vec![-2], &alphabet).is_err());
    // The blank id is dropped without an alphabet lookup.
    assert_eq!(decode_token_ids(&vec![0, 0], &alphabet).unwrap(), "");
}

#[test]
fn normalize_text_collapses_blank_space() {
    assert_eq!(normalize_text("  hi   there \n".to_string()), "hi there");
    assert_eq!(normalize_text("   ".to_string()), "");
}

#[test]
fn last_boundary_age_counts_from_the_end() {
    assert_eq!(last_boundary_age(&[1, 3, 2, 4], 3), Some(2));
    assert_eq!(last_boundary_age(&[3, 1, 3], 3), Some(0));
    assert_eq!(last_boundary_age(&[1, 2], 3), None);
}

#[test]
fn decoder_panic_is_a_distinct_top_level_error() {
    let r = merge_finish_and_decode(Ok(()), DecodeOutcome::Panicked);
    let e = r.unwrap_err();
    assert!(matches!(e, Error::Other { .. }));
    assert_eq!(e.message(), "decoder thread panicked");
}

#[test]
fn inference_failure_wins_with_decoder_error_attached() {
    let finish = Err(Error::Backend { message: "inference failed".to_string() });
    let decode = DecodeOutcome::Failed(Error::Decode { message: "bad frame".to_string() });
    let e = merge_finish_and_decode(finish, decode).unwrap_err();
    assert!(matches!(e, Error::Backend { .. }));
    assert_eq!(e.message(), "inference failed: bad frame");
}

#[test]
fn decoder_error_surfaces_after_a_clean_finish() {
    let decode = DecodeOutcome::Failed(Error::Decode { message: "bad frame".to_string() });
    let e = merge_finish_and_decode(Ok(()), decode).unwrap_err();
    assert!(matches!(e, Error::Decode { .. }));
}

#[test]
fn run_error_wins_over_close_error() {
    let run = Err(Error::Io { message: "write failed".to_string() });
    let close = Err(Error::Io { message: "flush failed".to_string() });
    let e = merge_run_and_close(run, close).unwrap_err();
    assert_eq!(e.message(), "write failed: flush failed");
    assert!(merge_run_and_close(Ok(()), Ok(())).is_ok());
}
