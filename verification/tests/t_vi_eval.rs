use ai_pow_vi::vi_eval::argmax_logits;
use ai_pow_vi::vi_eval::parse_eval_line;
use ai_pow_vi::vi_eval::predict_top1;
use ai_pow_vi::matmul_int8::MatmulError;
#[test]
fn parse_simple_line() {
    let row = parse_eval_line("{\"prompt\": [1, 2, 3], \"expected_top1\": 42}").unwrap();
    assert_eq!(row.prompt, vec![1u32, 2, 3]);
    assert_eq!(row.expected_top1, Some(42));
}

#[test]
fn parse_no_expected_field() {
    let row = parse_eval_line("{\"prompt\": [5, 6, 7]}").unwrap();
    assert_eq!(row.prompt, vec![5u32, 6, 7]);
    assert!(row.expected_top1.is_none());
}

#[test]
fn parse_blank_and_comment() {
    assert!(parse_eval_line("").is_none());
    assert!(parse_eval_line("   ").is_none());
    assert!(parse_eval_line("# this is a comment").is_none());
}

#[test]
fn argmax_picks_largest() {
    assert_eq!(argmax_logits(&[1, 5, 3, 2]), Some(1));
    assert_eq!(argmax_logits(&[10, 1, 1]), Some(0));
    assert_eq!(argmax_logits(&[]), None);
}

#[test]
fn argmax_breaks_ties_to_first() {
    // Strict `>` in the loop means the first occurrence wins.
    assert_eq!(argmax_logits(&[5, 5, 5]), Some(0));
}

#[test]
fn prediction_uses_the_last_token_row() {
    // Two tokens, hidden 2: rows [1, 2] and [3, -1]; the head has three
    // vocabulary rows [1, 0], [0, 1], [1, 1].
    let acts: Vec<i8> = vec![1, 2, 3, -1];
    let head: Vec<i8> = vec![1, 0, 0, 1, 1, 1];
    // Last row [3, -1] gives logits [3, -1, 2].
    assert_eq!(predict_top1(&acts, 2, 2, 3, &head), Ok(Some((0, 3))));
    // With one token the first row [1, 2] gives logits [1, 2, 3].
    assert_eq!(predict_top1(&acts, 1, 2, 3, &head), Ok(Some((2, 3))));
}

#[test]
fn prediction_ties_go_to_the_first_and_no_head_gives_none() {
    let acts: Vec<i8> = vec![1, 1];
    let head: Vec<i8> = vec![1, 0, 0, 1];
    assert_eq!(predict_top1(&acts, 1, 2, 2, &head), Ok(Some((0, 1))));
    assert_eq!(predict_top1(&acts, 1, 2, 2, &[]), Ok(None));
    assert_eq!(predict_top1(&acts, 1, 2, 3, &head), Err(MatmulError::BadBLen));
}

