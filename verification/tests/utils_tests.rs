use intcode::digits::{digits_vec_to_num, num_to_digits_vec};
use intcode::text::{parse_multiple_utf8_num_repr_lns, utf8_dec_num_repr_to_num};

#[test]
fn utf8_dec_num_repr_to_num_works_for_positive_values() {
    assert_eq!(42, utf8_dec_num_repr_to_num(&vec![52, 50]))
}

#[test]
fn utf8_dec_num_repr_to_num_works_for_negative_values() {
    assert_eq!(-42, utf8_dec_num_repr_to_num(&vec![45, 52, 50]))
}

#[test]
fn recovering_multiple_written_values() {
    let mut out_vec: Vec<u8> = Vec::new();
    for v in [42i64, -56, 6432, -432, -32432, 0] {
        out_vec.extend_from_slice(format!("{}\n", v).as_bytes());
    }
    assert_eq!(
        vec![42, -56, 6432, -432, -32432, 0],
        parse_multiple_utf8_num_repr_lns(&out_vec)
    )
}

#[test]
fn digits_of_a_number_recombine_to_it() {
    assert_eq!(vec![1, 0, 2, 5], num_to_digits_vec(1025));
    assert_eq!(vec![0], num_to_digits_vec(0));
    assert_eq!(1025, digits_vec_to_num(&vec![1, 0, 2, 5]));
    assert_eq!(7, digits_vec_to_num(&num_to_digits_vec(7)));
}

#[test]
fn parsing_accepts_extremes_and_rejects_overflow() {
    let min_text: Vec<u8> = b"-9223372036854775808".to_vec();
    assert_eq!(i64::MIN, utf8_dec_num_repr_to_num(&min_text));
    let max_text: Vec<u8> = b"9223372036854775807".to_vec();
    assert_eq!(i64::MAX, utf8_dec_num_repr_to_num(&max_text));
    let too_big: Vec<u8> = b"3\n9223372036854775808\n".to_vec();
    // The buffer's oversized second line does not parse, so only the first
    // line may be handed to the strict multi-line parser.
    assert_eq!(
        vec![3],
        parse_multiple_utf8_num_repr_lns(&too_big[..2].to_vec())
    );
}
