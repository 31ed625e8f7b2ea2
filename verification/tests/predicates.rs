use assert_cmd::assertion::BytesContentOutputPredicate;
use assert_cmd::assertion::CodePredicate;
use assert_cmd::assertion::EqCodePredicate;
use assert_cmd::assertion::IntoCodePredicate;
use assert_cmd::assertion::IntoOutputPredicate;
use assert_cmd::assertion::OutputPredicate;

// Since IntoCodePredicate exists solely for conversion, test it under that
// scenario to ensure it works as expected.
fn convert_code<I, P>(pred: I) -> P
where
    I: IntoCodePredicate<P>,
    P: CodePredicate,
{
    pred.into_code()
}

#[test]
fn into_code_from_pred() {
    let pred = convert_code(EqCodePredicate { expected: 10 });
    assert!(pred.eval(10));
}

#[test]
fn into_code_from_i32() {
    let pred = convert_code(10);
    assert!(pred.eval(10));
}

#[test]
fn into_code_from_vec() {
    let pred = convert_code(vec![3, 10]);
    assert!(pred.eval(10));
}

#[test]
fn into_code_from_array() {
    let pred = convert_code(&[3, 10] as &[i32]);
    assert!(pred.eval(10));
}

// Since IntoOutputPredicate exists solely for conversion, test it under
// that scenario to ensure it works as expected.
fn convert_output<I, P>(pred: I) -> P
where
    I: IntoOutputPredicate<P>,
    P: OutputPredicate,
{
    pred.into_output()
}

#[test]
fn into_output_from_pred() {
    let pred = convert_output(BytesContentOutputPredicate::new(b"Hello".to_vec()));
    assert!(pred.eval(b"Hello" as &[u8]));
}

#[test]
fn into_output_from_bytes() {
    let pred = convert_output(b"Hello" as &[u8]);
    assert!(pred.eval(b"Hello" as &[u8]));
}

#[test]
fn into_output_from_str() {
    let pred = convert_output("Hello");
    assert!(pred.eval(b"Hello" as &[u8]));
}

#[test]
fn code_predicate_rejects_other_codes() {
    let pred = convert_code(10);
    assert!(!pred.eval(9));
    let many = convert_code(vec![3, 10]);
    assert!(!many.eval(4));
}

#[test]
fn str_predicate_requires_valid_utf8() {
    let pred = convert_output("hello");
    assert!(!pred.eval(b"hell"));
    assert!(!pred.eval(&[0xff, 0xfe]));
}

#[test]
fn bytes_predicate_exact() {
    let pred = convert_output(b"ab" as &[u8]);
    assert!(!pred.eval(b"abc"));
    assert!(!pred.eval(b"aB"));
    assert!(pred.eval(b"ab"));
}
