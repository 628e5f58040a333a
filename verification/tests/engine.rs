use rski::engine::CombinatoryTermImpl;
use rski::Printer;

fn test_engine(combinator: &str, expected: &str) {
    let mut actual = CombinatoryTermImpl::<Printer>::new(combinator).unwrap();
    actual.evaluate();
    let expected = CombinatoryTermImpl::<Printer>::new(expected).unwrap();
    assert_eq!(actual, expected);
}

#[test]
fn test_s_combinator() {
    let combinator = "SKSS";
    let expected = "S";
    test_engine(combinator, expected);
}

#[test]
fn test_k_combinator() {
    let combinator = "KSS";
    let expected = "S";
    test_engine(combinator, expected);
}

#[test]
fn test_i_combinator() {
    let combinator = "IK";
    let expected = "K";
    test_engine(combinator, expected);
}

#[test]
fn test_basic_evaluation() {
    let combinator = "S(KSS)SK";
    let expected = "SK(SK)";
    test_engine(combinator, expected);
}

fn enclose(s: String) -> String {
    "(".to_string() + &s + &")".to_string()
}

fn generate_number_repr(n: u32) -> String {
    let mut res = "S(K)".to_string();
    let number_gen = "S(S(K(S))(K))".to_string();
    for _ in 0..n {
        res = number_gen.clone() + &enclose(res);
    }
    res
}

fn generate_expected_result(n: u32) -> String {
    let mut res = "K".to_string();
    for _ in 0..n {
        res = "S".to_string() + &enclose(res);
    }
    res
}

fn test_numbers(a: u32, b: u32) {
    let expected = generate_expected_result(a + b);

    let a = generate_number_repr(a);
    let b = generate_number_repr(b);
    let plus = "S(K(S))(S(K(S(K(S))))(S(K(K))))";

    let combinator = plus.to_string() + &enclose(a) + &enclose(b) + "(S)(K)";
    test_engine(&combinator, &expected);
}

#[test]
fn test_addition() {
    test_numbers(1, 1);
    test_numbers(3, 2);
    test_numbers(10, 5);
}
