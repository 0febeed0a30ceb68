use ft_linear_regression::number::{is_float_literal_str, NumberLit};

#[test]
fn grammar_agrees_with_the_standard_float_parser() {
    let cases = [
        "0", "1", "42", "007", "-3", "+3", "3.14", "-3.14", "2.5E10", "2.5e-10", "2.5e+10", "5.",
        ".5", "-.5", "+5.", "0.4e005", "1e1", "inf", "-inf", "+inf", "Infinity", "INFINITY", "NaN",
        "nan", "-NAN", "InF", "", ".", "e5", "-", "+", "--5", "5..0", "1.2.3", "2.5e", "2.5e-",
        "2.5ee5", "abc", "bad", "5 ", " 5", "0x10", "1_000", "5e5.0", "infx", "nanx", "infinit",
        "1e+5", "1E-5", ".e5", "+.e5", "3,14",
    ];
    for s in cases {
        let ours = is_float_literal_str(s);
        let std_ok = s.parse::<f64>().is_ok();
        assert_eq!(ours, std_ok, "disagreement on {:?}", s);
    }
}

#[test]
fn number_lit_keeps_accepted_text() {
    let n = NumberLit::new(String::from("2.5e-3")).expect("accepted");
    assert_eq!(n.as_str(), "2.5e-3");
    assert_eq!(n.as_str().parse::<f64>().unwrap(), 2.5e-3);
}

#[test]
fn number_lit_hands_refused_text_back() {
    let refused = NumberLit::new(String::from("fast"));
    assert_eq!(refused.err().unwrap(), String::from("fast"));
}
