use ft_linear_regression::args::{
    ArgDiag, ArgErrKind, ArgScan, ArgValueError, DefaultArgScan, LearnRatioArg,
};
use ft_linear_regression::dataset::DatasetArg;
use ft_linear_regression::theta::ThetaFileArg;

fn tokens(raw: &[&str]) -> Vec<String> {
    raw.iter().map(|s| s.to_string()).collect()
}

#[test]
fn a_named_token_sets_the_path() {
    let input = tokens(&["-f=theta.bin"]);
    let mut used = vec![false; input.len()];
    let (value, diags) = ThetaFileArg::try_parse(&input, &mut used);
    assert_eq!(value.unwrap().path, "theta.bin");
    assert!(diags.is_empty());
    assert_eq!(used, vec![true]);
}

#[test]
fn the_long_name_works_too() {
    let input = tokens(&["--file=out", "--dataset=data.csv"]);
    let mut used = vec![false; input.len()];
    let (value, _) = ThetaFileArg::try_parse(&input, &mut used);
    assert_eq!(value.unwrap().path, "out");
    assert_eq!(used, vec![true, false]);
    let (value, _) = DatasetArg::try_parse(&input, &mut used);
    assert_eq!(value.unwrap().path, "data.csv");
    assert_eq!(used, vec![true, true]);
}

#[test]
fn unrelated_tokens_are_left_unused() {
    let input = tokens(&["12.5", "-x", "--files=no"]);
    let mut used = vec![false; input.len()];
    let (value, diags) = ThetaFileArg::try_parse(&input, &mut used);
    assert!(value.is_none());
    assert!(diags.is_empty());
    // "--files=no" begins with "--file" but goes on without `=`: it names
    // nothing and stays for the caller to report
    assert_eq!(used, vec![false, false, false]);
}

#[test]
fn the_first_token_wins_and_the_second_is_a_duplicate() {
    let input = tokens(&["-f=a", "-f=b"]);
    let mut used = vec![false; input.len()];
    let (value, diags) = ThetaFileArg::try_parse(&input, &mut used);
    assert_eq!(value.unwrap().path, "a");
    assert_eq!(diags, vec![ArgDiag { idx: 1, err: ArgErrKind::Duplicate }]);
    assert_eq!(used, vec![true, true]);
}

#[test]
fn a_path_needs_a_written_value() {
    let input = tokens(&["-f"]);
    let mut used = vec![false; input.len()];
    let (value, diags) = ThetaFileArg::try_parse(&input, &mut used);
    assert!(value.is_none());
    assert_eq!(
        diags,
        vec![ArgDiag { idx: 0, err: ArgErrKind::Value(ArgValueError::MissingValue) }]
    );
    assert_eq!(used, vec![true]);
}

#[test]
fn a_bad_value_is_reported_and_a_later_good_one_wins() {
    let input = tokens(&["-r=fast", "-r=0.5"]);
    let mut used = vec![false; input.len()];
    let (value, diags) = LearnRatioArg::try_parse(&input, &mut used);
    assert_eq!(value.unwrap().as_str(), "0.5");
    assert_eq!(
        diags,
        vec![ArgDiag { idx: 0, err: ArgErrKind::Value(ArgValueError::InvalidNumber) }]
    );
    assert_eq!(used, vec![true, true]);
}

#[test]
fn the_ratio_falls_back_to_its_default() {
    let input = tokens(&["something-else"]);
    let mut used = vec![false; input.len()];
    let (value, diags) = LearnRatioArg::parse(&input, &mut used);
    assert_eq!(value.as_str(), "0.00001");
    assert!(diags.is_empty());
    assert_eq!(value.as_str().parse::<f64>().unwrap(), 0.00001);
}

#[test]
fn a_written_ratio_replaces_the_default() {
    let input = tokens(&["--ratio=0.5"]);
    let mut used = vec![false; input.len()];
    let (value, _) = LearnRatioArg::parse(&input, &mut used);
    assert_eq!(value.as_str(), "0.5");
    assert_eq!(used, vec![true]);
}

#[test]
fn an_exact_name_without_value_is_refused_for_numbers() {
    let input = tokens(&["-r"]);
    let mut used = vec![false; input.len()];
    let (value, diags) = LearnRatioArg::try_parse(&input, &mut used);
    assert!(value.is_none());
    assert_eq!(
        diags,
        vec![ArgDiag { idx: 0, err: ArgErrKind::Value(ArgValueError::MissingValue) }]
    );
}
