use intcode::{csv_to_vec, parse_number, try_csv_to_vec};

fn field(text: &str) -> Vec<char> {
    text.chars().collect()
}

#[test]
fn csv_single_number() {
    assert_eq!(csv_to_vec("99".to_string()), vec![99]);
}

#[test]
fn csv_signed_numbers() {
    assert_eq!(csv_to_vec("1002,-4,+3,0,-0,007".to_string()), vec![1002, -4, 3, 0, 0, 7]);
}

#[test]
fn csv_matches_std_parse() {
    let text = "3,52,1001,52,-5,52,3,53,1,52,56,54,1007,54,5,55,1005,55,26,1001,54,-5,54,1105,1,12";
    let expected: Vec<isize> = text.split(",").map(|s| s.parse::<isize>().unwrap()).collect();
    assert_eq!(csv_to_vec(text.to_string()), expected);
}

#[test]
fn csv_extremes() {
    let text = format!("{},{}", isize::MIN, isize::MAX);
    assert_eq!(try_csv_to_vec(&text), Some(vec![isize::MIN, isize::MAX]));
}

#[test]
fn csv_rejects_what_is_no_integer() {
    assert_eq!(try_csv_to_vec(""), None);
    assert_eq!(try_csv_to_vec(","), None);
    assert_eq!(try_csv_to_vec("1,"), None);
    assert_eq!(try_csv_to_vec(",1"), None);
    assert_eq!(try_csv_to_vec("1,,2"), None);
    assert_eq!(try_csv_to_vec("1, 2"), None);
    assert_eq!(try_csv_to_vec("1,2\n"), None);
    assert_eq!(try_csv_to_vec("1,x,2"), None);
    assert_eq!(try_csv_to_vec("1,-,2"), None);
    assert_eq!(try_csv_to_vec("1,+,2"), None);
    assert_eq!(try_csv_to_vec("1,--2"), None);
    assert_eq!(try_csv_to_vec("1,2-"), None);
    assert_eq!(try_csv_to_vec("x,1,2"), None);
    assert_eq!(try_csv_to_vec("\u{664}"), None);
}

#[test]
fn csv_rejects_overflow() {
    assert_eq!(try_csv_to_vec("1,99999999999999999999999999,2"), None);
    assert_eq!(try_csv_to_vec("-99999999999999999999999999"), None);
    assert_eq!(try_csv_to_vec("9223372036854775808"), "9223372036854775808".parse::<isize>().ok().map(|v| vec![v]));
    assert_eq!(try_csv_to_vec("-9223372036854775809"), "-9223372036854775809".parse::<isize>().ok().map(|v| vec![v]));
}

#[test]
fn parse_number_cases() {
    assert_eq!(parse_number(&field("0")), Some(0));
    assert_eq!(parse_number(&field("-17")), Some(-17));
    assert_eq!(parse_number(&field("+17")), Some(17));
    assert_eq!(parse_number(&field("1234567")), Some(1234567));
    assert_eq!(parse_number(&field("")), None);
    assert_eq!(parse_number(&field("-")), None);
    assert_eq!(parse_number(&field("12a")), None);
    assert_eq!(parse_number(&field("1 2")), None);
    assert_eq!(parse_number(&field("1,2")), None);
}
