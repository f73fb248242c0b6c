use flosion::arguments::{
    AnyArgumentValue, Argument, ArgumentList, FilePathArgument, FloatArgument, FloatRangeArgument,
    ListedArgument, NaturalNumberArgument, ParsedArguments, StringIdentifierArgument,
};

fn natural(s: &str) -> Option<usize> {
    <NaturalNumberArgument as Argument>::try_parse(s)
}

fn float(s: &str) -> Option<String> {
    <FloatArgument as Argument>::try_parse(s)
}

fn float_range(s: &str) -> Option<(String, String)> {
    <FloatRangeArgument as Argument>::try_parse(s)
}

fn identifier(s: &str) -> Option<String> {
    <StringIdentifierArgument as Argument>::try_parse(s)
}

#[test]
fn natural_number_parsing() {
    assert_eq!(natural("42"), Some(42));
    assert_eq!(natural("0"), Some(0));
    assert_eq!(natural("+7"), Some(7));
    assert_eq!(natural("007"), Some(7));
    assert_eq!(natural("-1"), None);
    assert_eq!(natural("+"), None);
    assert_eq!(natural("12a"), None);
    assert_eq!(natural(" 12"), None);
    assert_eq!(natural("1_000"), None);
    assert_eq!(natural("99999999999999999999999999"), None);
}

#[test]
fn float_parsing_accepts_what_f64_accepts() {
    let cases = [
        "1.5", "-2e10", ".5", "5.", "+3", "inf", "-inf", "Infinity", "NaN", "nan", "1E-3",
        "0.25e+2", "1e", ".", "1.2.3", "abc", "1 ", "e5", "--1", "+-1", "1e+", "in", "infinit",
        "..", "1e1.5", "٣",
    ];
    for c in cases.iter() {
        let expected = c.parse::<f64>().is_ok();
        let got = float(c);
        assert_eq!(got.is_some(), expected, "case {:?}", c);
        if let Some(text) = got {
            assert_eq!(text, c.to_string());
        }
    }
}

#[test]
fn float_range_parsing() {
    assert_eq!(float_range("0..1"), Some(("0".to_string(), "1".to_string())));
    assert_eq!(float_range("-1.5..2e3"), Some(("-1.5".to_string(), "2e3".to_string())));
    assert_eq!(float_range("1...2"), Some(("1".to_string(), ".2".to_string())));
    assert_eq!(float_range("1..2..3"), None);
    assert_eq!(float_range("1....2"), None);
    assert_eq!(float_range("a..b"), None);
    assert_eq!(float_range("12"), None);
    assert_eq!(float_range("..1"), None);
}

#[test]
fn identifier_parsing() {
    assert_eq!(identifier("abc1"), Some("abc1".to_string()));
    assert_eq!(identifier("x"), Some("x".to_string()));
    assert_eq!(identifier("été"), Some("été".to_string()));
    assert_eq!(identifier("1abc"), None);
    assert_eq!(identifier("a_b"), None);
    assert_eq!(identifier("a b"), None);
}

#[test]
fn file_path_takes_any_text() {
    assert_eq!(
        <FilePathArgument as Argument>::try_parse("/tmp/a b.wav"),
        Some("/tmp/a b.wav".to_string())
    );
}

#[test]
fn add_or_replace_then_get() {
    let count: &'static NaturalNumberArgument = &NaturalNumberArgument("count");
    let name: &'static StringIdentifierArgument = &StringIdentifierArgument("name");
    let parsed = ParsedArguments::new_empty();
    assert_eq!(parsed.get(count), None);
    let parsed = parsed.add_or_replace(count, 3);
    let parsed = parsed.add_or_replace(name, "osc".to_string());
    assert_eq!(parsed.get(count), Some(3));
    assert_eq!(parsed.get(name), Some("osc".to_string()));
    let parsed = parsed.add_or_replace(count, 9);
    assert_eq!(parsed.get(count), Some(9));
    assert_eq!(parsed.get(name), Some("osc".to_string()));
    let values = parsed.values();
    assert_eq!(values.len(), 2);
    assert_eq!(values[0].0, "count");
    assert!(matches!(values[0].1, AnyArgumentValue::NaturalNumber(9)));
    assert_eq!(values[1].0, "name");
}

#[test]
fn parse_gives_each_term_to_the_first_free_argument_that_takes_it() {
    let count: &'static NaturalNumberArgument = &NaturalNumberArgument("count");
    let name: &'static StringIdentifierArgument = &StringIdentifierArgument("name");
    let range: &'static FloatRangeArgument = &FloatRangeArgument("range");
    let list = ArgumentList::new_empty()
        .add(ListedArgument(count))
        .add(ListedArgument(name))
        .add(ListedArgument(range));
    assert_eq!(list.arguments().len(), 3);
    let terms = vec![
        "3".to_string(),
        "7".to_string(),
        "osc".to_string(),
        "0..1".to_string(),
        "more".to_string(),
    ];
    let parsed = list.parse(terms);
    assert_eq!(parsed.get(count), Some(3));
    assert_eq!(parsed.get(name), Some("osc".to_string()));
    assert_eq!(parsed.get(range), Some(("0".to_string(), "1".to_string())));
    let values = parsed.values();
    assert_eq!(values.len(), 3);
    assert_eq!(values[0].0, "count");
    assert_eq!(values[1].0, "name");
    assert_eq!(values[2].0, "range");
}

#[test]
fn parse_with_no_arguments_takes_nothing() {
    let list = ArgumentList::new_empty();
    let parsed = list.parse(vec!["1".to_string(), "x".to_string()]);
    assert_eq!(parsed.values().len(), 0);
}

#[test]
fn float_argument_value_is_its_text() {
    let gain: &'static FloatArgument = &FloatArgument("gain");
    let list = ArgumentList::new_empty().add(ListedArgument(gain));
    let parsed = list.parse(vec!["x".to_string(), "-0.5".to_string()]);
    let text = parsed.get(gain).unwrap();
    assert_eq!(text, "-0.5");
    assert_eq!(text.parse::<f64>().unwrap(), -0.5);
}
