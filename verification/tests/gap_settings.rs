use coconut::dock::default_gap;
use coconut::gap::{parse_gap_spec, GapSpec};

#[test]
fn parses_fixed_pixels() {
    assert_eq!(parse_gap_spec("10px"), GapSpec::Pixels("10".to_owned()));
}

#[test]
fn parses_percent() {
    assert_eq!(parse_gap_spec("30%"), GapSpec::Percent("30".to_owned()));
}

#[test]
fn parses_between_keyword() {
    assert_eq!(parse_gap_spec("between"), GapSpec::Between);
}

#[test]
fn parses_evenly_keyword() {
    assert_eq!(parse_gap_spec("evenly"), GapSpec::Evenly);
}

#[test]
fn invalid_input_falls_back_to_fixed_ten() {
    assert_eq!(parse_gap_spec("not a gap"), GapSpec::Invalid);
    assert_eq!(parse_gap_spec(""), GapSpec::Invalid);
    assert_eq!(parse_gap_spec("10"), GapSpec::Invalid);
}

#[test]
fn gap_keywords_ignore_case_and_surrounding_space() {
    assert_eq!(parse_gap_spec("  Between "), GapSpec::Between);
    assert_eq!(parse_gap_spec("EVENLY"), GapSpec::Evenly);
    assert_eq!(parse_gap_spec(" 12 px "), GapSpec::Pixels("12".to_owned()));
    assert_eq!(parse_gap_spec("5 %"), GapSpec::Percent("5".to_owned()));
}

#[test]
fn the_default_gap_is_ten_pixels() {
    assert_eq!(parse_gap_spec(&default_gap()), GapSpec::Pixels("10".to_owned()));
}
