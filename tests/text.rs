use akashic_log::error::Error;
use akashic_log::text::{parse_duration, parse_start_args, parse_tags};

fn words(v: &[&str]) -> Vec<String> {
    v.iter().map(|s| s.to_string()).collect()
}

#[test]
fn bare_integer_is_seconds() {
    assert_eq!(parse_duration("15"), Ok(15_000));
    assert_eq!(parse_duration("0"), Ok(0));
}

#[test]
fn suffixed_durations() {
    assert_eq!(parse_duration("15s"), Ok(15_000));
    assert_eq!(parse_duration("15m"), Ok(900_000));
    assert_eq!(parse_duration("1m"), Ok(60_000));
}

#[test]
fn malformed_durations_are_invalid() {
    for s in ["", "m", "s", "15h", "1a5", "+5", "5 m", "-3", "m5", "15分"] {
        assert_eq!(parse_duration(s), Err(Error::InvalidInput), "{}", s);
    }
}

#[test]
fn durations_past_u64_are_invalid() {
    assert_eq!(parse_duration("18446744073709551615"), Err(Error::InvalidInput));
    assert_eq!(parse_duration("18446744073709551"), Ok(18_446_744_073_709_551_000));
    assert_eq!(parse_duration("18446744073709552"), Err(Error::InvalidInput));
    assert_eq!(parse_duration("307445734561825860m"), Err(Error::InvalidInput));
    assert_eq!(parse_duration("307445734561825m"), Ok(307_445_734_561_825 * 60_000));
}

#[test]
fn tags_are_words_that_start_with_a_hash() {
    assert_eq!(parse_tags("#code write timeLog"), words(&["code"]));
    assert_eq!(parse_tags("fix #bug and #rust\tnow ##x #"), words(&["bug", "rust", "x", ""]));
    assert_eq!(parse_tags("no tags a#b"), Vec::<String>::new());
    assert_eq!(parse_tags(""), Vec::<String>::new());
    assert_eq!(parse_tags("  #编写 done"), words(&["编写"]));
}

#[test]
fn start_args_with_a_duration() {
    let (d, desc) = parse_start_args(words(&["15m", "#code", "write", "timeLog"]));
    assert_eq!(d, Some(900_000));
    assert_eq!(desc.as_deref(), Some("#code write timeLog"));
    let (d, desc) = parse_start_args(words(&["5"]));
    assert_eq!(d, Some(5_000));
    assert_eq!(desc, None);
}

#[test]
fn start_args_without_a_duration() {
    let (d, desc) = parse_start_args(words(&["#code", "write"]));
    assert_eq!(d, None);
    assert_eq!(desc.as_deref(), Some("#code write"));
    assert_eq!(parse_start_args(vec![]), (None, None));
}
