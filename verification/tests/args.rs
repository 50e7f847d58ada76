use bathbot::args::{parse_count, MatchCostArgs, DEFAULT_WARMUPS, NO_MATCH_ID};

#[test]
fn the_match_id_is_needed() {
    assert_eq!(MatchCostArgs::args(None, None), Err(NO_MATCH_ID));
    assert_eq!(MatchCostArgs::args(None, Some("1")), Err(NO_MATCH_ID));
    assert_eq!(
        NO_MATCH_ID,
        "The first argument must be either a match id or the multiplayer link to a match"
    );
}

#[test]
fn two_warmups_are_the_default() {
    assert_eq!(DEFAULT_WARMUPS, 2);
    assert_eq!(
        MatchCostArgs::args(Some(58320988), None),
        Ok(MatchCostArgs { match_id: 58320988, warmups: 2 })
    );
    assert_eq!(
        MatchCostArgs::args(Some(58320988), Some("none")),
        Ok(MatchCostArgs { match_id: 58320988, warmups: 2 })
    );
    assert_eq!(
        MatchCostArgs::args(Some(58320988), Some("-1")),
        Ok(MatchCostArgs { match_id: 58320988, warmups: 2 })
    );
}

#[test]
fn the_second_argument_sets_the_warmups() {
    assert_eq!(
        MatchCostArgs::args(Some(58320988), Some("1")),
        Ok(MatchCostArgs { match_id: 58320988, warmups: 1 })
    );
    assert_eq!(
        MatchCostArgs::args(Some(7), Some("0")),
        Ok(MatchCostArgs { match_id: 7, warmups: 0 })
    );
}

#[test]
fn counts_are_read_as_the_standard_library_reads_them() {
    let max = usize::MAX.to_string();
    let beyond = format!("{}0", max);
    let next = format!("{}", usize::MAX as u128 + 1);
    let texts = [
        "", "0", "7", "007", "+7", "+", "++7", "-7", "-0", "+0", " 7", "7 ", "7a", "a7", "1_000",
        "12345678901234567890", "٣", "7.0", "0x10", max.as_str(), beyond.as_str(), next.as_str(),
        "18446744073709551615", "18446744073709551616", "4294967295", "4294967296",
    ];
    for text in texts {
        assert_eq!(parse_count(text), text.parse::<usize>().ok(), "{:?}", text);
    }
    assert_eq!(parse_count("42"), Some(42));
    assert_eq!(parse_count("+42"), Some(42));
    assert_eq!(parse_count(&max), Some(usize::MAX));
    assert_eq!(parse_count(&next), None);
}
