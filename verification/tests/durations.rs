//! Durations as people write and read them.
use reaper::config;
use reaper::duration::{format_rough, parse};
use reaper::time::Duration;

#[test]
fn parses_every_unit() {
    assert_eq!(parse("30s").unwrap(), Duration::from_secs(30));
    assert_eq!(parse("10m").unwrap(), Duration::from_secs(600));
    assert_eq!(parse("2h").unwrap(), Duration::from_secs(7200));
    assert_eq!(parse("7d").unwrap(), Duration::from_secs(604_800));
}

#[test]
fn rejects_what_it_should() {
    // Each of these is a plausible thing to type, and each would mean
    // something the caller did not intend if it were quietly accepted.
    for bad in ["", "h", "2", "1.5h", "90 minutes", "-1h", "2H", "0h", "0s", "2x"] {
        assert!(parse(bad).is_err(), "{bad:?} should not parse");
    }
}

#[test]
fn rejects_overflow_rather_than_wrapping() {
    assert!(parse("99999999999999999999d").is_err());
}

#[test]
fn exact_durations_round_trip() {
    for s in ["30s", "10m", "2h", "7d"] {
        assert_eq!(reaper::duration::format(parse(s).unwrap()), s, "{s} should round-trip");
    }
}

#[test]
fn rough_formatting_is_for_reading_only() {
    assert_eq!(format_rough(Duration::from_secs(45)), "45s");
    assert_eq!(format_rough(Duration::from_secs(192)), "3m12s");
    assert_eq!(format_rough(Duration::from_secs(6420)), "1h47m");
}

#[test]
fn a_multibyte_unit_is_a_parse_error_not_a_panic() {
    // A typo in a configuration file must never take the process down.
    for input in ["5µ", "µ", "10µs", "5\u{00e9}"] {
        let e = parse(input).expect_err(input);
        assert!(e.message().contains(input), "{}", e.message());
    }
}

#[test]
fn an_astronomical_duration_is_refused_not_a_panic() {
    let e = parse("6148914691236517206s").expect_err("should refuse");
    assert!(e.message().contains("ten years"), "{}", e.message());
    // The largest sane spellings still pass.
    assert!(parse("3650d").is_ok());
    assert!(parse("3651d").is_err());

    let text = r#"
provider = "p"
[guests.g]
template = "t"
[session]
heartbeat_interval = "6148914691236517206s"
default_ttl = "6148914691236517206s"
[p]
"#;
    let e = config::parse(text, "<test>", &None).err().expect("should refuse");
    assert!(e.message().contains("ten years"), "{}", e.message());
}

#[test]
fn format_rough_reads_right_at_the_unit_boundaries() {
    for (secs, want) in [
        (59u64, "59s"),
        (60, "1m00s"),
        (3599, "59m59s"),
        (3600, "1h00m"),
        (3661, "1h01m"),
    ] {
        assert_eq!(format_rough(Duration::from_secs(secs)), want);
    }
}

#[test]
fn a_refusal_names_what_was_written_and_why() {
    let e = parse("2x").expect_err("no such unit");
    assert!(e.message().contains("\"2x\""), "{}", e.message());
}

#[test]
fn every_span_that_formats_reads_back() {
    for secs in [1u64, 59, 60, 61, 3600, 3660, 86_400, 90_000, 315_360_000] {
        let d = Duration::from_secs(secs);
        assert_eq!(parse(&reaper::duration::format(d)).unwrap(), d, "{secs}");
    }
}
