use apt_cli_wrappers::{decode, decode_lines, readiness_event, AptUpgradeEvent};

fn percent(percent: u8) -> Option<AptUpgradeEvent> {
    Some(AptUpgradeEvent::Percent { percent })
}

fn counts(current: u32, total: u32, package: &str) -> Option<AptUpgradeEvent> {
    Some(AptUpgradeEvent::PackageCounts { current, total, package: package.to_string() })
}

fn fetched(file: &str) -> Option<AptUpgradeEvent> {
    Some(AptUpgradeEvent::Fetched { file: file.to_string() })
}

#[test]
fn a_percentage_with_text_is_a_percent_event() {
    assert_eq!(decode("75% done"), percent(75));
    assert_eq!(decode("50% installing pkg"), percent(50));
}

#[test]
fn a_percentage_alone_is_a_percent_event() {
    assert_eq!(decode("0%"), percent(0));
    assert_eq!(decode("100%"), percent(100));
    assert_eq!(decode("7% "), percent(7));
}

#[test]
fn leading_zeros_do_not_change_a_number() {
    assert_eq!(decode("007% x"), percent(7));
    assert_eq!(decode("0000000000000000000000100%"), percent(100));
    assert_eq!(decode("003/0010 pkg"), counts(3, 10, "pkg"));
}

#[test]
fn a_percentage_over_a_hundred_is_no_event() {
    assert_eq!(decode("101% done"), None);
    assert_eq!(decode("256%"), None);
    assert_eq!(decode("99999999999999999999999% done"), None);
}

#[test]
fn a_percentage_needs_a_space_before_its_text() {
    assert_eq!(decode("75%done"), None);
    assert_eq!(decode("75 % done"), None);
    assert_eq!(decode("75"), None);
    assert_eq!(decode(" 75% done"), None);
    assert_eq!(decode("-5% done"), None);
    assert_eq!(decode("+5% done"), None);
}

#[test]
fn counts_and_a_name_are_a_counts_event() {
    assert_eq!(decode("3/12 libssl3"), counts(3, 12, "libssl3"));
    assert_eq!(decode("12/12 linux-image generic"), counts(12, 12, "linux-image generic"));
    assert_eq!(decode("0/0 x"), counts(0, 0, "x"));
    assert_eq!(decode("4294967295/4294967295 big"), counts(4294967295, 4294967295, "big"));
}

#[test]
fn counts_out_of_range_are_no_event() {
    assert_eq!(decode("5/3 pkg"), None);
    assert_eq!(decode("1/4294967296 pkg"), None);
    assert_eq!(decode("4294967296/4294967296 pkg"), None);
    assert_eq!(decode("1/99999999999999999999999999 pkg"), None);
}

#[test]
fn counts_without_a_name_are_no_event() {
    assert_eq!(decode("3/12"), None);
    assert_eq!(decode("3/12 "), None);
    assert_eq!(decode("3/12libssl3"), None);
    assert_eq!(decode("3/ libssl3"), None);
    assert_eq!(decode("3/x libssl3"), None);
    assert_eq!(decode("/12 libssl3"), None);
}

#[test]
fn a_fetched_file_is_a_fetched_event() {
    assert_eq!(
        decode("Get:1 http://archive.example.org/debian stable/main amd64 hello 2.10 [56 kB]"),
        fetched("http://archive.example.org/debian stable/main amd64 hello 2.10 [56 kB]")
    );
    assert_eq!(decode("Get:27 x"), fetched("x"));
    assert_eq!(decode("Get:99999999999999999999 file"), fetched("file"));
}

#[test]
fn a_fetched_line_needs_its_number_and_its_description() {
    assert_eq!(decode("Get:"), None);
    assert_eq!(decode("Get:1"), None);
    assert_eq!(decode("Get:1 "), None);
    assert_eq!(decode("Get:x http://a"), None);
    assert_eq!(decode("Get: 1 http://a"), None);
    assert_eq!(decode("Get:1http://a"), None);
    assert_eq!(decode("get:1 http://a"), None);
    assert_eq!(decode("Get 1 http://a"), None);
}

#[test]
fn text_beyond_ascii_is_kept_as_it_is() {
    assert_eq!(decode("Get:1 dépôt ✓"), fetched("dépôt ✓"));
    assert_eq!(decode("2/3 größe"), counts(2, 3, "größe"));
    assert_eq!(decode("٣% done"), None);
    assert_eq!(decode("é75% done"), None);
}

#[test]
fn chatter_is_no_event() {
    assert_eq!(decode("garbage"), None);
    assert_eq!(decode(""), None);
    assert_eq!(decode("Reading package lists..."), None);
    assert_eq!(decode("%"), None);
    assert_eq!(decode("/"), None);
}

#[test]
fn no_line_is_decoded_as_waiting_on_lock() {
    assert_eq!(decode("WaitingOnLock"), None);
}

#[test]
fn decoding_a_line_again_gives_the_same_event() {
    assert_eq!(decode("75% done"), decode("75% done"));
    assert_eq!(decode("garbage"), decode("garbage"));
    let first = decode("3/12 libssl3");
    assert_eq!(decode("Get:1 http://a"), fetched("http://a"));
    assert_eq!(decode("garbage"), None);
    assert_eq!(decode("3/12 libssl3"), first);
}

#[test]
fn an_unknown_line_does_not_stop_the_lines_after_it() {
    let lines = vec!["garbage".to_string(), "75% done".to_string()];
    assert_eq!(decode_lines(&lines), vec![AptUpgradeEvent::Percent { percent: 75 }]);
}

#[test]
fn events_keep_the_order_of_their_lines() {
    let lines = vec![
        "Get:1 http://a".to_string(),
        "noise".to_string(),
        "1/2 first".to_string(),
        "50%".to_string(),
        "".to_string(),
        "2/2 second".to_string(),
        "100% done".to_string(),
    ];
    assert_eq!(
        decode_lines(&lines),
        vec![
            AptUpgradeEvent::Fetched { file: "http://a".to_string() },
            AptUpgradeEvent::PackageCounts { current: 1, total: 2, package: "first".to_string() },
            AptUpgradeEvent::Percent { percent: 50 },
            AptUpgradeEvent::PackageCounts { current: 2, total: 2, package: "second".to_string() },
            AptUpgradeEvent::Percent { percent: 100 },
        ]
    );
}

#[test]
fn no_lines_give_no_events() {
    assert_eq!(decode_lines(&Vec::new()), Vec::new());
    assert_eq!(decode_lines(&vec!["a".to_string(), "b".to_string()]), Vec::new());
}

#[test]
fn a_held_lock_is_reported_as_waiting() {
    assert_eq!(readiness_event(false), Some(AptUpgradeEvent::WaitingOnLock));
    assert_eq!(readiness_event(true), None);
}
