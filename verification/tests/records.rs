use ftx_bot::pairs::is_perpetual_future;
use ftx_bot::records::parse_pair_records;
use ftx_bot::text::text_ends_with;

fn row(fields: &[&str]) -> Vec<String> {
    fields.iter().map(|s| s.to_string()).collect()
}

#[test]
fn pair_records_skip_the_header() {
    let text = b"c1,c2\nETH-PERP,BTC-PERP\nSOL-PERP,ADA-PERP\n";
    assert_eq!(
        parse_pair_records(text),
        Some(vec![row(&["ETH-PERP", "BTC-PERP"]), row(&["SOL-PERP", "ADA-PERP"])])
    );
}

#[test]
fn pair_records_of_header_only() {
    assert_eq!(parse_pair_records(b"c1,c2\n"), Some(vec![]));
    assert_eq!(parse_pair_records(b""), Some(vec![]));
}

#[test]
fn pair_records_refuse_ragged_rows() {
    assert_eq!(parse_pair_records(b"c1,c2\nA,B,C\n"), None);
}

#[test]
fn pair_records_refuse_invalid_utf8() {
    assert_eq!(parse_pair_records(b"c1,c2\nA,\xff\n"), None);
}

#[test]
fn ends_with_suffix() {
    assert!(text_ends_with("BTC-PERP", "-PERP"));
    assert!(text_ends_with("-PERP", "-PERP"));
    assert!(text_ends_with("abc", ""));
    assert!(!text_ends_with("BTC-0325", "-PERP"));
    assert!(!text_ends_with("ERP", "-PERP"));
}

#[test]
fn perpetual_futures_only() {
    assert!(is_perpetual_future(Some("future"), Some("BTC-PERP")));
    assert!(!is_perpetual_future(Some("future"), Some("BTC-0325")));
    assert!(!is_perpetual_future(Some("spot"), Some("BTC-PERP")));
    assert!(!is_perpetual_future(None, Some("BTC-PERP")));
    assert!(!is_perpetual_future(Some("future"), None));
}
