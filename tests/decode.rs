use ads_parser::decode::decode_streams;
use ads_parser::error::ScanError;
use ads_parser::filter::{filter_streams, is_excluded};
use ads_parser::scan::{stream_path, unique_streams};

fn strings(v: &[&str]) -> Vec<String> {
    v.iter().map(|s| s.to_string()).collect()
}

#[test]
fn decode_absent_is_empty() {
    assert_eq!(decode_streams(&None), Ok(Vec::<String>::new()));
}

#[test]
fn decode_present_but_empty() {
    assert_eq!(decode_streams(&Some(Vec::new())), Ok(Vec::<String>::new()));
}

#[test]
fn decode_terminated_names() {
    let raw = b"secret\0logo\0".to_vec();
    assert_eq!(decode_streams(&Some(raw)), Ok(strings(&["secret", "logo"])));
}

#[test]
fn decode_joined_names_round_trip() {
    let names = ["alpha", "beta", "gamma"];
    let raw = names.join("\0").into_bytes();
    assert_eq!(decode_streams(&Some(raw)), Ok(strings(&names)));
}

#[test]
fn decode_trims_and_drops_empty_segments() {
    let raw = b"  one \t\0\0 \n \0two\0   ".to_vec();
    assert_eq!(decode_streams(&Some(raw)), Ok(strings(&["one", "two"])));
}

#[test]
fn decode_keeps_unterminated_last_segment() {
    let raw = b"a\0 last".to_vec();
    assert_eq!(decode_streams(&Some(raw)), Ok(strings(&["a", "last"])));
}

#[test]
fn decode_refuses_high_byte() {
    let raw = vec![b'a', 0xC3, 0xA9, 0];
    assert_eq!(decode_streams(&Some(raw)), Err(ScanError::AttributeDecode));
}

#[test]
fn decode_refuses_high_byte_in_blank_segment() {
    let raw = vec![b'x', 0, 200, 0];
    assert_eq!(decode_streams(&Some(raw)), Err(ScanError::AttributeDecode));
}

#[test]
fn filter_keeps_order() {
    let names = strings(&["c", "a", "b", "a", "d"]);
    let ex = strings(&["a"]);
    assert_eq!(filter_streams(&names, &ex), strings(&["c", "b", "d"]));
}

#[test]
fn filter_is_idempotent() {
    let names = strings(&["x", "y", "z", "y"]);
    let ex = strings(&["z", "q"]);
    let once = filter_streams(&names, &ex);
    let twice = filter_streams(&once, &ex);
    assert_eq!(once, twice);
    assert_eq!(once, strings(&["x", "y", "y"]));
}

#[test]
fn filter_is_case_sensitive() {
    let names = strings(&["Logo", "logo"]);
    let ex = strings(&["logo"]);
    assert_eq!(filter_streams(&names, &ex), strings(&["Logo"]));
    assert!(is_excluded(&"logo".to_string(), &ex));
    assert!(!is_excluded(&"Logo".to_string(), &ex));
}

#[test]
fn filter_with_no_exclusions() {
    let names = strings(&["a", "b"]);
    assert_eq!(filter_streams(&names, &Vec::new()), names);
}

#[test]
fn derived_stream_path() {
    let p = stream_path(&"root/file.txt".to_string(), &"secret".to_string());
    assert_eq!(p, "root/file.txt:secret");
}

#[test]
fn unique_keeps_first_occurrence() {
    let names = strings(&["b", "a", "b", "c", "a"]);
    assert_eq!(unique_streams(names), strings(&["b", "a", "c"]));
}
