use ads_parser::error::ScanError;
use ads_parser::record::FileData;
use ads_parser::scan::{is_reserved_path, Scanner};
use ads_parser::settings::{Args, ParserSettings};

fn strings(v: &[&str]) -> Vec<String> {
    v.iter().map(|s| s.to_string()).collect()
}

fn settings(exclude: &[&str]) -> ParserSettings {
    let args = Args {
        interactive: false,
        root_dir: Some("root".to_string()),
        output_file: None,
        verbose: false,
        exclude_list: strings(exclude),
    };
    ParserSettings::from_args(args).unwrap()
}

/// Runs one file through the scanner: its stream list is `raw`, and the
/// content of each stream path is that path followed by `!`.
fn scan_one(scanner: &mut Scanner, components: &[&str], raw: Option<Vec<u8>>) -> Vec<String> {
    let path = components.join("/");
    let target = match scanner.begin_entry(false, &strings(components), Some(path.clone())) {
        Ok(Some(t)) => t,
        Ok(None) => return Vec::new(),
        Err(e) => panic!("unexpected {:?}", e),
    };
    assert_eq!(target, path);
    let paths = scanner.attribute(&raw).unwrap();
    if !paths.is_empty() {
        let contents: Vec<String> = paths.iter().map(|p| format!("{}!", p)).collect();
        scanner.contents(&contents);
    }
    paths
}

fn results(scanner: Scanner) -> Vec<FileData> {
    scanner.finish()
}

#[test]
fn config_requires_root_dir() {
    let args = Args {
        interactive: false,
        root_dir: None,
        output_file: None,
        verbose: true,
        exclude_list: Vec::new(),
    };
    assert_eq!(ParserSettings::from_args(args).err(), Some(ScanError::Config));
}

#[test]
fn config_keeps_values() {
    let s = settings(&["a", "b"]);
    assert_eq!(s.root_dir(), "root");
    assert_eq!(s.exclude_list(), &strings(&["a", "b"]));
    assert!(!s.verbose());
}

#[test]
fn scenario_two_streams_no_exclusions() {
    let mut scanner = Scanner::new(settings(&[]));
    let paths = scan_one(&mut scanner, &["root", "f"], Some(b"secret\0logo\0".to_vec()));
    assert_eq!(paths, strings(&["root/f:secret", "root/f:logo"]));
    let recs = results(scanner);
    assert_eq!(recs.len(), 1);
    assert_eq!(recs[0].filepath(), "root/f");
    assert_eq!(recs[0].stream_names(), strings(&["secret", "logo"]));
    assert_eq!(recs[0].content(&"secret".to_string()), Some("root/f:secret!".to_string()));
    assert_eq!(recs[0].content(&"logo".to_string()), Some("root/f:logo!".to_string()));
    assert_eq!(recs[0].content(&"other".to_string()), None);
    assert_eq!(recs[0].stream_count(), 2);
}

#[test]
fn scenario_one_stream_excluded() {
    let mut scanner = Scanner::new(settings(&["logo"]));
    let paths = scan_one(&mut scanner, &["root", "f"], Some(b"secret\0logo\0".to_vec()));
    assert_eq!(paths, strings(&["root/f:secret"]));
    let recs = results(scanner);
    assert_eq!(recs.len(), 1);
    assert_eq!(recs[0].stream_names(), strings(&["secret"]));
}

#[test]
fn scenario_all_streams_excluded() {
    let mut scanner = Scanner::new(settings(&["secret", "logo"]));
    let paths = scan_one(&mut scanner, &["root", "f"], Some(b"secret\0logo\0".to_vec()));
    assert!(paths.is_empty());
    assert!(results(scanner).is_empty());
}

#[test]
fn scenario_attribute_absent() {
    let mut scanner = Scanner::new(settings(&[]));
    let paths = scan_one(&mut scanner, &["root", "f"], None);
    assert!(paths.is_empty());
    assert!(results(scanner).is_empty());
}

#[test]
fn scenario_reserved_directory_skipped() {
    let mut scanner = Scanner::new(settings(&[]));
    let components = strings(&["root", "System Volume Information", "x"]);
    let r = scanner.begin_entry(false, &components, Some("root/System Volume Information/x".to_string()));
    assert_eq!(r, Ok(None));
    assert!(results(scanner).is_empty());
}

#[test]
fn reserved_component_detection() {
    assert!(is_reserved_path(&strings(&["root", "System Volume Information"])));
    assert!(!is_reserved_path(&strings(&["root", "system volume information"])));
    assert!(!is_reserved_path(&strings(&["root", "System Volume Information x"])));
}

#[test]
fn directories_are_skipped() {
    let mut scanner = Scanner::new(settings(&[]));
    let r = scanner.begin_entry(true, &strings(&["root", "d"]), Some("root/d".to_string()));
    assert_eq!(r, Ok(None));
    assert!(results(scanner).is_empty());
}

#[test]
fn path_that_is_not_text_fails() {
    let mut scanner = Scanner::new(settings(&[]));
    let r = scanner.begin_entry(false, &strings(&["root", "f"]), None);
    assert_eq!(r, Err(ScanError::Traversal));
}

#[test]
fn undecodable_attribute_fails() {
    let mut scanner = Scanner::new(settings(&[]));
    let r = scanner.begin_entry(false, &strings(&["root", "f"]), Some("root/f".to_string()));
    assert_eq!(r, Ok(Some("root/f".to_string())));
    assert_eq!(scanner.attribute(&Some(vec![0xFF])), Err(ScanError::AttributeDecode));
    assert!(results(scanner).is_empty());
}

#[test]
fn duplicate_stream_names_read_once() {
    let mut scanner = Scanner::new(settings(&[]));
    let paths = scan_one(&mut scanner, &["root", "f"], Some(b"a\0b\0a\0".to_vec()));
    assert_eq!(paths, strings(&["root/f:a", "root/f:b"]));
    let recs = results(scanner);
    assert_eq!(recs[0].stream_names(), strings(&["a", "b"]));
}

#[test]
fn records_keep_encounter_order() {
    let mut scanner = Scanner::new(settings(&["skip"]));
    scan_one(&mut scanner, &["root", "one"], Some(b"s1\0".to_vec()));
    scan_one(&mut scanner, &["root", "two"], Some(b"skip\0".to_vec()));
    scan_one(&mut scanner, &["root", "three"], Some(b"s3\0skip\0".to_vec()));
    assert_eq!(scanner.results().len(), 2);
    let recs = results(scanner);
    assert_eq!(recs[0].filepath(), "root/one");
    assert_eq!(recs[1].filepath(), "root/three");
    assert_eq!(recs[1].stream_names(), strings(&["s3"]));
}
