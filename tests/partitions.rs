use ads_parser::partitions::{partition_names, split_fields};

fn strings(v: &[&str]) -> Vec<String> {
    v.iter().map(|s| s.to_string()).collect()
}

#[test]
fn partition_table_names() {
    let lines = strings(&[
        "major minor  #blocks  name",
        "",
        "   8        0  500107608 sda",
        "   8        1     524288 sda1",
        " 259        0  976762584 nvme0n1",
    ]);
    assert_eq!(partition_names(&lines), Some(strings(&["sda", "sda1", "nvme0n1"])));
}

#[test]
fn partition_table_short_line_fails() {
    let lines = strings(&["major minor  #blocks  name", "", "   8        0  500107608"]);
    assert_eq!(partition_names(&lines), None);
}

#[test]
fn partition_table_header_only() {
    assert_eq!(partition_names(&strings(&["header"])), Some(Vec::new()));
    assert_eq!(partition_names(&strings(&["h", ""])), Some(Vec::new()));
}

#[test]
fn fields_split_on_any_white_space() {
    let line = "\t a  b\u{3000}c \n".to_string();
    assert_eq!(split_fields(&line), strings(&["a", "b", "c"]));
}
