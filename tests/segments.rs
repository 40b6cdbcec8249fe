use kvs::{get_log_path, parse_segment_id, segment_ids};

fn name(s: &str) -> Vec<u8> {
    s.as_bytes().to_vec()
}

#[test]
fn log_path_names() {
    assert_eq!(get_log_path(0), name("0.log"));
    assert_eq!(get_log_path(12), name("12.log"));
    assert_eq!(get_log_path(u64::MAX), name("18446744073709551615.log"));
}

#[test]
fn parse_log_names() {
    assert_eq!(parse_segment_id(&name("12.log")), Some(12));
    assert_eq!(parse_segment_id(&name("0.log")), Some(0));
    assert_eq!(parse_segment_id(&name("18446744073709551615.log")), Some(u64::MAX));
}

#[test]
fn non_segment_names_are_skipped() {
    assert_eq!(parse_segment_id(&name("abc.log")), None);
    assert_eq!(parse_segment_id(&name(".log")), None);
    assert_eq!(parse_segment_id(&name("12.txt")), None);
    assert_eq!(parse_segment_id(&name("engine")), None);
    assert_eq!(parse_segment_id(&name("1a.log")), None);
    assert_eq!(parse_segment_id(&name("18446744073709551616.log")), None);
    assert_eq!(parse_segment_id(&name("+7.log")), None);
}

#[test]
fn leading_zeros_are_read_as_decimal() {
    assert_eq!(parse_segment_id(&name("007.log")), Some(7));
    assert_eq!(parse_segment_id(&name("00.log")), Some(0));
    assert_eq!(parse_segment_id(&name("000000000000000000000000001.log")), Some(1));
}

#[test]
fn names_round_trip() {
    for fid in [0u64, 1, 9, 10, 99, 100, 123456789, u64::MAX] {
        assert_eq!(parse_segment_id(&get_log_path(fid)), Some(fid));
    }
}

fn ids(names: &[&str]) -> Vec<(u64, String)> {
    let names: Vec<Vec<u8>> = names.iter().map(|n| name(n)).collect();
    segment_ids(&names)
        .into_iter()
        .map(|f| (f.id, String::from_utf8(f.name).unwrap()))
        .collect()
}

#[test]
fn ids_come_sorted_and_once() {
    assert_eq!(
        ids(&["3.log", "1.log", "engine", "1.log", "10.log", "x.log", "03.log"]),
        vec![(1, "1.log".to_string()), (3, "3.log".to_string()), (10, "10.log".to_string())]
    );
    assert_eq!(ids(&[]), Vec::<(u64, String)>::new());
}

#[test]
fn ids_keep_the_name_they_were_found_under() {
    assert_eq!(ids(&["007.log"]), vec![(7, "007.log".to_string())]);
    assert_eq!(ids(&["02.log", "1.log"]), vec![(1, "1.log".to_string()), (2, "02.log".to_string())]);
}
