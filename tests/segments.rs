use kvs::segment::{generation_of_name, log_file_name_of};
use kvs::{get_logfile, log_path};
use std::path::PathBuf;

#[test]
fn segment_file_names() {
    assert_eq!(log_file_name_of(0), "0.log");
    assert_eq!(log_file_name_of(12345), "12345.log");
    assert_eq!(log_file_name_of(u64::MAX), "18446744073709551615.log");
}

#[test]
fn segment_generations_from_names() {
    assert_eq!(generation_of_name("7.log"), Some(7));
    assert_eq!(generation_of_name("+7.log"), Some(7));
    assert_eq!(generation_of_name("007.log"), Some(7));
    assert_eq!(generation_of_name("18446744073709551615.log"), Some(u64::MAX));
    assert_eq!(generation_of_name("18446744073709551616.log"), None);
    assert_eq!(generation_of_name(".log"), None);
    assert_eq!(generation_of_name("+.log"), None);
    assert_eq!(generation_of_name("x1.log"), None);
    assert_eq!(generation_of_name("-1.log"), None);
    assert_eq!(generation_of_name("1.txt"), None);
    assert_eq!(generation_of_name("log"), None);
}

#[test]
fn segment_path_in_directory() {
    let dir = PathBuf::from("data");
    assert_eq!(log_path(&dir, 5), PathBuf::from("data").join("5.log"));
}

#[test]
fn empty_directory_gets_generation_zero() {
    let plan = get_logfile(&vec!["notes.txt".to_string(), "engineConfigure.txt".to_string()]);
    assert_eq!(plan.keep, 0);
    assert!(plan.create);
    assert!(plan.remove.is_empty());
    let plan = get_logfile(&Vec::new());
    assert_eq!(plan.keep, 0);
    assert!(plan.create);
}

#[test]
fn lowest_generation_is_kept() {
    let names: Vec<String> =
        ["3.log", "1.log", "notes.txt", "2.log", "01.log"].iter().map(|s| s.to_string()).collect();
    let plan = get_logfile(&names);
    assert_eq!(plan.keep, 1);
    assert!(!plan.create);
    let mut removed = plan.remove.clone();
    removed.sort();
    assert_eq!(removed, vec![2, 3]);
}
