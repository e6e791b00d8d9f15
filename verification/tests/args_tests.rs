use dirsize::args::{parse_u8, ArgError, RunArgs, SizeUnit};

fn defaults() -> RunArgs {
    RunArgs::new("/start".to_string(), 8)
}

fn strings(parts: &[&str]) -> Vec<String> {
    parts.iter().map(|s| s.to_string()).collect()
}

#[test]
fn defaults_hold_before_any_argument() {
    let ra = defaults();
    assert_eq!(ra.get_path(), "/start");
    assert!(!ra.is_timed());
    assert_eq!(ra.get_size_unit(), SizeUnit::KiloByte);
    assert_eq!(ra.get_thread_count(), 8);
}

#[test]
fn timed_flag() {
    let mut ra = defaults();
    assert_eq!(ra.with_arg("-t", None), Ok(()));
    assert!(ra.is_timed());
}

#[test]
fn unit_flags() {
    let cases = [
        ("-b", SizeUnit::Byte),
        ("-B", SizeUnit::Byte),
        ("-kb", SizeUnit::KiloByte),
        ("-KB", SizeUnit::KiloByte),
        ("-mb", SizeUnit::MegaByte),
        ("-MB", SizeUnit::MegaByte),
        ("-gb", SizeUnit::GigaByte),
        ("-GB", SizeUnit::GigaByte),
    ];
    for (flag, unit) in cases {
        let mut ra = defaults();
        assert_eq!(ra.with_arg(flag, None), Ok(()));
        assert_eq!(ra.get_size_unit(), unit);
    }
}

#[test]
fn thread_count_flag_takes_the_next_argument() {
    let mut ra = defaults();
    let next = "12".to_string();
    assert_eq!(ra.with_arg("-tc", Some(&next)), Ok(()));
    assert_eq!(ra.get_thread_count(), 12);
}

#[test]
fn thread_count_flag_without_a_value() {
    let mut ra = defaults();
    assert_eq!(ra.with_arg("-tc", None), Err(ArgError::MissingThreadCount));
}

#[test]
fn thread_count_flag_with_a_bad_value() {
    let mut ra = defaults();
    let word = "many".to_string();
    assert_eq!(ra.with_arg("-tc", Some(&word)), Err(ArgError::InvalidThreadCount));
    let too_big = "256".to_string();
    assert_eq!(ra.with_arg("-tc", Some(&too_big)), Err(ArgError::InvalidThreadCount));
    assert_eq!(ra.get_thread_count(), 8);
}

#[test]
fn unrecognized_flag() {
    let mut ra = defaults();
    assert_eq!(ra.with_arg("-x", None), Err(ArgError::Unrecognized));
}

#[test]
fn plain_argument_names_the_path() {
    let mut ra = defaults();
    assert_eq!(ra.with_arg("some/dir", None), Ok(()));
    assert_eq!(ra.get_path(), "some/dir");
}

#[test]
fn whole_command_line() {
    let args = strings(&["prog", "-t", "-tc", "4", "-mb", "the/path"]);
    let ra = RunArgs::from_args(defaults(), &args).unwrap();
    assert!(ra.is_timed());
    assert_eq!(ra.get_thread_count(), 4);
    assert_eq!(ra.get_size_unit(), SizeUnit::MegaByte);
    assert_eq!(ra.get_path(), "the/path");
}

#[test]
fn first_element_is_skipped() {
    let args = strings(&["-t"]);
    let ra = RunArgs::from_args(defaults(), &args).unwrap();
    assert!(!ra.is_timed());
}

#[test]
fn first_failure_stops_the_read() {
    let args = strings(&["prog", "-nope", "-t"]);
    assert_eq!(RunArgs::from_args(defaults(), &args).err(), Some(ArgError::Unrecognized));
}

#[test]
fn numbers_parse_exactly() {
    assert_eq!(parse_u8("0"), Ok(0));
    assert_eq!(parse_u8("007"), Ok(7));
    assert_eq!(parse_u8("255"), Ok(255));
    assert_eq!(parse_u8("+31"), Ok(31));
    assert_eq!(parse_u8(""), Err(ArgError::InvalidThreadCount));
    assert_eq!(parse_u8("+"), Err(ArgError::InvalidThreadCount));
    assert_eq!(parse_u8("-1"), Err(ArgError::InvalidThreadCount));
    assert_eq!(parse_u8("256"), Err(ArgError::InvalidThreadCount));
    assert_eq!(parse_u8("9999"), Err(ArgError::InvalidThreadCount));
    assert_eq!(parse_u8("1a"), Err(ArgError::InvalidThreadCount));
}

#[test]
fn unit_labels_and_ranks() {
    assert_eq!(SizeUnit::Byte.label(), "B");
    assert_eq!(SizeUnit::KiloByte.label(), "KB");
    assert_eq!(SizeUnit::MegaByte.label(), "MB");
    assert_eq!(SizeUnit::GigaByte.label(), "GB");
    assert_eq!(SizeUnit::Byte.rank(), 0);
    assert_eq!(SizeUnit::KiloByte.rank(), 1);
    assert_eq!(SizeUnit::MegaByte.rank(), 2);
    assert_eq!(SizeUnit::GigaByte.rank(), 3);
}
