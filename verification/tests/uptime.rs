use sysmon::uptime::{Duration, Error, Uptime};

const UPTIME_STR: &str = "10.0 20.0";

const UPTIME: Uptime = Uptime {
    uptime: Duration { secs: 10, nanos: 0 },
    idle: Duration { secs: 20, nanos: 0 },
};

#[test]
fn test_probe_uptime_parse_float() {
    let data = UPTIME_STR.replace("20.0", "abc");

    let err = Uptime::parse(&data).unwrap_err();

    assert!(matches!(err, Error::ParseFloat(_)));
}

#[test]
fn test_probe_uptime_invalid() {
    let data = format!("{} 30.0", UPTIME_STR);

    let err = Uptime::parse(&data).unwrap_err();

    assert!(matches!(err, Error::InvalidUptime));
}

#[test]
fn test_probe_uptime_success() {
    let uptime = Uptime::parse(UPTIME_STR).unwrap();

    assert_eq!(uptime, UPTIME);
}

#[test]
fn test_probe_uptime_empty() {
    let err = Uptime::parse("").unwrap_err();

    assert!(matches!(err, Error::Empty));
}

#[test]
fn uptime_single_column_is_invalid() {
    let err = Uptime::parse("10.0").unwrap_err();

    assert!(matches!(err, Error::InvalidUptime));
}

#[test]
fn uptime_blank_line_is_invalid() {
    let err = Uptime::parse("\n").unwrap_err();

    assert!(matches!(err, Error::InvalidUptime));
}

#[test]
fn uptime_fractions_become_nanoseconds() {
    let uptime = Uptime::parse("10.5 20.25").unwrap();

    assert_eq!(
        uptime,
        Uptime {
            uptime: Duration {
                secs: 10,
                nanos: 500_000_000,
            },
            idle: Duration {
                secs: 20,
                nanos: 250_000_000,
            },
        }
    );
}

#[test]
fn uptime_reads_only_the_first_line() {
    let uptime = Uptime::parse("10.0 20.0\n99.0 98.0 97.0\n").unwrap();

    assert_eq!(uptime, UPTIME);
}

#[test]
fn uptime_whole_seconds_need_no_point() {
    let uptime = Uptime::parse("10 20").unwrap();

    assert_eq!(uptime, UPTIME);
}

#[test]
fn uptime_probe_is_idempotent() {
    let a = Uptime::parse(UPTIME_STR).unwrap();
    let b = Uptime::parse(UPTIME_STR).unwrap();

    assert_eq!(a, b);
}

#[test]
fn test_probe_uptime_io() {
    let err = Uptime::probe_read(Err("No such file or directory".to_string())).unwrap_err();

    assert!(matches!(err, Error::Io(_)));
}
