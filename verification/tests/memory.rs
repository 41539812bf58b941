use sysmon::memory::{Error, Memory};

const MEMINFO_STR: &str = "Inactive(anon):     1 kB\n\
Active(anon):       2 kB\n\
Inactive(file):     3 kB\n\
Active(file):       4 kB\n\
Unevictable:        5 kB\n\
SwapCached:         6 kB\n\
MemAvailable:       7 kB\n\
SwapTotal:      8 kB\n\
SwapFree:       9 kB\n\
Inactive:       10 kB\n\
Mlocked:        11 kB\n\
Buffers:        12 kB\n\
MemFree:        13 kB\n\
MemTotal:      14 kB\n\
Cached:     15 kB\n\
Active:     16 kB\n";

const MEMINFO: Memory = Memory {
    inactive_anonymous: 1,
    active_anonymous: 2,
    inactive_file: 3,
    active_file: 4,
    unevictable: 5,
    swap_cached: 6,
    available: 7,
    swap_total: 8,
    swap_free: 9,
    inactive: 10,
    m_locked: 11,
    buffers: 12,
    free: 13,
    total: 14,
    cached: 15,
    active: 16,
    dirty: 17,
};

#[test]
fn test_probe_mem_invalid_format() {
    let data = format!("{}Dirty:     17 mB", MEMINFO_STR);

    let err = Memory::parse(&data).unwrap_err();

    assert!(matches!(err, Error::InvalidFormat(_)));
}

#[test]
fn test_probe_mem_missing_field() {
    let data = MEMINFO_STR.to_string();

    let err = Memory::parse(&data).unwrap_err();

    assert!(matches!(err, Error::MissingField(_)));
}

#[test]
fn test_probe_mem_missing_colon() {
    let data = format!("{}Dirty     17 kB", MEMINFO_STR);

    let err = Memory::parse(&data).unwrap_err();

    assert!(matches!(err, Error::MissingColon(_)));
}

#[test]
fn test_probe_mem_value_empty() {
    let data = format!("{}Dirty:", MEMINFO_STR);

    let err = Memory::parse(&data).unwrap_err();

    assert!(matches!(err, Error::ValueEmpty(_)));
}

#[test]
fn test_probe_mem_parse_int() {
    let data = format!("{}Dirty:     abc kB", MEMINFO_STR);

    let err = Memory::parse(&data).unwrap_err();

    assert!(matches!(err, Error::ParseInt(_)));
}

#[test]
fn test_probe_mem_key_empty() {
    let data = format!("{}:     17 kB", MEMINFO_STR);

    let err = Memory::parse(&data).unwrap_err();

    assert!(matches!(err, Error::KeyEmpty(_)));
}

#[test]
fn test_probe_mem_success() {
    let data = format!("{}Dirty:    17 kB", MEMINFO_STR);

    let mem = Memory::parse(&data).unwrap();

    assert_eq!(mem, MEMINFO);
}

#[test]
fn mem_used_is_total_minus_free() {
    let data = format!("{}Dirty:    17 kB", MEMINFO_STR);

    let mem = Memory::parse(&data).unwrap();

    assert_eq!(mem.used(), 1);
}

#[test]
fn mem_bare_unit_marker_is_value_empty() {
    let data = format!("{}Dirty:    kB", MEMINFO_STR);

    let err = Memory::parse(&data).unwrap_err();

    assert!(matches!(err, Error::ValueEmpty(_)));
}

#[test]
fn mem_overflowing_value_is_parse_int() {
    let data = format!("{}Dirty:    18446744073709551616 kB", MEMINFO_STR);

    let err = Memory::parse(&data).unwrap_err();

    assert!(matches!(err, Error::ParseInt(_)));
}

#[test]
fn mem_last_line_wins_on_duplicate_labels() {
    let data = format!("{}Dirty:    17 kB\nDirty:   42 kB", MEMINFO_STR);

    let mem = Memory::parse(&data).unwrap();

    assert_eq!(mem.dirty, 42);
}

#[test]
fn mem_empty_source_is_missing_field() {
    let err = Memory::parse("").unwrap_err();

    assert!(matches!(err, Error::MissingField(_)));
}

#[test]
fn mem_first_missing_label_is_named() {
    let data = MEMINFO_STR.to_string();

    match Memory::parse(&data).unwrap_err() {
        Error::MissingField(name) => assert_eq!(name, "Dirty"),
        other => panic!("unexpected error {:?}", other),
    }
}

#[test]
fn mem_probe_is_idempotent() {
    let data = format!("{}Dirty:    17 kB", MEMINFO_STR);

    let a = Memory::parse(&data).unwrap();
    let b = Memory::parse(&data).unwrap();

    assert_eq!(a, b);
}

#[test]
fn test_probe_mem_io() {
    let err = Memory::probe_read(Err("No such file or directory".to_string())).unwrap_err();

    assert!(matches!(err, Error::Io(_)));
}
