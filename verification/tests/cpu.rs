use sysmon::cpu::{Core, CoreError, Cores, Decimal, Info, InfoError, Usage, UsageError};
use sysmon::scan::ScanFile;

const USAGE_STR: &str = "cpu  1 2 3 4 5 6 7 8 9 10";

const USAGE: Usage = Usage {
    user: 1,
    nice: 2,
    system: 3,
    idle: 4,
    iowait: 5,
    irq: 6,
    softirq: 7,
    steal: 8,
    guest: 9,
    guest_nice: 10,
};

#[test]
fn test_probe_cpu_usage_invalid_cpu_line() {
    let data = format!("{} 0 0 0 0 0", USAGE_STR);

    let err = Usage::parse(&data).unwrap_err();

    assert!(matches!(err, UsageError::InvalidCpuLine));
}

#[test]
fn test_probe_cpu_usage_parse_int() {
    let data = USAGE_STR.replace("10", "abc");

    let err = Usage::parse(&data).unwrap_err();

    assert!(matches!(err, UsageError::ParseInt(_)));
}

#[test]
fn test_probe_cpu_usage_missing() {
    let data = USAGE_STR.replace("cpu", "");

    let err = Usage::parse(&data).unwrap_err();

    assert!(matches!(err, UsageError::CpuMissing));
}

#[test]
fn test_probe_cpu_usage_success() {
    let usage = Usage::parse(USAGE_STR).unwrap();

    assert_eq!(usage, USAGE);
}

fn sensor_file(name: &str, content: &str) -> ScanFile {
    ScanFile {
        name: name.to_string(),
        path: format!("/tmp/coretemp/{}", name),
        content: Ok(content.to_string()),
    }
}

fn sensor_dir(crit_alarm: &str, label: &str) -> Vec<ScanFile> {
    vec![
        sensor_file("temp1_crit_alarm", crit_alarm),
        sensor_file("temp1_input", "47000"),
        sensor_file("temp1_crit", "100000"),
        sensor_file("temp1_label", label),
        sensor_file("temp1_max", "100000"),
    ]
}

fn cores() -> Vec<Core> {
    vec![Core {
        max_temp: 100000,
        crit: 100000,
        temp: 47000,
        count: 0,
    }]
}

#[test]
fn test_probe_cpu_cores_invalid_label() {
    let files = sensor_dir("0", "Core");

    let err = Cores::from_files(&files).unwrap_err();

    assert!(matches!(err, CoreError::InvalidLabel(_)));
}

#[test]
fn test_probe_cpu_cores_parse_int() {
    let files = sensor_dir("0", "Core a");

    let err = Cores::from_files(&files).unwrap_err();

    assert!(matches!(err, CoreError::ParseInt(_)));
}

#[test]
fn test_probe_cpu_cores_success() {
    let files = sensor_dir("0", "Core 0");

    let res = Cores::from_files(&files).unwrap();

    assert_eq!(cores(), res);
}

#[test]
fn cores_unreadable_sensor_is_io() {
    let mut files = sensor_dir("0", "Core 0");
    files[1].content = Err("permission denied".to_string());

    let err = Cores::from_files(&files).unwrap_err();

    assert!(matches!(err, CoreError::Io(_)));
}

#[test]
fn cores_skip_non_core_labels() {
    let mut files = sensor_dir("0", "Core 2");
    files.extend(vec![
        sensor_file("temp2_crit_alarm", "0"),
        sensor_file("temp2_input", "51000"),
        sensor_file("temp2_crit", "90000"),
        sensor_file("temp2_label", "Package id 0"),
        sensor_file("temp2_max", "80000"),
    ]);

    let res = Cores::from_files(&files).unwrap();

    assert_eq!(
        res,
        vec![Core {
            max_temp: 100000,
            crit: 100000,
            temp: 47000,
            count: 2,
        }]
    );
}

#[test]
fn cores_read_every_whole_group() {
    // groups 1 and 3 are whole and group 2 is absent: both are read
    let mut files = sensor_dir("0", "Core 0");
    files.extend(vec![
        sensor_file("temp3_crit_alarm", "0"),
        sensor_file("temp3_input", "51000"),
        sensor_file("temp3_crit", "90000"),
        sensor_file("temp3_label", "Core 3"),
        sensor_file("temp3_max", "80000"),
    ]);

    let res = Cores::from_files(&files).unwrap();

    assert_eq!(
        res,
        vec![
            Core {
                max_temp: 100000,
                crit: 100000,
                temp: 47000,
                count: 0,
            },
            Core {
                max_temp: 80000,
                crit: 90000,
                temp: 51000,
                count: 3,
            },
        ]
    );
}

#[test]
fn cores_come_in_ascending_group_order() {
    // the scan lists group 10 before group 2; the cores still come ordered
    let mut files = Vec::new();
    for (idx, label) in [("10", "Core 10"), ("2", "Core 2")] {
        files.extend(vec![
            sensor_file(&format!("temp{}_crit_alarm", idx), "0"),
            sensor_file(&format!("temp{}_input", idx), "41000"),
            sensor_file(&format!("temp{}_crit", idx), "95000"),
            sensor_file(&format!("temp{}_label", idx), label),
            sensor_file(&format!("temp{}_max", idx), "85000"),
        ]);
    }

    let res = Cores::from_files(&files).unwrap();

    assert_eq!(res.len(), 2);
    assert_eq!(res[0].count, 2);
    assert_eq!(res[1].count, 10);
}

#[test]
fn cores_skip_incomplete_groups() {
    // group 2 lacks its label file: it names no core and raises no error
    let mut files = sensor_dir("0", "Core 0");
    files.extend(vec![
        sensor_file("temp2_crit_alarm", "0"),
        sensor_file("temp2_input", "51000"),
        sensor_file("temp2_crit", "90000"),
        sensor_file("temp2_max", "80000"),
    ]);

    let res = Cores::from_files(&files).unwrap();

    assert_eq!(res, cores());
}

#[test]
fn cores_empty_scan_gives_no_cores() {
    let files: Vec<ScanFile> = Vec::new();

    let res = Cores::from_files(&files).unwrap();

    assert_eq!(res, Vec::new());
}

#[test]
fn cores_probe_is_idempotent() {
    let files = sensor_dir("0", "Core 0");

    let a = Cores::from_files(&files).unwrap();
    let b = Cores::from_files(&files).unwrap();

    assert_eq!(a, b);
}

const INFO_STR: &str = "\
processor : 0
vendor_id  : GenuineIntel
model name  : Intel(R) Core(TM) i7-10870H CPU @ 2.20GHz
cpu MHz  : 800.000
siblings  : 16
cpu cores : 8
power management:
";

fn info() -> Info {
    Info {
        model: Some(String::from(
            "Intel(R) Core(TM) i7-10870H CPU @ 2.20GHz",
        )),
        mhz: Decimal {
            units: 800,
            billionths: 0,
        },
        siblings: 16,
        cores: 8,
    }
}

#[test]
fn test_probe_cpu_info_parse_float() {
    let data = INFO_STR.replace("800.000", "abc");

    let err = Info::parse(&data).unwrap_err();

    assert!(matches!(err, InfoError::ParseFloat(_)));
}

#[test]
fn test_probe_cpu_info_missing_mhz() {
    let data = INFO_STR.replace("cpu MHz", "placeholder");

    let err = Info::parse(&data).unwrap_err();

    assert!(matches!(err, InfoError::CpuMhzNotFound));
}

#[test]
fn test_probe_cpu_info_missing_cores() {
    let data = INFO_STR.replace("cpu cores", "placeholder");

    let err = Info::parse(&data).unwrap_err();

    assert!(matches!(err, InfoError::CoresNotFound));
}

#[test]
fn test_probe_cpu_info_missing_siblings() {
    let data = INFO_STR.replace("siblings", "placeholder");

    let err = Info::parse(&data).unwrap_err();

    assert!(matches!(err, InfoError::SiblingsNotFound));
}

#[test]
fn test_probe_cpu_info_parse_int() {
    let data = INFO_STR.replace("8", "abc");

    let err = Info::parse(&data).unwrap_err();

    assert!(matches!(err, InfoError::ParseInt(_)));
}

#[test]
fn test_probe_cpu_info_success() {
    let res = Info::parse(INFO_STR).unwrap();

    assert_eq!(res, info());
}

#[test]
fn info_model_absence_is_tolerated() {
    let data = INFO_STR.replace("model name", "placeholder");

    let res = Info::parse(&data).unwrap();

    assert_eq!(res.model, None);
    assert_eq!(res.siblings, 16);
}

#[test]
fn info_fractional_mhz_is_exact() {
    let data = INFO_STR.replace("800.000", "2200.125");

    let res = Info::parse(&data).unwrap();

    assert_eq!(
        res.mhz,
        Decimal {
            units: 2200,
            billionths: 125_000_000,
        }
    );
}

#[test]
fn info_probe_is_idempotent() {
    let a = Info::parse(INFO_STR).unwrap();
    let b = Info::parse(INFO_STR).unwrap();

    assert_eq!(a, b);
}

#[test]
fn cpu_combines_usage_and_cores() {
    let usage = Usage::parse(USAGE_STR);
    let files = sensor_dir("0", "Core 0");
    let cs = Cores::from_files(&files);

    let cpu = sysmon::cpu::Cpu::combine(usage, cs).unwrap();

    assert_eq!(cpu.usage, USAGE);
    assert_eq!(cpu.cores, cores());
}

#[test]
fn cpu_propagates_usage_error_first() {
    let usage = Usage::parse("nonsense");
    let files = sensor_dir("0", "Core");
    let cs = Cores::from_files(&files);

    let err = sysmon::cpu::Cpu::combine(usage, cs).unwrap_err();

    assert!(matches!(
        err,
        sysmon::cpu::CpuError::UsageError(UsageError::CpuMissing)
    ));
}

#[test]
fn cpu_propagates_core_error() {
    let usage = Usage::parse(USAGE_STR);
    let files = sensor_dir("0", "Core");
    let cs = Cores::from_files(&files);

    let err = sysmon::cpu::Cpu::combine(usage, cs).unwrap_err();

    assert!(matches!(
        err,
        sysmon::cpu::CpuError::CoreError(CoreError::InvalidLabel(_))
    ));
}

#[test]
fn usage_probe_is_idempotent() {
    let a = Usage::parse(USAGE_STR).unwrap();
    let b = Usage::parse(USAGE_STR).unwrap();

    assert_eq!(a, b);
}

#[test]
fn test_probe_cpu_usage_io() {
    let err = Usage::probe_read(Err("No such file or directory".to_string())).unwrap_err();

    assert!(matches!(err, UsageError::Io(_)));
}

#[test]
fn test_probe_cpu_cores_io() {
    let err = Cores::probe_scan(Err("No such file or directory".to_string())).unwrap_err();

    assert!(matches!(err, CoreError::Io(_)));
}

#[test]
fn test_probe_cpu_info_io() {
    let err = Info::probe_read(Err("No such file or directory".to_string())).unwrap_err();

    assert!(matches!(err, InfoError::Io(_)));
}

#[test]
fn usage_probe_read_parses_content() {
    let usage = Usage::probe_read(Ok(USAGE_STR.to_string())).unwrap();

    assert_eq!(usage, USAGE);
}
