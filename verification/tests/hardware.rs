use ferrodoc::{inventory_from, parse_linux_meminfo, parse_linux_physical_cpus, Bytes, Estimate, EstimateConfidence};

#[test]
fn parses_meminfo_fixture_without_host_assumptions() {
    let parsed = parse_linux_meminfo(
        "MemTotal:       16384 kB\nMemFree: 1 kB\nMemAvailable:    4096 kB\n",
    )
    .unwrap();
    assert_eq!(parsed.0, Bytes::new(16 * Bytes::MIB));
    assert_eq!(parsed.1, Bytes::new(4 * Bytes::MIB));
    assert!(parse_linux_meminfo("MemTotal: nope kB").is_none());
}

#[test]
fn parses_physical_topology_fixture() {
    let input = "physical id: 0\ncore id: 0\n\nphysical id: 0\ncore id: 1\n\nphysical id: 1\ncore id: 0\n";
    assert_eq!(parse_linux_physical_cpus(input), Some(3));
    assert_eq!(parse_linux_physical_cpus("processor: 0\n"), None);
}

#[test]
fn meminfo_requires_kib_unit_and_first_matching_line() {
    assert!(parse_linux_meminfo("MemTotal: 1 kB\n").is_none());
    assert!(parse_linux_meminfo("MemTotal: 1 MB\nMemAvailable: 1 kB\n").is_none());
    assert!(parse_linux_meminfo("MemTotal: 1\nMemAvailable: 1 kB\n").is_none());
    assert_eq!(
        parse_linux_meminfo("MemAvailable:\t+2 kB\r\nMemTotal:8 kB extra\nMemTotal: 99 kB\n"),
        None
    );
    assert_eq!(
        parse_linux_meminfo("MemAvailable:\t+2 kB\r\nMemTotal: 8 kB extra\nMemTotal: 99 kB"),
        Some((Bytes::new(8 * 1024), Bytes::new(2 * 1024)))
    );
    let overflow = format!("MemTotal: {} kB\nMemAvailable: 1 kB\n", u64::MAX / 1024 + 1);
    assert!(parse_linux_meminfo(&overflow).is_none());
    let limit = format!("MemTotal: {} kB\nMemAvailable: 0 kB\n", u64::MAX / 1024);
    assert_eq!(
        parse_linux_meminfo(&limit),
        Some((Bytes::new(u64::MAX / 1024 * 1024), Bytes::new(0)))
    );
}

#[test]
fn topology_counts_distinct_complete_pairs() {
    let repeated = "physical id : 0\ncore id\t: 2\n\nphysical id: 0\ncore id: 2\n\n";
    assert_eq!(parse_linux_physical_cpus(repeated), Some(1));
    let unterminated = "core id: 4\nphysical id: 7";
    assert_eq!(parse_linux_physical_cpus(unterminated), Some(1));
    let reset = "physical id: 0\n\ncore id: 1\n";
    assert_eq!(parse_linux_physical_cpus(reset), None);
    let bad_value = "physical id: x\ncore id: 1\n\n";
    assert_eq!(parse_linux_physical_cpus(bad_value), None);
    assert_eq!(parse_linux_physical_cpus(""), None);
}

#[test]
fn inventory_keeps_unread_sources_unknown() {
    let inventory = inventory_from(None, None, None, Vec::new());
    assert!(inventory.logical_cpus.is_unknown());
    assert!(inventory.physical_cpus.is_unknown());
    assert!(inventory.cpu_source.is_unknown());
    assert!(inventory.ram_total.is_unknown());
    assert!(inventory.ram_source.is_unknown());

    let inventory = inventory_from(
        Some(8),
        Some("physical id: 0\ncore id: 0\n"),
        Some("MemTotal: 4 kB\nMemAvailable: 2 kB\n"),
        Vec::new(),
    );
    assert_eq!(inventory.logical_cpus, Estimate::Known(8));
    assert_eq!(inventory.physical_cpus, Estimate::Known(1));
    let source = inventory.cpu_source.known().unwrap();
    assert_eq!(source.confidence, EstimateConfidence::Measured);
    assert_eq!(source.method, "os.parallelism+linux.proc.cpuinfo");
    assert_eq!(inventory.ram_total, Estimate::Known(Bytes::new(4096)));
    assert_eq!(inventory.ram_available, Estimate::Known(Bytes::new(2048)));
    assert_eq!(
        inventory.ram_source.known().unwrap().method,
        "linux.proc.meminfo"
    );

    let inventory = inventory_from(Some(2), None, Some("garbage"), Vec::new());
    assert_eq!(inventory.cpu_source.known().unwrap().method, "os.parallelism");
    assert!(inventory.ram_available.is_unknown());
}
