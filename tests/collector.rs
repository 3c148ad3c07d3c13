use pi_dash::collector::{
    disk_stats, is_counted_mount, is_cpu_label, is_temp_input, mean_frequency, memory_stats, names_cpu_lower,
    plausible_reading, usage_percent, DiskSpace,
};

fn disk(m: &str, total: u64, available: u64) -> DiskSpace {
    DiskSpace { mount: m.to_string(), total, available }
}

#[test]
fn usage_figures() {
    assert_eq!(usage_percent(1, 3), 3330);
    assert_eq!(usage_percent(2, 3), 6670);
    assert_eq!(usage_percent(1, 2000), 10);
    assert_eq!(usage_percent(1, 2001), 0);
    assert_eq!(usage_percent(0, 0), 0);
    assert_eq!(usage_percent(5, 4), 10000);
    assert_eq!(usage_percent(u64::MAX, u64::MAX), 10000);
    let m = memory_stats(8, 2, 6);
    assert_eq!(m.usage_percent, 2500);
    assert_eq!((m.total_bytes, m.used_bytes, m.free_bytes), (8, 2, 6));
}

#[test]
fn counted_mounts() {
    assert!(is_counted_mount("/"));
    assert!(is_counted_mount("/home"));
    assert!(is_counted_mount("/mnt/data"));
    assert!(is_counted_mount("/media/usb"));
    assert!(!is_counted_mount("/boot"));
    assert!(!is_counted_mount(""));
}

#[test]
fn disk_totals() {
    let d = disk_stats(&vec![disk("/", 100, 25), disk("/boot", 50, 50), disk("/home", 100, 75)]);
    assert_eq!(d.total_bytes, 200);
    assert_eq!(d.available_bytes, 100);
    assert_eq!(d.used_bytes, 100);
    assert_eq!(d.usage_percent, 5000);
    let d = disk_stats(&vec![disk("/boot", 40, 10), disk("/efi", 60, 60)]);
    assert_eq!(d.total_bytes, 100);
    assert_eq!(d.used_bytes, 30);
    assert_eq!(d.usage_percent, 3000);
    let d = disk_stats(&vec![disk("/", 10, 20)]);
    assert_eq!(d.used_bytes, 0);
    let d = disk_stats(&vec![disk("/", u64::MAX, 0), disk("/home", 5, 0)]);
    assert_eq!(d.total_bytes, u64::MAX);
    let d = disk_stats(&Vec::new());
    assert_eq!((d.total_bytes, d.usage_percent), (0, 0));
}

#[test]
fn cpu_figures() {
    assert_eq!(mean_frequency(&vec![]), 0);
    assert_eq!(mean_frequency(&vec![1000, 2001]), 1500);
    assert_eq!(mean_frequency(&vec![u64::MAX, u64::MAX]), u64::MAX);
    assert!(is_cpu_label("CPU"));
    assert!(is_cpu_label("coretemp Package id 0"));
    assert!(is_cpu_label("K10TEMP Tctl"));
    assert!(is_cpu_label("soc-thermal"));
    assert!(!is_cpu_label("nvme Composite"));
    assert!(plausible_reading(-39999));
    assert!(!plausible_reading(-40000));
    assert!(plausible_reading(149999));
    assert!(!plausible_reading(150000));
}

#[test]
fn cpu_keywords_on_lowercase_text() {
    assert!(names_cpu_lower("k10temp tctl"));
    assert!(!names_cpu_lower("K10TEMP"));
    assert!(!names_cpu_lower("nvme"));
}

#[test]
fn hwmon_input_names() {
    assert!(is_temp_input("temp1_input"));
    assert!(is_temp_input("temp12_input"));
    assert!(!is_temp_input("temp1_label"));
    assert!(!is_temp_input("in0_input"));
    assert!(!is_temp_input("temp"));
    assert!(is_temp_input("temp_input"));
}
