use pi_dash::model::{TempGroup, TemperatureSensor};
use pi_dash::temps::{
    choose_sensors, group_key_of, group_temperatures, is_soc_label, names_soc_lower, round_tenth_exec,
};

fn sensor(label: &str, milli: i32, kind: &str) -> TemperatureSensor {
    TemperatureSensor { label: label.to_string(), temperature: milli, sensor_type: kind.to_string() }
}

fn sample() -> Vec<TemperatureSensor> {
    vec![
        sensor("nvme Composite", 38250, "nvme"),
        sensor("CPU Core 0", 51200, "coretemp"),
        sensor("Package id 0", 47000, "coretemp"),
        sensor("GPU", 61349, "amdgpu"),
        sensor("acpitz temp1", 27800, "acpitz"),
        sensor("nvme Sensor 2", 40950, "nvme"),
        sensor("soc_thermal", -1250, "thermal"),
    ]
}

fn group(label: &str, t: i32) -> TempGroup {
    TempGroup { label: label.to_string(), temperature: t }
}

#[test]
fn groups_sorted_with_soc_first() {
    let r = group_temperatures(sample());
    assert_eq!(
        r,
        vec![group("SOC", 6130), group("acpitz", 2780), group("coretemp", 4700), group("nvme", 4100)]
    );
}

#[test]
fn grouping_ignores_input_order() {
    let base = group_temperatures(sample());
    let mut rev = sample();
    rev.reverse();
    assert_eq!(group_temperatures(rev), base);
    let mut rotated = sample();
    rotated.rotate_left(3);
    assert_eq!(group_temperatures(rotated), base);
    let mut swapped = sample();
    swapped.swap(0, 5);
    swapped.swap(1, 6);
    assert_eq!(group_temperatures(swapped), base);
}

#[test]
fn no_sensors_no_groups() {
    assert!(group_temperatures(Vec::new()).is_empty());
}

#[test]
fn keywords_match_in_any_case() {
    assert!(is_soc_label("CPU Core 0"));
    assert!(is_soc_label("NPU"));
    assert!(is_soc_label("gpu-thermal"));
    assert!(is_soc_label("SoC"));
    assert!(is_soc_label("Center"));
    assert!(!is_soc_label("Composite"));
    assert!(!is_soc_label("temp1"));
    assert_eq!(group_key_of(&sensor("Tctl", 1, "k10temp")), "k10temp");
    assert_eq!(group_key_of(&sensor("big Core", 1, "k10temp")), "SOC");
}

#[test]
fn rounding_to_a_tenth() {
    assert_eq!(round_tenth_exec(45678), 4570);
    assert_eq!(round_tenth_exec(45650), 4570);
    assert_eq!(round_tenth_exec(45649), 4560);
    assert_eq!(round_tenth_exec(0), 0);
    assert_eq!(round_tenth_exec(-1250), -130);
    assert_eq!(round_tenth_exec(-1249), -120);
}

#[test]
fn hottest_reading_wins() {
    let r = group_temperatures(vec![
        sensor("a", 30000, "x"),
        sensor("b", 45000, "x"),
        sensor("c", 44000, "x"),
    ]);
    assert_eq!(r, vec![group("x", 4500)]);
}

#[test]
fn soc_alone_and_labels_sorted() {
    let r = group_temperatures(vec![sensor("t", 1000, "zeta"), sensor("t", 1000, "Alpha"), sensor("t", 1000, "beta")]);
    let labels: Vec<&str> = r.iter().map(|g| g.label.as_str()).collect();
    assert_eq!(labels, vec!["Alpha", "beta", "zeta"]);
    let r = group_temperatures(vec![sensor("core", 1000, "a")]);
    assert_eq!(r, vec![group("SOC", 100)]);
}

#[test]
fn keywords_on_lowercase_text() {
    assert!(names_soc_lower("cpu core 0"));
    assert!(names_soc_lower("xcenterx"));
    assert!(!names_soc_lower("CORE"));
    assert!(!names_soc_lower(""));
}

#[test]
fn hwmon_readings_take_precedence() {
    let hw = vec![sensor("a", 1, "hw")];
    let comp = vec![sensor("b", 2, "component")];
    assert_eq!(choose_sensors(hw.clone(), comp.clone()), hw);
    assert_eq!(choose_sensors(Vec::new(), comp.clone()), comp);
    assert!(choose_sensors(Vec::new(), Vec::new()).is_empty());
}
