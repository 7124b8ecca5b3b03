use gpu_monitor::telemetry::{
    gauge_percent, get_clock_data, get_gpu_info, ClockError, GpuInfo, SnapshotData,
};

fn snapshot(g: i32, gm: i32, m: i32, mm: i32, t: i32, f: i32) -> SnapshotData {
    SnapshotData {
        graphics_current: g,
        graphics_max: gm,
        memory_current: m,
        memory_max: mm,
        temperature: t,
        fan_speed: f,
    }
}

#[test]
fn metrics_line_parses_in_order() {
    assert_eq!(
        get_clock_data("300,1500,405,7000,65,40"),
        Ok(snapshot(300, 1500, 405, 7000, 65, 40))
    );
}

#[test]
fn metrics_line_with_spaces_and_newline() {
    assert_eq!(
        get_clock_data(" 1200, 2100 ,7000,\t7001, 48, 0\n"),
        Ok(snapshot(1200, 2100, 7000, 7001, 48, 0))
    );
}

#[test]
fn metrics_line_with_unicode_spaces() {
    assert_eq!(
        get_clock_data("\u{3000}1,2\u{a0},3,4,5,6"),
        Ok(snapshot(1, 2, 3, 4, 5, 6))
    );
}

#[test]
fn metrics_line_with_four_fields_fails() {
    assert_eq!(get_clock_data("300,1500,405,7000"), Err(ClockError::FieldCount(4)));
}

#[test]
fn metrics_line_with_seven_fields_fails() {
    assert_eq!(get_clock_data("1,2,3,4,5,6,7"), Err(ClockError::FieldCount(7)));
}

#[test]
fn empty_metrics_output_fails() {
    assert_eq!(get_clock_data(""), Err(ClockError::FieldCount(1)));
}

#[test]
fn metrics_field_not_a_number() {
    assert_eq!(
        get_clock_data("300,1500,[N/A],7000,65,x"),
        Err(ClockError::NotANumber(2))
    );
    assert_eq!(get_clock_data("300,1500,405,7000,65,"), Err(ClockError::NotANumber(5)));
    assert_eq!(get_clock_data("300,1500,405,7000,6 5,40"), Err(ClockError::NotANumber(4)));
}

#[test]
fn metrics_signs_and_limits() {
    assert_eq!(
        get_clock_data("-2147483648,+7,-0,2147483647,007,-1"),
        Ok(snapshot(-2147483648, 7, 0, 2147483647, 7, -1))
    );
    assert_eq!(get_clock_data("2147483648,1,1,1,1,1"), Err(ClockError::NotANumber(0)));
    assert_eq!(get_clock_data("1,-2147483649,1,1,1,1"), Err(ClockError::NotANumber(1)));
    assert_eq!(get_clock_data("1,1,-,1,1,1"), Err(ClockError::NotANumber(2)));
    assert_eq!(get_clock_data("1,1,1,+,1,1"), Err(ClockError::NotANumber(3)));
    assert_eq!(get_clock_data("1,1,1,1,+-1,1"), Err(ClockError::NotANumber(4)));
    assert_eq!(
        get_clock_data("99999999999999999999999,1,1,1,1,1"),
        Err(ClockError::NotANumber(0))
    );
}

#[test]
fn identity_line_is_trimmed() {
    assert_eq!(
        get_gpu_info(" RTX Model , 535.10 , 94.02.26 "),
        Some(GpuInfo {
            name: "RTX Model".to_string(),
            driver: "535.10".to_string(),
            bios: "94.02.26".to_string(),
        })
    );
}

#[test]
fn identity_line_extra_fields_ignored() {
    assert_eq!(
        get_gpu_info("Card,1.0,2.0\n,extra"),
        Some(GpuInfo {
            name: "Card".to_string(),
            driver: "1.0".to_string(),
            bios: "2.0".to_string(),
        })
    );
}

#[test]
fn identity_line_with_empty_fields() {
    assert_eq!(
        get_gpu_info(",,"),
        Some(GpuInfo { name: String::new(), driver: String::new(), bios: String::new() })
    );
}

#[test]
fn identity_line_too_short() {
    assert_eq!(get_gpu_info("Card,1.0"), None);
    assert_eq!(get_gpu_info(""), None);
}

#[test]
fn default_snapshot_is_zero() {
    assert_eq!(SnapshotData::default(), snapshot(0, 0, 0, 0, 0, 0));
}

#[test]
fn gauge_percent_values() {
    assert_eq!(gauge_percent(300, 1500), 20);
    assert_eq!(gauge_percent(1, 3), 33);
    assert_eq!(gauge_percent(1500, 1500), 100);
    assert_eq!(gauge_percent(2000, 1500), 100);
    assert_eq!(gauge_percent(5, 0), 0);
    assert_eq!(gauge_percent(-5, 100), 0);
    assert_eq!(gauge_percent(i32::MAX - 1, i32::MAX), 99);
}
