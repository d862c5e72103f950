use cnc_remedy::archive::{
    archive_folder_name, date_format, uses_modified_time, LocalTime, ARCHIVE_DIR_NAME,
    DEFAULT_DATE_FORMAT,
};
use cnc_remedy::settings::Extra;

fn moment() -> LocalTime {
    LocalTime {
        year: 2024,
        month: 3,
        day: 15,
        hour: 10,
        minute: 30,
        second: 5,
        nanosecond: 0,
        offset_seconds: 3 * 3600,
    }
}

#[test]
fn default_folder_name_is_day_month_year_hour_minute() {
    assert_eq!(ARCHIVE_DIR_NAME, "_");
    assert_eq!(DEFAULT_DATE_FORMAT, "%d%m%y.%H%M");
    let extra = Extra::new();
    assert_eq!(date_format(&extra), "%d%m%y.%H%M");
    assert_eq!(archive_folder_name(&moment(), &extra), Some("150324.1030".to_string()));
}

#[test]
fn custom_date_format_is_used() {
    let mut extra = Extra::new();
    extra.insert("date_format".to_string(), "%Y-%m-%d_%H%M%S %z".to_string());
    assert_eq!(
        archive_folder_name(&moment(), &extra),
        Some("2024-03-15_103005 +0300".to_string())
    );
}

#[test]
fn invalid_format_or_date_gives_no_name() {
    let mut extra = Extra::new();
    extra.insert("date_format".to_string(), "%Q".to_string());
    assert_eq!(archive_folder_name(&moment(), &extra), None);
    let mut bad = moment();
    bad.month = 13;
    assert_eq!(archive_folder_name(&bad, &Extra::new()), None);
}

#[test]
fn timestamp_source_setting() {
    let mut extra = Extra::new();
    assert!(!uses_modified_time(&extra));
    extra.insert("timestamp_source".to_string(), "modified".to_string());
    assert!(uses_modified_time(&extra));
    extra.insert("timestamp_source".to_string(), "now".to_string());
    assert!(!uses_modified_time(&extra));
}
