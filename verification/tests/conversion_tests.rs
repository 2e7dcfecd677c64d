use spoiler::conversion::{
    compare_int, compare_string, convert_bytes, convert_rate, convert_secs, date, get_percentage,
    get_status_percentage, i64_to_string, ratio_string, status_string, u64_to_string,
};
use spoiler::app::{Torrent, TorrentFile};
use std::cmp::Ordering;

fn job(name: &str) -> Torrent {
    Torrent {
        id: 1,
        name: name.to_string(),
        status: 4,
        percent_done: 453,
        recheck_progress: 120,
        eta: 61,
        rate_download: 1500,
        rate_upload: 999,
        upload_ratio: 123,
        done_date: 0,
        added_date: 86400,
        total_size: 2_000_000,
        download_dir: "/downloads".to_string(),
        files: Vec::<TorrentFile>::new(),
    }
}

#[test]
fn status_strings_match_the_daemon_codes() {
    assert_eq!(status_string(&0), "Stopped");
    assert_eq!(status_string(&1), "Queued to verify local data");
    assert_eq!(status_string(&2), "Verifying local data");
    assert_eq!(status_string(&3), "Queued to download");
    assert_eq!(status_string(&4), "Downloading");
    assert_eq!(status_string(&5), "Queued to seed");
    assert_eq!(status_string(&6), "Seeding");
    assert_eq!(status_string(&42), "");
}

#[test]
fn decimal_rendering() {
    assert_eq!(u64_to_string(0), "0");
    assert_eq!(u64_to_string(7), "7");
    assert_eq!(u64_to_string(12345), "12345");
    assert_eq!(u64_to_string(1000000), "1000000");
    assert_eq!(i64_to_string(-7), "-7");
    assert_eq!(i64_to_string(0), "0");
    assert_eq!(i64_to_string(i64::MIN), "-9223372036854775808");
}

#[test]
fn percentages_have_one_decimal_place() {
    assert_eq!(get_percentage(453), "45.3 %");
    assert_eq!(get_percentage(1000), "100.0 %");
    assert_eq!(get_percentage(0), "0.0 %");
    assert_eq!(get_percentage(7), "0.7 %");
}

#[test]
fn ratios_have_two_decimal_places() {
    assert_eq!(ratio_string(123), "1.23");
    assert_eq!(ratio_string(5), "0.05");
    assert_eq!(ratio_string(-100), "-1.00");
    assert_eq!(ratio_string(2000), "20.00");
}

#[test]
fn progress_text_follows_the_status() {
    let mut t = job("a");
    t.status = 2;
    assert_eq!(get_status_percentage(&t), "12.0 %");
    t.status = 4;
    assert_eq!(get_status_percentage(&t), "45.3 %");
    t.status = 6;
    assert_eq!(get_status_percentage(&t), "45.3 %");
    t.status = 0;
    assert_eq!(get_status_percentage(&t), "");
}

#[test]
fn durations_render_like_the_dashboard() {
    assert_eq!(convert_secs(-1), "Done");
    assert_eq!(convert_secs(-2), "Inf");
    assert_eq!(convert_secs(0), "");
    assert_eq!(convert_secs(59), "59sec");
    assert_eq!(convert_secs(60), "1min ");
    assert_eq!(convert_secs(3661), "1h 1min 1sec");
    assert_eq!(convert_secs(86400), "1d ");
    assert_eq!(convert_secs(90000), "1d ");
    assert_eq!(convert_secs(-100), "");
}

#[test]
fn byte_sizes_pick_the_decimal_unit() {
    assert_eq!(convert_bytes(999), "999 B");
    assert_eq!(convert_bytes(1500), "1.50 KB");
    assert_eq!(convert_bytes(2_000_000), "2.00 MB");
    assert_eq!(convert_bytes(3_500_000_000), "3.50 GB");
    assert_eq!(convert_bytes(1_250_000_000_000), "1.25 TB");
    assert_eq!(convert_rate(1500), "1.50 KB/s");
    assert_eq!(convert_rate(0), "0 B/s");
}

#[test]
fn dates_render_day_month_year() {
    assert_eq!(date(0), "");
    assert_eq!(date(86400), "02/01/1970 00:00");
    assert_eq!(date(1640995200), "01/01/2022 00:00");
}

#[test]
fn integer_comparison_is_the_numeric_order() {
    assert_eq!(compare_int(1, 2), Ordering::Less);
    assert_eq!(compare_int(2, 2), Ordering::Equal);
    assert_eq!(compare_int(3, 2), Ordering::Greater);
    assert_eq!(compare_int(-5, 0), Ordering::Less);
}

#[test]
fn string_comparison_is_byte_wise_and_case_sensitive() {
    assert_eq!(compare_string(&"abc".to_string(), &"abd".to_string()), Ordering::Less);
    assert_eq!(compare_string(&"abc".to_string(), &"abc".to_string()), Ordering::Equal);
    assert_eq!(compare_string(&"b".to_string(), &"a".to_string()), Ordering::Greater);
    assert_eq!(compare_string(&"Z".to_string(), &"a".to_string()), Ordering::Less);
    assert_eq!(compare_string(&"ab".to_string(), &"abc".to_string()), Ordering::Less);
    assert_eq!(compare_string(&"".to_string(), &"".to_string()), Ordering::Equal);
}
