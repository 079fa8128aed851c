use vanessa::time::{
    current_month, current_year, date, epoch_days, epoch_millis, epoch_months, epoch_years, hour,
    minute, second, timestamp, timestamp_now,
};

#[test]
fn time_interface() {
    let now = epoch_millis();
    epoch_days(now);
    epoch_months(now);
    epoch_years(now);
    current_month(now);
    date(now);
    hour(now);
    minute(now);
    second(now);
    timestamp(now);
    timestamp_now();
}

#[test]
fn epoch_start_is_first_of_january_1970() {
    assert_eq!(epoch_days(0), 0);
    assert_eq!(epoch_months(0), 0);
    assert_eq!(current_month(0), "January");
    assert_eq!(date(0), 1);
    assert_eq!(current_year(0), 1970);
    assert_eq!(timestamp(0), "1970-Jan-1-00:00:00");
}

#[test]
fn day_count_divides_by_a_day() {
    assert_eq!(epoch_days(86_400_000 * 3 - 1), 2);
    assert_eq!(epoch_days(86_400_000 * 3), 3);
}

#[test]
fn month_boundaries_of_1970() {
    assert_eq!(epoch_months(2_678_400_000 - 1), 0);
    assert_eq!(epoch_months(2_678_400_000), 1);
    assert_eq!(current_month(2_678_400_000), "February");
    assert_eq!(epoch_months(5_097_600_000), 2);
    assert_eq!(current_month(5_097_600_000), "March");
    assert_eq!(date(5_097_600_000), 1);
}

#[test]
fn leap_day_of_1972() {
    assert_eq!(current_month(68_169_600_000), "February");
    assert_eq!(date(68_169_600_000), 29);
    assert_eq!(epoch_months(68_169_600_000), 25);
    assert_eq!(timestamp(68_169_600_000), "1972-Feb-29-00:00:00");
}

#[test]
fn year_two_thousand_is_a_leap_year() {
    assert_eq!(current_month(951_782_400_000), "February");
    assert_eq!(date(951_782_400_000), 29);
    assert_eq!(epoch_months(951_782_400_000), 361);
    assert_eq!(timestamp(951_782_400_000), "2000-Feb-29-00:00:00");
    assert_eq!(current_month(951_868_800_000), "March");
    assert_eq!(date(951_868_800_000), 1);
    assert_eq!(epoch_months(951_868_800_000), 362);
}

#[test]
fn year_2100_has_no_leap_day() {
    // 2100-03-01T00:00:00Z: 2100 is divisible by 100 but not by 400.
    assert_eq!(current_month(4_107_542_400_000), "March");
    assert_eq!(date(4_107_542_400_000), 1);
    assert_eq!(current_month(4_107_542_400_000 - 1), "February");
    assert_eq!(date(4_107_542_400_000 - 1), 28);
}

#[test]
fn clock_fields() {
    let t: u128 = 1_000_000_000_000;
    assert_eq!(hour(t), 1);
    assert_eq!(minute(t), 46);
    assert_eq!(second(t), 40);
    assert_eq!(epoch_years(t), 31);
    assert_eq!(current_year(t), 2001);
}

#[test]
fn timestamps_of_known_instants() {
    assert_eq!(timestamp(1_000_000_000_000), "2001-Sep-9-01:46:40");
    assert_eq!(timestamp(1_700_000_000_000), "2023-Nov-14-22:13:20");
    assert_eq!(epoch_months(1_700_000_000_000), 646);
}

#[test]
fn timestamp_now_has_the_shape_of_a_timestamp() {
    let t = timestamp_now();
    assert_eq!(t.matches('-').count(), 3);
    assert_eq!(t.matches(':').count(), 2);
}
