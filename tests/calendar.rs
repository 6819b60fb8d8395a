use whatwg_datetime::{
    is_valid_hour, is_valid_min_or_sec, is_valid_month, max_days_in_month_year,
    week_number_of_year, weeks_in_year_from_weekday,
};

#[test]
fn test_max_days_in_month_28_days() {
    assert_eq!(max_days_in_month_year(2, 2021), Some(28));
    assert_eq!(max_days_in_month_year(2, 2022), Some(28));
    assert_eq!(max_days_in_month_year(2, 2023), Some(28));
}

#[test]
fn test_max_days_in_month_29_days() {
    assert_eq!(max_days_in_month_year(2, 2020), Some(29));
    assert_eq!(max_days_in_month_year(2, 2024), Some(29));
    assert_eq!(max_days_in_month_year(2, 2028), Some(29));
    assert_eq!(max_days_in_month_year(2, 2400), Some(29));
}

#[test]
fn test_max_days_in_month_30_days() {
    assert_eq!(max_days_in_month_year(4, 2021), Some(30));
    assert_eq!(max_days_in_month_year(6, 2021), Some(30));
    assert_eq!(max_days_in_month_year(9, 2021), Some(30));
    assert_eq!(max_days_in_month_year(11, 2021), Some(30));
}

#[test]
fn test_max_days_in_month_31_days() {
    assert_eq!(max_days_in_month_year(1, 2021), Some(31));
    assert_eq!(max_days_in_month_year(3, 2019), Some(31));
    assert_eq!(max_days_in_month_year(5, 2000), Some(31));
    assert_eq!(max_days_in_month_year(7, 3097), Some(31));
    assert_eq!(max_days_in_month_year(8, 1985), Some(31));
    assert_eq!(max_days_in_month_year(10, 1426), Some(31));
    assert_eq!(max_days_in_month_year(12, 1953), Some(31));
}

#[test]
fn test_max_days_in_month_nothing() {
    assert_eq!(max_days_in_month_year(13, 2022), None);
}

#[test]
fn test_week_number_of_year_is_52() {
    assert_eq!(week_number_of_year(2012), Some(52));
    assert_eq!(week_number_of_year(2017), Some(52));
    assert_eq!(week_number_of_year(2018), Some(52));
    assert_eq!(week_number_of_year(2019), Some(52));
    assert_eq!(week_number_of_year(2021), Some(52));
    assert_eq!(week_number_of_year(2022), Some(52));
    assert_eq!(week_number_of_year(2023), Some(52));
}

#[test]
fn test_week_number_of_year_is_53() {
    assert_eq!(week_number_of_year(1801), Some(53));
    assert_eq!(week_number_of_year(2004), Some(53));
    assert_eq!(week_number_of_year(2009), Some(53));
    assert_eq!(week_number_of_year(2015), Some(53));
    assert_eq!(week_number_of_year(2020), Some(53));
}

#[test]
fn test_week_number_of_year_starts_on_wednesday_and_not_leap_year_is_52() {
    assert_eq!(week_number_of_year(2014), Some(52));
    assert_eq!(week_number_of_year(2025), Some(52));
}

#[test]
fn week_number_of_year_outside_date_range() {
    assert_eq!(week_number_of_year(262143), None);
    assert_eq!(week_number_of_year(-262144), None);
    assert!(week_number_of_year(262142).is_some());
}

#[test]
fn weeks_from_new_year_weekday() {
    assert_eq!(weeks_in_year_from_weekday(2015, 3), 53);
    assert_eq!(weeks_in_year_from_weekday(2020, 2), 53);
    assert_eq!(weeks_in_year_from_weekday(2014, 2), 52);
    assert_eq!(weeks_in_year_from_weekday(-4, 2), 53);
    assert_eq!(weeks_in_year_from_weekday(2012, 6), 52);
}

#[test]
fn clock_field_ranges() {
    assert!(is_valid_month(&1) && is_valid_month(&12));
    assert!(!is_valid_month(&0) && !is_valid_month(&13));
    assert!(is_valid_hour(&23) && !is_valid_hour(&24));
    assert!(is_valid_min_or_sec(&59) && !is_valid_min_or_sec(&60));
}
