use nwn_files::date::{days_since_jan_1, years_since_1990};

#[test]
fn test_years_since_1990() {
    // 2020-09-13.
    assert_eq!(years_since_1990(1_600_000_000), 30)
}

#[test]
fn days_since_jan_1_counts_whole_days() {
    let start_of_1990: u64 = 631_152_000;
    assert_eq!(0, days_since_jan_1(start_of_1990));
    assert_eq!(1, days_since_jan_1(start_of_1990 + 86_400 + 5));
    assert_eq!(0, days_since_jan_1(start_of_1990 + 31_622_400));
    assert_eq!(1, years_since_1990(start_of_1990 + 31_622_400));
}
