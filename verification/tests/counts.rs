use blibs::counts::{fetched_records, records, results};

#[test]
fn one_is_singular_and_everything_else_is_plural() {
    assert_eq!(records(1), "1 record");
    assert_eq!(records(0), "0 records");
    assert_eq!(records(10), "10 records");
    assert_eq!(results(1), "1 result");
    assert_eq!(results(0), "0 results");
    assert_eq!(results(774), "774 results");
    assert_eq!(fetched_records(1), "1 fetched record");
    assert_eq!(fetched_records(0), "0 fetched records");
    assert_eq!(fetched_records(50), "50 fetched records");
}

#[test]
fn large_counts_are_written_out_in_full() {
    assert_eq!(results(u64::MAX), "18446744073709551615 results");
    assert_eq!(records(1234567), "1234567 records");
}
