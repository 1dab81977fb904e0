use rust_basics::error::{recover, OpenFailure, Recovery};

#[test]
fn missing_file_is_created() {
    assert_eq!(recover(OpenFailure::NotFound), Recovery::Create);
}

#[test]
fn other_failures_end_the_work() {
    assert_eq!(recover(OpenFailure::Other), Recovery::GiveUp);
}
