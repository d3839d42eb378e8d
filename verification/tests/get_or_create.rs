use ormada::query::get_or_create_retries;

#[test]
fn get_or_create_retries_unique_violations_twice() {
    let dup = "UNIQUE constraint failed: books.isbn";
    assert!(get_or_create_retries(0, dup));
    assert!(get_or_create_retries(1, dup));
    assert!(!get_or_create_retries(2, dup));
    assert!(!get_or_create_retries(0, "connection reset"));
}
