use sentiment_rollup::statement::delete_statement;

#[test]
fn deletes_the_listed_events() {
    assert_eq!(
        delete_statement(&vec![1, 2, 3]),
        Some("DELETE FROM events WHERE id IN (1,2,3)".to_string())
    );
}

#[test]
fn deletes_one_event() {
    assert_eq!(
        delete_statement(&vec![25934]),
        Some("DELETE FROM events WHERE id IN (25934)".to_string())
    );
}

#[test]
fn keeps_the_order_and_the_signs() {
    assert_eq!(
        delete_statement(&vec![10, -3, 0, i32::MAX, i32::MIN]),
        Some("DELETE FROM events WHERE id IN (10,-3,0,2147483647,-2147483648)".to_string())
    );
}

#[test]
fn nothing_to_delete_makes_no_statement() {
    assert_eq!(delete_statement(&Vec::new()), None);
}
