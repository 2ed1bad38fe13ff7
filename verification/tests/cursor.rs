use aquadoggo::cursor::{CursorError, OperationCursor, PaginationCursor};
use aquadoggo::ids::{DocumentViewId, OperationId};

const ID_A: &str = "0020cfb0fa37f36d082faad3886a9ffbcc2813b7afe90f0609a556d425f1a76ec805";
const ID_B: &str = "0020dfb0fa37f36d082faad3886a9ffbcc2813b7afe90f0609a556d425f1a76ec805";

#[test]
fn operation_cursor() {
    let operation_id = OperationId::new(ID_A).unwrap();
    let cursor = OperationCursor::new(5, "username", &operation_id);
    assert_eq!(cursor.to_text().len(), 64);
}

#[test]
fn operation_cursor_is_the_digest_without_its_prefix() {
    let operation_id = OperationId::new(ID_A).unwrap();
    let cursor = OperationCursor::new(5, "username", &operation_id);
    let expected = OperationId::from_bytes(format!("5username{}", ID_A).as_bytes());
    assert_eq!(cursor.as_str(), &expected.as_str()[4..]);
    assert!(expected.as_str().starts_with("0020"));
    assert!(cursor.as_str().chars().all(|c| matches!(c, '0'..='9' | 'a'..='f')));
}

#[test]
fn operation_cursor_is_deterministic() {
    let operation_id = OperationId::new(ID_A).unwrap();
    let a = OperationCursor::new(3, "name", &operation_id);
    let b = OperationCursor::new(3, "name", &operation_id);
    assert_eq!(a, b);
    assert!(a.same(&b));
    let other_index = OperationCursor::new(4, "name", &operation_id);
    let other_name = OperationCursor::new(3, "names", &operation_id);
    assert_ne!(a, other_index);
    assert_ne!(a, other_name);
}

#[test]
fn pagination_cursor_round_trip_without_root() {
    let operation_id = OperationId::new(ID_A).unwrap();
    let cursor = PaginationCursor::new(OperationCursor::new(0, "a", &operation_id));
    let token = cursor.encode();
    assert_eq!(PaginationCursor::decode(&token), Ok(cursor));
}

#[test]
fn pagination_cursor_round_trip_with_root() {
    let a = OperationId::new(ID_A).unwrap();
    let b = OperationId::new(ID_B).unwrap();
    let view_id = DocumentViewId::from_operation_ids(&vec![a.clone(), b.clone()]).unwrap();
    let cursor = PaginationCursor::with_root(
        OperationCursor::new(1, "list", &a),
        OperationCursor::new(0, "list", &b),
        view_id,
    );
    let token = cursor.encode();
    assert_eq!(token.matches('_').count(), 3);
    assert_eq!(PaginationCursor::decode(&token), Ok(cursor));
}

#[test]
fn pagination_cursor_decode_errors() {
    let a = OperationId::new(ID_A).unwrap();
    let good = OperationCursor::new(0, "a", &a).to_text();
    assert_eq!(PaginationCursor::decode(""), Err(CursorError::OperationCursor));
    assert_eq!(PaginationCursor::decode("xyz"), Err(CursorError::OperationCursor));
    assert_eq!(
        PaginationCursor::decode(&format!("{}_{}", good, good)),
        Err(CursorError::PartCount)
    );
    assert_eq!(
        PaginationCursor::decode(&format!("{}_nothex_{}", good, ID_A)),
        Err(CursorError::RootOperationCursor)
    );
    assert_eq!(
        PaginationCursor::decode(&format!("{}_{}_{}", good, good, "0020zz")),
        Err(CursorError::RootViewId)
    );
    assert_eq!(
        PaginationCursor::decode(&format!("{}_{}_{}_{}", good, good, ID_B, ID_A)),
        Err(CursorError::RootViewId)
    );
}
