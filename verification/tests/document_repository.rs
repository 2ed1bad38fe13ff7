use aquadoggo::document_repository::{
    DocumentRepository, NextArgs, PublishRequest, Published, RpcError, ServiceMessage,
};
use aquadoggo::ids::OperationId;

#[test]
fn request_is_decoded() {
    let request = PublishRequest { entry: "00ff10".to_string(), operation: "ABcd".to_string() };
    let decoded = DocumentRepository::decode(&request).unwrap();
    assert_eq!(decoded.entry_bytes, vec![0, 255, 16]);
    assert_eq!(decoded.operation_bytes, vec![0xab, 0xcd]);
    assert_eq!(decoded.operation_id, OperationId::from_bytes(&[0, 255, 16]));
}

#[test]
fn request_that_is_no_hexadecimal_text_fails() {
    let odd = PublishRequest { entry: "abc".to_string(), operation: "00".to_string() };
    assert_eq!(
        DocumentRepository::decode(&odd),
        Err(RpcError { message: "Odd number of digits".to_string() })
    );
    let bad = PublishRequest { entry: "00".to_string(), operation: "0g".to_string() };
    assert_eq!(
        DocumentRepository::decode(&bad),
        Err(RpcError { message: "Invalid character 'g' at position 1".to_string() })
    );
}

#[test]
fn publishing_announces_the_operation() {
    let mut repository = DocumentRepository::new();
    let request = PublishRequest { entry: "0001".to_string(), operation: "02".to_string() };
    let decoded = DocumentRepository::decode(&request).unwrap();
    let next = repository.publish(
        &decoded,
        Ok(Published { backlink: Some("aa".to_string()), skiplink: None, seq_num: 2, log_id: 5 }),
    );
    assert_eq!(
        next,
        Ok(NextArgs {
            log_id: 5,
            seq_num: 2,
            backlink: "aa".to_string(),
            skiplink: String::new()
        })
    );
    let failed = repository.publish(&decoded, Err("Schema not found".to_string()));
    assert_eq!(failed, Err(RpcError { message: "Schema not found".to_string() }));
    assert_eq!(
        repository.take_messages(),
        vec![ServiceMessage::NewOperation(decoded.operation_id.clone())]
    );
    assert!(repository.take_messages().is_empty());
}

#[test]
fn a_request_for_an_unknown_schema_fails() {
    assert_eq!(DocumentRepository::schema_checked(true), Ok(()));
    assert_eq!(
        DocumentRepository::schema_checked(false),
        Err(RpcError { message: "Schema not found".to_string() })
    );
}
