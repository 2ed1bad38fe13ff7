use aquadoggo::decimal::{i64_to_text, text_to_i64, text_to_u64, u64_to_text};
use aquadoggo::ids::{DocumentId, DocumentViewId, IdError, OperationId};
use aquadoggo::operation::{FieldType, OperationAction};
use aquadoggo::text::{chars_of, join_on, same_text, split_on, string_of, text_before};

const ID_A: &str = "0020cfb0fa37f36d082faad3886a9ffbcc2813b7afe90f0609a556d425f1a76ec805";
const ID_B: &str = "0020dfb0fa37f36d082faad3886a9ffbcc2813b7afe90f0609a556d425f1a76ec805";

#[test]
fn decimal_text() {
    assert_eq!(u64_to_text(0), "0");
    assert_eq!(u64_to_text(10), "10");
    assert_eq!(u64_to_text(u64::MAX), "18446744073709551615");
    assert_eq!(i64_to_text(-1), "-1");
    assert_eq!(text_to_u64("18446744073709551615"), Some(u64::MAX));
    assert_eq!(text_to_u64("18446744073709551616"), None);
    assert_eq!(text_to_u64("0012"), Some(12));
    assert_eq!(text_to_u64(""), None);
    assert_eq!(text_to_u64("+1"), None);
    assert_eq!(text_to_u64("1 "), None);
    assert_eq!(text_to_i64("-9223372036854775808"), Some(i64::MIN));
    assert_eq!(text_to_i64("-9223372036854775809"), None);
    assert_eq!(text_to_i64("9223372036854775807"), Some(i64::MAX));
    assert_eq!(text_to_i64("-"), None);
    assert_eq!(text_to_i64("-0"), Some(0));
    assert_eq!(text_to_i64("--1"), None);
    for n in [0i64, 1, -1, 99, -100, 1234567890123, i64::MAX, i64::MIN] {
        assert_eq!(text_to_i64(&i64_to_text(n)), Some(n));
    }
}

#[test]
fn splitting_and_joining() {
    let parts = |v: &[&str]| v.iter().map(|s| s.to_string()).collect::<Vec<String>>();
    assert_eq!(split_on("", '_'), parts(&[""]));
    assert_eq!(split_on("a", '_'), parts(&["a"]));
    assert_eq!(split_on("a_b__c_", '_'), parts(&["a", "b", "", "c", ""]));
    assert_eq!(join_on(&parts(&["a", "b", "", "c", ""]), '_'), "a_b__c_");
    assert_eq!(join_on(&parts(&[]), '_'), "");
    assert_eq!(join_on(&parts(&["x"]), '_'), "x");
    assert_eq!(string_of(&chars_of("héllo")), "héllo");
    assert!(same_text("é", "é"));
    assert!(!same_text("a", "ab"));
    assert!(text_before("a", "ab"));
    assert!(text_before("ab", "b"));
    assert!(!text_before("b", "ab"));
    assert!(!text_before("a", "a"));
    assert!(text_before("", "a"));
}

#[test]
fn hash_texts_are_checked() {
    assert!(OperationId::new(ID_A).is_ok());
    assert_eq!(OperationId::new(ID_A).unwrap().as_str(), ID_A);
    // Either case of the digits is a hash text.
    assert!(OperationId::new(&ID_A.to_uppercase()).is_ok());
    assert!(DocumentId::new(ID_A).is_ok());
    for bad in ["", "0020", &ID_A[2..], &format!("{}00", ID_A), &format!("01{}", &ID_A[2..]), &format!("{}g", &ID_A[1..])] {
        assert!(OperationId::new(bad).is_err());
        assert!(DocumentId::new(bad).is_err());
    }
    assert_eq!(
        OperationId::new("0020").unwrap_err().message,
        "invalid hash length 2 bytes, expected 34 bytes"
    );
    assert_eq!(
        OperationId::new("xy").unwrap_err().message,
        "invalid hex encoding in hash string"
    );
    assert_eq!(
        OperationId::new(&format!("01{}", &ID_A[2..])).unwrap_err().message,
        "can not decode YASMF BLAKE3 hash"
    );
    assert_eq!(
        OperationId::new(&format!("{}{}", ID_A, ID_A)).unwrap_err().message,
        "invalid hash length 68 bytes, expected 34 bytes"
    );
    assert_eq!(
        OperationId::new("").unwrap_err().message,
        "invalid hash length 0 bytes, expected 34 bytes"
    );
    // The second byte is not looked at.
    assert!(OperationId::new(&format!("0021{}", &ID_A[4..])).is_ok());
}

#[test]
fn view_ids_are_checked() {
    let a = OperationId::new(ID_A).unwrap();
    let b = OperationId::new(ID_B).unwrap();
    let view = DocumentViewId::from_text(&format!("{}_{}", ID_A, ID_B)).unwrap();
    assert_eq!(view.len(), 2);
    assert_eq!(view.tip(0), a);
    assert_eq!(view.tip(1), b);
    assert_eq!(view.to_text(), format!("{}_{}", ID_A, ID_B));
    assert_eq!(DocumentViewId::from_operation_ids(&vec![a.clone(), b.clone()]), Ok(view));
    assert_eq!(
        DocumentViewId::from_text(&format!("{}_{}", ID_B, ID_A)),
        Err(IdError::Unsorted)
    );
    assert_eq!(
        DocumentViewId::from_text(&format!("{}_{}", ID_A, ID_A)),
        Err(IdError::Unsorted)
    );
    assert_eq!(
        DocumentViewId::from_operation_ids(&vec![b.clone(), a.clone()]),
        Err(IdError::Unsorted)
    );
    assert_eq!(DocumentViewId::from_operation_ids(&vec![]), Err(IdError::Empty));
    assert!(matches!(DocumentViewId::from_text(""), Err(IdError::InvalidHash(_))));
    assert!(matches!(
        DocumentViewId::from_text(&format!("{}_", ID_A)),
        Err(IdError::InvalidHash(_))
    ));
    assert_eq!(DocumentViewId::single(&a).to_text(), ID_A);
}

#[test]
fn tags_and_actions() {
    for (action, text) in [
        (OperationAction::Create, "create"),
        (OperationAction::Update, "update"),
        (OperationAction::Delete, "delete"),
    ] {
        assert_eq!(action.as_str(), text);
        assert_eq!(OperationAction::from_text(text), Some(action));
    }
    assert_eq!(OperationAction::from_text("Create"), None);
    for (field_type, text) in [
        (FieldType::Boolean, "bool"),
        (FieldType::Bytes, "bytes"),
        (FieldType::Integer, "int"),
        (FieldType::Float, "float"),
        (FieldType::String, "str"),
        (FieldType::Relation, "relation"),
        (FieldType::RelationList, "relation_list"),
        (FieldType::PinnedRelation, "pinned_relation"),
        (FieldType::PinnedRelationList, "pinned_relation_list"),
    ] {
        assert_eq!(field_type.as_str(), text);
        assert_eq!(FieldType::from_text(text), Some(field_type));
    }
    assert_eq!(FieldType::from_text("string"), None);
    assert!(FieldType::RelationList.is_list());
    assert!(!FieldType::Relation.is_list());
}
