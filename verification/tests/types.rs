use proposal_script::types::{DepType, ScriptHashType};

#[test]
fn script_hash_type_bytes() {
    assert_eq!(u8::from(ScriptHashType::Data), 0);
    assert_eq!(u8::from(ScriptHashType::Type), 1);
    assert_eq!(u8::from(ScriptHashType::Data1), 2);
    assert_eq!(u8::from(ScriptHashType::Data2), 4);
    let b: u8 = ScriptHashType::Type.into();
    assert_eq!(b, 1);
    assert_eq!(ScriptHashType::default(), ScriptHashType::Data);
}

#[test]
fn script_hash_type_verify_value() {
    let accepted: Vec<u8> = (0..=255u8).filter(|v| ScriptHashType::verify_value(*v)).collect();
    assert_eq!(accepted, vec![0, 1, 2, 4]);
}

#[test]
fn dep_type_bytes() {
    assert_eq!(u8::from(DepType::Code), 0);
    assert_eq!(u8::from(DepType::DepGroup), 1);
    assert_eq!(DepType::default(), DepType::Code);
    let accepted: Vec<u8> = (0..=255u8).filter(|v| DepType::verify_value(*v)).collect();
    assert_eq!(accepted, vec![0, 1]);
}
