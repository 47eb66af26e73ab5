use gdphysics::object::{AttribKey, AttribType, AttribValue, Obj};
use gdphysics::text::ParseError;

fn parsed(s: &str) -> Obj {
    match Obj::parse(s) {
        Ok(o) => o,
        Err(e) => panic!("unexpected parse error {:?}", e),
    }
}

#[test]
fn key_ids_and_types() {
    assert_eq!(AttribKey::from_id(1), Some(AttribKey::ObjID));
    assert_eq!(AttribKey::from_id(108), Some(AttribKey::LinkedGroupID));
    assert_eq!(AttribKey::from_id(18), None);
    assert_eq!(AttribKey::GroupIDs.id(), 57);
    assert_eq!(AttribKey::GroupIDs.get_type(), AttribType::Array);
    assert_eq!(AttribKey::XPos.get_type(), AttribType::Float);
    assert_eq!(AttribKey::MainColorHSV.get_type(), AttribType::Hsv);
    assert_eq!(AttribValue::Bool(true).get_type(), AttribType::Bool);
}

#[test]
fn parse_reads_typed_values() {
    let o = parsed("1,1,2,15.5,3,-30,57,1.2,20,5,13,1,43,10a0.5a1a1a0,31,hello");
    assert!(matches!(o.get(AttribKey::ObjID), Some(AttribValue::Int(1))));
    assert!(matches!(o.get(AttribKey::XPos), Some(AttribValue::Float(15_500_000))));
    assert!(matches!(o.get(AttribKey::YPos), Some(AttribValue::Float(-30_000_000))));
    assert!(matches!(o.get(AttribKey::EditorLayer1), Some(AttribValue::Int(5))));
    assert!(matches!(o.get(AttribKey::SpecialCheck), Some(AttribValue::Bool(true))));
    match o.get(AttribKey::GroupIDs) {
        Some(AttribValue::Array(a)) => assert_eq!(a, &vec![1, 2]),
        _ => panic!("no group ids"),
    }
    match o.get(AttribKey::MainColorHSV) {
        Some(AttribValue::Hsv { h, s, v, s_checked, v_checked }) => {
            assert_eq!((*h, *s, *v, *s_checked, *v_checked), (10_000_000, 500_000, 1_000_000, true, false));
        },
        _ => panic!("no hsv"),
    }
    match o.get(AttribKey::Text) {
        Some(AttribValue::Text(t)) => assert_eq!(t, "hello"),
        _ => panic!("no text"),
    }
    assert_eq!(o.get_pos(), (15_500_000, -30_000_000));
}

#[test]
fn parse_strips_whitespace_and_skips_unknown_keys() {
    let o = parsed(" 1 , 7 ,999,5, 18,3,2, 1.25 ,3,4");
    assert_eq!(o.len(), 3);
    assert!(matches!(o.get(AttribKey::ObjID), Some(AttribValue::Int(7))));
    assert_eq!(o.get_pos(), (1_250_000, 4_000_000));
}

#[test]
fn parse_later_pair_wins() {
    let o = parsed("1,7,1,8");
    assert_eq!(o.len(), 1);
    assert!(matches!(o.get(AttribKey::ObjID), Some(AttribValue::Int(8))));
}

#[test]
fn parse_rejects_bad_values() {
    assert!(matches!(Obj::parse("1,abc"), Err(ParseError::BadValue(AttribKey::ObjID))));
    assert!(matches!(Obj::parse("57,1..2"), Err(ParseError::BadValue(AttribKey::GroupIDs))));
    assert!(matches!(Obj::parse("43,1a2a3"), Err(ParseError::BadValue(AttribKey::MainColorHSV))));
    assert!(matches!(Obj::parse("1,99999999999"), Err(ParseError::BadValue(AttribKey::ObjID))));
}

#[test]
fn parse_rounds_to_millionths() {
    assert_eq!(parsed("2,0.1234567,3,0.1234564").get_pos(), (123_457, 123_456));
    assert_eq!(parsed("2,0.9999995,3,-1.00000049").get_pos(), (1_000_000, -1_000_000));
    assert_eq!(parsed("2,.5,3,7.").get_pos(), (500_000, 7_000_000));
    assert!(matches!(Obj::parse("2,1e5"), Err(ParseError::BadValue(AttribKey::XPos))));
}

#[test]
fn serialize_values() {
    assert_eq!(AttribValue::Int(-42).serialize(), "-42");
    assert_eq!(AttribValue::Float(2_500_000).serialize(), "2.5");
    assert_eq!(AttribValue::Float(-30_000_000).serialize(), "-30");
    assert_eq!(AttribValue::Float(-500).serialize(), "-0.0005");
    assert_eq!(AttribValue::Bool(false).serialize(), "0");
    assert_eq!(AttribValue::Array(vec![3, 14, 15]).serialize(), "3.14.15");
    let hsv = AttribValue::Hsv { h: 10_000_000, s: 500_000, v: 1_000_000, s_checked: true, v_checked: false };
    assert_eq!(hsv.serialize(), "10a0.5a1a1a0");
    assert_eq!(AttribValue::Text(String::from("abc")).serialize(), "abc");
}

#[test]
fn as_str_writes_pairs() {
    let o = Obj::new(1, 15_000_000, 7_250_000);
    assert_eq!(o.as_str(), "1, 1,2, 15,3, 7.25,");
}

#[test]
fn attribute_round_trip() {
    let texts = [
        "1,1,2,15.5,3,-30,57,1.2,20,5,13,1,43,10a0.5a1a1a0,31,hello",
        "1,901,2,300,3,2100,28,-3,29,12,51,1,10,0.1,20,5,108,8",
        "1,1346,2,0.000001,3,-0.25,68,-160,51,1,71,2,10,0.09",
    ];
    for s in texts.iter() {
        let a = parsed(s);
        let text = a.as_str();
        let b = parsed(&text);
        assert_eq!(a.len(), b.len());
        assert_eq!(b.as_str(), text);
    }
}

#[test]
fn set_replaces_and_with_adds() {
    let mut o = Obj::new(1, 0, 0);
    o.set(AttribKey::XPos, AttribValue::Float(9));
    assert_eq!(o.get_pos(), (9, 0));
    let o = o.with(AttribKey::LinkedGroupID, AttribValue::Int(4));
    assert_eq!(o.len(), 4);
    assert!(o.get(AttribKey::Rotation).is_none());
    let o = o._with_rot(-90_000_000);
    assert!(matches!(o.get(AttribKey::Rotation), Some(AttribValue::Float(-90_000_000))));
    assert_eq!(o.len(), 5);
}
