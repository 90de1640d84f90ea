use log_viewer::field::{FieldObject, FieldState, ObjectType};

#[test]
fn object_type_words() {
    assert_eq!(ObjectType::try_from("ROBOT"), Ok(ObjectType::Robot));
    assert_eq!(ObjectType::try_from("APRIL_TAG"), Ok(ObjectType::AprilTag));
    assert_eq!(ObjectType::try_from("MARKER"), Ok(ObjectType::Marker));
    assert_eq!(
        ObjectType::try_from("robot"),
        Err("failed to find a valid object type".to_string())
    );
    assert!(ObjectType::try_from("").is_err());
}

#[test]
fn field_object_reads_all_fields() {
    let o = FieldObject::try_from("bot1,ROBOT,-3,1.5,2,90").ok().unwrap();
    assert_eq!(o.name, "bot1");
    assert_eq!(o.object_type, ObjectType::Robot);
    assert_eq!(o.color, -3);
    assert_eq!(o.xpos.as_str(), "1.5");
    assert_eq!(o.ypos.as_str(), "2");
    assert_eq!(o.rot.as_str(), "90");
}

#[test]
fn field_object_ignores_extra_tokens() {
    let o = FieldObject::try_from("t,MARKER,0,0,0,0,extra,more").ok().unwrap();
    assert_eq!(o.name, "t");
    assert_eq!(o.object_type, ObjectType::Marker);
}

fn err_of(s: &str) -> String {
    match FieldObject::try_from(s) {
        Ok(_) => panic!("{:?} should not read", s),
        Err(e) => e,
    }
}

#[test]
fn field_object_errors_in_order() {
    assert_eq!(err_of("lonely"), "no next token");
    assert_eq!(err_of("a,TREE"), "failed to find a valid object type");
    assert_eq!(err_of("a,ROBOT"), "no next token");
    assert_eq!(err_of("a,ROBOT,red"), "invalid digit found in string");
    assert_eq!(err_of("a,ROBOT,,1,2,3"), "cannot parse integer from empty string");
    assert_eq!(err_of("a,ROBOT,99999999999,1,2,3"), "number too large to fit in target type");
    assert_eq!(err_of("a,ROBOT,1"), "no next token");
    assert_eq!(err_of("a,ROBOT,1,x"), "invalid float literal");
    assert_eq!(err_of("a,ROBOT,1,,2,3"), "cannot parse float from empty string");
    assert_eq!(err_of("a,ROBOT,1,1"), "no next token");
    assert_eq!(err_of("a,ROBOT,1,1,2"), "no next token");
    assert_eq!(err_of("a,ROBOT,1,1,2,z"), "invalid float literal");
}

#[test]
fn field_state_skips_unreadable_records() {
    let st = FieldState::from("a,ROBOT,1,0,0,0|junk|b,APRIL_TAG,2,1e3,-1,inf|c,MARKER,3,1,1");
    let names: Vec<&str> = st.field_objects.iter().map(|o| o.name.as_str()).collect();
    assert_eq!(names, vec!["a", "b"]);
    assert_eq!(st.field_objects[1].xpos.as_str(), "1e3");
}

#[test]
fn field_state_of_empty_text_is_empty() {
    assert_eq!(FieldState::from("").field_objects.len(), 0);
}

#[test]
fn field_state_concat_law_example() {
    let a = "a,ROBOT,1,0,0,0|b,MARKER,2,1,1,1";
    let b = "c,APRIL_TAG,3,2,2,2";
    let joined = format!("{}|{}", a, b);
    let names = |s: &str| -> Vec<String> {
        FieldState::from(s).field_objects.iter().map(|o| o.name.clone()).collect()
    };
    let mut expected = names(a);
    expected.extend(names(b));
    assert_eq!(names(&joined), expected);
}

#[test]
fn field_object_read_back_law_example() {
    let o = FieldObject::try_from(&format!("{},{},{},{},{},{}", "tag 7", "APRIL_TAG", "-12", "3.25", "-0.5", "1E2")).ok().unwrap();
    assert_eq!(o.name, "tag 7");
    assert_eq!(o.object_type, ObjectType::AprilTag);
    assert_eq!(o.color, -12);
    assert_eq!((o.xpos.as_str(), o.ypos.as_str(), o.rot.as_str()), ("3.25", "-0.5", "1E2"));
}
