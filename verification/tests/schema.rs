use yamlette::model::schema::{Core, CoreModel, MAP_TAG};
use yamlette::model::TaggedValue;

#[test]
fn core_new_handles_and_version() {
    let core = Core::new();
    assert_eq!(core.get_yaml_version(), (1, 2));
    let handles = core.get_tag_handles();
    assert_eq!(handles.len(), 3);
    assert_eq!(handles[0], ("!!".to_string(), "tag:yaml.org,2002:".to_string()));
    assert_eq!(handles[2], ("".to_string(), "".to_string()));
    assert_eq!(core.get_common_styles().indent(), 2);
    assert_eq!(core.get_tag_model_map(), MAP_TAG);
    assert_eq!(core.get_tag_model_seq(), "tag:yaml.org,2002:seq");
    assert_eq!(core.get_metamodel(), Some(CoreModel::Incognitum));
}

#[test]
fn core_look_up_model() {
    let core = Core::new();
    assert_eq!(core.look_up_model("tag:yaml.org,2002:int"), Some(CoreModel::Int));
    assert_eq!(core.look_up_model("tag:yaml.org,2002:map"), Some(CoreModel::Mapping));
    assert_eq!(core.look_up_model("tag:yamlette.org,1:incognitum"), Some(CoreModel::Incognitum));
    assert_eq!(core.look_up_model("tag:yaml.org,2002:unknown"), None);
}

#[test]
fn core_look_up_model_callback() {
    let core = Core::new();
    assert_eq!(core.look_up_model_callback(|m| m == CoreModel::Float || m == CoreModel::Str), Some(CoreModel::Float));
    assert_eq!(core.look_up_model_callback(|_| false), None);
}

#[test]
fn core_try_decodable_models() {
    let core = Core::new();
    assert!(matches!(core.try_decodable_models(b"~"), Some(TaggedValue::Null(_))));
    assert!(matches!(core.try_decodable_models(b""), Some(TaggedValue::Null(_))));
    match core.try_decodable_models(b"true") {
        Some(TaggedValue::Bool(b)) => assert!(b.as_bool()),
        _ => assert!(false),
    }
    match core.try_decodable_models(b"0o17") {
        Some(TaggedValue::Int(i)) => assert_eq!(i.to_i64(), Some(15)),
        _ => assert!(false),
    }
    assert!(matches!(core.try_decodable_models(b"1.5"), Some(TaggedValue::Float(_))));
    match core.try_decodable_models(b"Yes") {
        Some(TaggedValue::Str(s)) => assert_eq!(s.as_str(), "Yes"),
        _ => assert!(false),
    }
    assert!(core.try_decodable_models(&[0xff, 0xfe]).is_none());
}

#[test]
fn core_try_decodable_models_11() {
    let core = Core::new();
    match core.try_decodable_models_11(b"Yes") {
        Some(TaggedValue::Bool(b)) => assert!(b.as_bool()),
        _ => assert!(false),
    }
    match core.try_decodable_models_11(b"190:20:30") {
        Some(TaggedValue::Int(i)) => assert_eq!(i.to_i64(), Some(685230)),
        _ => assert!(false),
    }
}

#[test]
fn options_hold_the_schema() {
    assert!(yamlette::face::Options::new().schema.is_none());
    let o = yamlette::face::Options::from((Core::new(), yamlette::face::Options::new()));
    assert!(o.schema.is_some());
}

#[test]
fn core_reads_an_overlong_exponent_as_a_string() {
    let core = Core::new();
    match core.try_decodable_models(b"1e99999999999999999999") {
        Some(TaggedValue::Str(s)) => assert_eq!(s.as_str(), "1e99999999999999999999"),
        _ => panic!("expected a string"),
    }
}
