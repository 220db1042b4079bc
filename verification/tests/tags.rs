use yamlette::model::Model;

#[test]
fn binary_tag() {
    let bin = yamlette::model::yaml::binary::Binary;
    assert_eq!(bin.get_tag(), yamlette::model::yaml::binary::TAG);
}

#[test]
fn bool_tag() {
    let model = yamlette::model::yaml::bool::Bool;
    assert_eq!(model.get_tag(), yamlette::model::yaml::bool::TAG);
}

#[test]
fn float_tag() {
    let float = yamlette::model::yaml::float::Float;
    assert_eq!(float.get_tag(), yamlette::model::yaml::float::TAG);
}

#[test]
fn int_tag() {
    let int = yamlette::model::yaml::integer::Int;
    assert_eq!(int.get_tag(), yamlette::model::yaml::integer::TAG);
}

#[test]
fn merge_tag() {
    let merge = yamlette::model::yaml::merge::Merge;
    assert_eq!(merge.get_tag(), yamlette::model::yaml::merge::TAG);
}

#[test]
fn null_tag() {
    let null = yamlette::model::yaml::null::Null;
    assert_eq!(null.get_tag(), yamlette::model::yaml::null::TAG);
}

#[test]
fn str_tag() {
    let s = yamlette::model::yaml::str::Str;
    assert_eq!(s.get_tag(), yamlette::model::yaml::str::TAG);
}

#[test]
fn value_tag() {
    let value = yamlette::model::yaml::value::Value;
    assert_eq!(value.get_tag(), yamlette::model::yaml::value::TAG);
}

#[test]
fn yaml_tag() {
    let yaml = yamlette::model::yaml::yaml::Yaml;
    assert_eq!(yaml.get_tag(), yamlette::model::yaml::yaml::TAG);
}

#[test]
fn incognitum_tag() {
    let inc = yamlette::model::yamlette::incognitum::Incognitum;
    assert_eq!(inc.get_tag(), yamlette::model::yamlette::incognitum::TAG);
}

#[test]
fn literal_tag() {
    let lit = yamlette::model::yamlette::literal::Literal;
    assert_eq!(lit.get_tag(), yamlette::model::yamlette::literal::TAG);
}

#[test]
fn omap_tag() {
    let omap = yamlette::model::yaml::omap::Omap;
    assert_eq!(omap.get_tag(), yamlette::model::yaml::omap::TAG);
}

#[test]
fn seq_tag() {
    let seq = yamlette::model::yaml::sequence::Sequence;
    assert_eq!(seq.get_tag(), yamlette::model::yaml::sequence::TAG);
}

#[test]
fn timestamp_tag() {
    let ts = yamlette::model::yaml::timestamp::Timestamp;
    assert_eq!(ts.get_tag(), yamlette::model::yaml::timestamp::TAG);
}
