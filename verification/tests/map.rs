use yamlette::model::yaml::integer::{Int, IntValue};
use yamlette::model::yaml::map::{compose, MapValue, Mapping, TAG};
use yamlette::model::yaml::str::{Str, StrValue};
use yamlette::model::{CommonStyles, Model, Renderer, Rope, TaggedValue};

fn text(s: &str) -> Rope {
    Str.encode(&Renderer, TaggedValue::Str(StrValue::from(s.to_string())), &[]).ok().unwrap()
}

fn integer(i: i32) -> Rope {
    Int.encode(&Renderer, TaggedValue::Int(IntValue::from(i)), &[]).ok().unwrap()
}

fn composed(styles: CommonStyles, children: &mut Vec<Rope>) -> String {
    let rope = compose(&Mapping, &Renderer, TaggedValue::Mapping(MapValue::new(styles, None)), &[], children);
    String::from_utf8(rope.render(&Renderer)).unwrap()
}

fn pairs() -> Vec<Rope> {
    vec![text("a"), integer(1), text("b"), integer(2)]
}

#[test]
fn map_tag() {
    assert_eq!(Mapping.get_tag(), TAG);
    assert!(Mapping.is_dictionary());
}

#[test]
fn map_compose_block() {
    let mut children = pairs();
    assert_eq!(composed(CommonStyles::default(), &mut children), "a: 1\nb: 2\n");
    assert!(children.iter().all(|c| c.len() == 0));
}

#[test]
fn map_compose_flow() {
    let mut styles = CommonStyles::default();
    styles.set_flow(true);
    assert_eq!(composed(styles, &mut pairs()), "{ a: 1, b: 2 }");
    styles.set_compact(true);
    assert_eq!(composed(styles, &mut pairs()), "{a: 1,b: 2}");
}

#[test]
fn map_compose_flow_multiline() {
    let mut styles = CommonStyles::default();
    styles.set_flow(true);
    styles.set_multiline(true);
    assert_eq!(composed(styles, &mut pairs()), "{\n  a: 1,\n  b: 2\n}");
}

#[test]
fn map_compose_flow_threshold() {
    let mut styles = CommonStyles::default();
    styles.set_flow(true);
    styles.set_respect_threshold(true);
    assert_eq!(composed(styles, &mut pairs()), "{ a: 1, b: 2 }");
    styles.set_threshold(6);
    assert_eq!(composed(styles, &mut pairs()), "{ a:\n1, b:\n2 }");
}

#[test]
fn map_compose_empty_and_odd() {
    assert_eq!(composed(CommonStyles::default(), &mut Vec::new()), "{}");
    assert_eq!(composed(CommonStyles::default(), &mut vec![text("a")]), "a:\n");
}

#[test]
fn map_compose_with_tag_and_anchor() {
    let mut styles = CommonStyles::default();
    styles.set_issue_tag(true);
    let rope = compose(
        &Mapping,
        &Renderer,
        TaggedValue::Mapping(MapValue::new(styles, Some("m".to_string()))),
        &[("!!".to_string(), "tag:yaml.org,2002:".to_string())],
        &mut pairs(),
    );
    assert_eq!(String::from_utf8(rope.render(&Renderer)).unwrap(), "!!map &m\na: 1\nb: 2\n");
}
