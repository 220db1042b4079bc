use yamlette::book::volume::Volume;
use yamlette::book::word::{TagName, Word};
use yamlette::book::Book;
use yamlette::model::yaml::integer::IntValue;
use yamlette::model::yaml::float::FloatValue;
use yamlette::model::yaml::str::StrValue;
use yamlette::model::TaggedValue;
use yamlette::reader::Id;
use yamlette::sage::Idea;

fn id(level: usize, index: usize) -> Id {
    Id { level, parent: 0, index }
}

#[test]
fn volume_orders_ideas_by_index() {
    let mut vol = Volume::new();
    vol.stamp(Idea::NodeLiteral(id(1, 4), None, "c".to_string()));
    vol.stamp(Idea::NodeLiteral(id(1, 2), Some("a".to_string()), "a".to_string()));
    vol.stamp(Idea::NodeScalar(id(1, 3), None, TaggedValue::Str(StrValue::from("b".to_string()))));
    vol.stamp(Idea::Dawn);
    vol.complete();
    assert!(vol.complete);
    let texts: Vec<String> = vol
        .gist
        .iter()
        .map(|(_, _, w)| match w {
            Word::Str(s) => s.clone(),
            _ => panic!("not a string"),
        })
        .collect();
    assert_eq!(texts, vec!["a".to_string(), "b".to_string(), "c".to_string()]);
    assert_eq!(vol.gist[0].0, Some("a".to_string()));
}

#[test]
fn volume_resolves_aliases() {
    let mut vol = Volume::new();
    vol.stamp(Idea::NodeLiteral(id(1, 2), Some("x".to_string()), "first".to_string()));
    vol.stamp(Idea::NodeLiteral(id(1, 3), Some("x".to_string()), "second".to_string()));
    vol.stamp(Idea::Alias(id(1, 4), "x".to_string()));
    vol.stamp(Idea::Alias(id(1, 5), "y".to_string()));
    vol.complete();
    assert!(matches!(vol.gist[2].2, Word::Alias(1)));
    assert!(matches!(&vol.gist[3].2, Word::UnboundAlias(n) if n == "y"));
    match vol.unalias(2) {
        Word::Str(s) => assert_eq!(s, "second"),
        _ => assert!(false),
    }
}

#[test]
fn volume_moves_firstborn_under_mapping() {
    let mut vol = Volume::new();
    vol.stamp(Idea::NodeLiteral(id(0, 2), None, "key".to_string()));
    vol.stamp(Idea::NodeDictionary(id(0, 3), None, None, Some(id(0, 2))));
    vol.complete();
    assert_eq!(vol.gist.len(), 2);
    assert!(matches!(&vol.gist[0].2, Word::Mapping(TagName::Static(t)) if *t == "tag:yaml.org,2002:map"));
    assert_eq!(vol.gist[0].1, 0);
    assert!(matches!(&vol.gist[1].2, Word::Str(s) if s == "key"));
    assert_eq!(vol.gist[1].1, 1);
}

#[test]
fn volume_ignores_ideas_after_completion() {
    let mut vol = Volume::new();
    vol.complete();
    vol.stamp(Idea::NodeLiteral(id(0, 2), None, "late".to_string()));
    vol.complete();
    assert!(vol.gist.is_empty());
}

#[test]
fn book_stamps_volumes() {
    let mut book = Book::new();
    assert!(!book.stamp(Idea::NodeLiteral(id(0, 2), None, "dropped".to_string())));
    assert!(!book.stamp(Idea::Dawn));
    assert!(!book.stamp(Idea::NodeMetaSeq(id(0, 2), None, None)));
    assert!(!book.stamp(Idea::Error(id(1, 3), "oops".to_string())));
    assert!(!book.stamp(Idea::Dusk));
    assert!(book.stamp(Idea::Done));
    assert_eq!(book.volumes.len(), 1);
    let vol = &book.volumes[0];
    assert!(vol.complete);
    assert!(matches!(&vol.gist[0].2, Word::Sequence(TagName::Static(t)) if *t == "tag:yaml.org,2002:seq"));
    assert!(matches!(&vol.gist[1].2, Word::Error(e) if e == "oops"));
}

#[test]
fn word_extract_scalar() {
    assert!(matches!(Word::extract_scalar(TaggedValue::Int(IntValue::from(5u8))), Word::Int(_)));
    assert!(matches!(Word::extract_scalar(TaggedValue::Str(StrValue::from("s".to_string()))), Word::Str(s) if s == "s"));
    assert!(matches!(
        Word::extract_scalar(TaggedValue::Null(yamlette::model::yaml::null::NullValue::default())),
        Word::Null
    ));
    assert!(matches!(
        Word::extract_scalar(TaggedValue::Merge(yamlette::model::yaml::merge::MergeValue)),
        Word::Scalar(TaggedValue::Merge(_))
    ));
}

#[test]
fn word_conversions() {
    assert_eq!(Word::Int(IntValue::from(300i32)).into_i64().ok(), Some(300));
    assert!(Word::Int(IntValue::from(300i32)).into_u8().is_err());
    assert_eq!(Word::Int(IntValue::from(200i32)).into_u8().ok(), Some(200));
    assert!(Word::Int(IntValue::from(-1i32)).into_u64().is_err());
    assert_eq!(Word::Float(FloatValue::from_fraction(false, 12000, 1)).into_u16().ok(), Some(12000));
    assert!(Word::Float(FloatValue::from_fraction(false, 1284, 10)).into_i32().is_err());
    assert_eq!(Word::Float(FloatValue::from_fraction(true, 20, 10)).into_i8().ok(), Some(-2));
    assert_eq!(Word::Str("x".to_string()).into_string().ok(), Some("x".to_string()));
    assert!(Word::Null.into_string().is_err());
    assert_eq!(Word::Bool(true).into_bool().ok(), Some(true));
    assert_eq!(Word::Bin(vec![1, 2]).into_bytes().ok(), Some(vec![1, 2]));
    assert!(Word::Null.into_null().is_ok());
}

#[test]
fn read_error_keeps_position_and_description() {
    let e = yamlette::reader::ReadError::new("bad indent".to_string()).pos(17);
    assert_eq!(e.position, 17);
    assert_eq!(e.description(), "bad indent");
}
