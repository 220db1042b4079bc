use yamlette::model::yaml::binary::{Binary, BinaryValue};
use yamlette::model::yaml::bool::{Bool, BoolValue};
use yamlette::model::yaml::merge::{Merge, MergeValue};
use yamlette::model::yaml::null::{Null, NullValue};
use yamlette::model::yaml::value::{Value, ValueValue};
use yamlette::model::yaml::yaml::{Yaml, YamlValue};
use yamlette::model::{CommonStyles, Renderer, Tagged, TaggedValue};

fn binary_pairs() -> [(&'static str, &'static str); 11] {
    [
        ("sure.", "c3VyZS4="),
        ("asure.", "YXN1cmUu"),
        ("easure.", "ZWFzdXJlLg=="),
        ("leasure.", "bGVhc3VyZS4="),
        ("pleasure.", "cGxlYXN1cmUu"),
        ("any carnal pleas", "YW55IGNhcm5hbCBwbGVhcw=="),
        ("any carnal pleasu", "YW55IGNhcm5hbCBwbGVhc3U="),
        ("any carnal pleasur", "YW55IGNhcm5hbCBwbGVhc3Vy"),
        ("any carnal pleasure", "YW55IGNhcm5hbCBwbGVhc3VyZQ=="),
        ("any carnal pleasure.", "YW55IGNhcm5hbCBwbGVhc3VyZS4="),
        ("Man is distinguished, not only by his reason, but by this singular passion from other animals, which is a lust of the mind, that by a perseverance of delight in the continued and indefatigable generation of knowledge, exceeds the short vehemence of any carnal pleasure.", "TWFuIGlzIGRpc3Rpbmd1aXNoZWQsIG5vdCBvbmx5IGJ5IGhpcyByZWFzb24sIGJ1dCBieSB0aGlzIHNpbmd1bGFyIHBhc3Npb24gZnJvbSBvdGhlciBhbmltYWxzLCB3aGljaCBpcyBhIGx1c3Qgb2YgdGhlIG1pbmQsIHRoYXQgYnkgYSBwZXJzZXZlcmFuY2Ugb2YgZGVsaWdodCBpbiB0aGUgY29udGludWVkIGFuZCBpbmRlZmF0aWdhYmxlIGdlbmVyYXRpb24gb2Yga25vd2xlZGdlLCBleGNlZWRzIHRoZSBzaG9ydCB2ZWhlbWVuY2Ugb2YgYW55IGNhcm5hbCBwbGVhc3VyZS4="),
    ]
}

#[test]
fn binary_encode() {
    let renderer = Renderer;
    let bin = Binary;

    let pairs = binary_pairs();

    for idx in 0..pairs.len() {
        let p = pairs[idx];

        if let Ok(rope) = bin.encode(&renderer, TaggedValue::Binary(BinaryValue::from(p.0.to_string().into_bytes())), &[]) {
            let encoded = String::from_utf8(rope.render(&renderer)).unwrap();
            let expected = p.1;
            assert_eq!(encoded, expected);
        } else {
            assert!(false, "Unexpected result")
        }
    }
}

#[test]
fn binary_decode() {
    let bin = Binary;

    let pairs = binary_pairs();

    for idx in 0..pairs.len() {
        let p = pairs[idx];

        if let Ok(tagged) = bin.decode(true, &p.1.to_string().into_bytes()) {
            let expected = p.0.as_bytes();
            match tagged {
                TaggedValue::Binary(b) => {
                    assert_eq!(b.get_tag(), yamlette::model::yaml::binary::TAG);
                    assert_eq!(b.as_slice(), expected);
                }
                _ => assert!(false),
            }
        } else {
            assert!(false, "Unexpected result")
        }
    }

    if let Ok(tagged) = bin.decode(true, &"".to_string().into_bytes()) {
        match tagged {
            TaggedValue::Binary(b) => {
                assert_eq!(b.get_tag(), yamlette::model::yaml::binary::TAG);
                assert_eq!(0, b.to_vec().len());
            }
            _ => assert!(false),
        }
    } else {
        assert!(false, "Unexpected result")
    }
}

#[test]
fn binary_decode_refuses_foreign_bytes() {
    assert!(Binary.decode(true, b"c3V*ZS4=").is_err());
}

fn decoded_bool(tagged: TaggedValue) -> bool {
    match tagged {
        TaggedValue::Bool(b) => {
            assert_eq!(b.get_tag(), yamlette::model::yaml::bool::TAG);
            b.as_bool()
        }
        _ => panic!("not a bool"),
    }
}

#[test]
fn bool_decode11() {
    let bool = Bool;

    let options = [
        "y", "Y", "yes", "Yes", "YES", "n", "N", "no", "No", "NO", "true", "True", "TRUE", "false", "False", "FALSE",
        "on", "On", "ON", "off", "Off", "OFF",
    ];

    let results = [
        true, true, true, true, true, false, false, false, false, false, true, true, true, false, false, false, true,
        true, true, false, false, false,
    ];

    for i in 0..options.len() {
        let tagged = bool.decode11(true, options[i].as_bytes());
        assert!(tagged.is_ok(), "Cannot decode '{}'", options[i]);
        assert_eq!(decoded_bool(tagged.ok().unwrap()), results[i]);
    }

    let decode = bool.decode11(true, "folso".as_bytes());
    assert!(decode.is_err());
}

#[test]
fn bool_decode() {
    let bool = Bool;

    let options = ["true", "True", "TRUE", "false", "False", "FALSE"];
    let results = [true, true, true, false, false, false];

    for i in 0..options.len() {
        let tagged = bool.decode(true, options[i].as_bytes());
        assert!(tagged.is_ok());
        assert_eq!(decoded_bool(tagged.ok().unwrap()), results[i]);
    }

    let decode = bool.decode(true, "Yes".as_bytes());
    assert!(decode.is_err());

    let decode = bool.decode(true, "No".as_bytes());
    assert!(decode.is_err());
}

#[test]
fn bool_encode() {
    let renderer = Renderer;
    let bool = Bool;

    if let Ok(rope) = bool.encode(&renderer, TaggedValue::Bool(BoolValue::from(true)), &[]) {
        let encode = rope.render(&renderer);
        assert_eq!(encode, "true".as_bytes());
    } else {
        assert!(false, "Unexpected result");
    }

    if let Ok(rope) = bool.encode(&renderer, TaggedValue::Bool(BoolValue::from(false)), &[]) {
        let encode = rope.render(&renderer);
        assert_eq!(encode, "false".as_bytes());
    } else {
        assert!(false, "Unexpected result");
    }
}

#[test]
fn bool_encode_with_tag() {
    let renderer = Renderer;
    let mut styles = CommonStyles::default();
    styles.set_issue_tag(true);
    let v = BoolValue::new(true, styles, None);
    let rope = Bool.encode(&renderer, TaggedValue::Bool(v), &[]).ok().unwrap();
    assert_eq!(rope.render(&renderer), b"!<tag:yaml.org,2002:bool> true".to_vec());
}

#[test]
fn null_encode() {
    let renderer = Renderer;
    let null = Null;

    if let Ok(rope) = null.encode(&renderer, TaggedValue::Null(NullValue::default()), &[]) {
        let encode = rope.render(&renderer);
        assert_eq!(encode, "~".as_bytes());
    } else {
        assert!(false)
    }
}

#[test]
fn null_decode() {
    let null = Null;

    let options = ["", "~", "null", "Null", "NULL"];

    for i in 0..options.len() {
        if let Ok(tagged) = null.decode(true, options[i].as_bytes()) {
            match tagged {
                TaggedValue::Null(v) => assert_eq!(v.get_tag(), yamlette::model::yaml::null::TAG),
                _ => assert!(false),
            }
        } else {
            assert!(false)
        }
    }

    let decode = null.decode(true, "nil".as_bytes());
    assert!(decode.is_err());
}

#[test]
fn merge_encode() {
    let renderer = Renderer;
    let merge = Merge;

    let rope = merge.encode(&renderer, TaggedValue::Merge(MergeValue), &[]).ok().unwrap();
    assert_eq!(rope.render(&renderer), vec![b'<', b'<']);
}

#[test]
fn merge_decode() {
    let merge = Merge;

    if let Ok(tagged) = merge.decode(true, "<<".as_bytes()) {
        match tagged {
            TaggedValue::Merge(v) => assert_eq!(v.get_tag(), yamlette::model::yaml::merge::TAG),
            _ => assert!(false),
        }
    } else {
        assert!(false)
    }

    assert!(merge.decode(true, "<<~".as_bytes()).is_err());
}

#[test]
fn value_encode() {
    let renderer = Renderer;
    let value = Value;

    if let Ok(rope) = value.encode(&renderer, TaggedValue::Value(ValueValue), &[]) {
        let vec = rope.render(&renderer);
        assert_eq!(vec, vec![b'=']);
    } else {
        assert!(false)
    }
}

#[test]
fn value_decode() {
    let value = Value;

    if let Ok(tagged) = value.decode(true, "=".as_bytes()) {
        match tagged {
            TaggedValue::Value(v) => assert_eq!(v.get_tag(), yamlette::model::yaml::value::TAG),
            _ => assert!(false),
        }
    } else {
        assert!(false)
    }

    assert!(value.decode(true, "=:".as_bytes()).is_err());
}

#[test]
fn yaml_encode() {
    let renderer = Renderer;
    let yaml = Yaml;

    assert_eq!(yaml.encode(&renderer, TaggedValue::Yaml(YamlValue::Tag), &[]).ok().unwrap().render(&renderer), vec![b'!']);
    assert_eq!(yaml.encode(&renderer, TaggedValue::Yaml(YamlValue::Alias), &[]).ok().unwrap().render(&renderer), vec![b'*']);
    assert_eq!(yaml.encode(&renderer, TaggedValue::Yaml(YamlValue::Anchor), &[]).ok().unwrap().render(&renderer), vec![b'&']);
}

#[test]
fn yaml_decode() {
    let yaml = Yaml;

    match yaml.decode(true, "!".as_bytes()) {
        Ok(TaggedValue::Yaml(YamlValue::Tag)) => {}
        _ => assert!(false),
    }
    match yaml.decode(true, "*".as_bytes()) {
        Ok(TaggedValue::Yaml(YamlValue::Alias)) => {}
        _ => assert!(false),
    }
    match yaml.decode(true, "&".as_bytes()) {
        Ok(TaggedValue::Yaml(YamlValue::Anchor)) => {}
        _ => assert!(false),
    }

    assert!(yaml.decode(true, "=".as_bytes()).is_err());
}
