use yamlette::model::yaml::binary::BinaryValue;
use yamlette::model::yamlette::base91::Base91;
use yamlette::model::yamlette::env::Env;
use yamlette::model::yamlette::incognitum::{Incognitum, IncognitumValue};
use yamlette::model::yamlette::literal::{Literal, LiteralValue};
use yamlette::model::{Model, Renderer, Tagged, TaggedValue};

#[test]
fn incognitum_encode() {
    let renderer = Renderer;
    let incognitum = Incognitum;

    let ops: &[(Option<&'static str>, Option<&'static str>, &'static str, &'static str)] = &[
        (None, None, r#""Hey, this is a string!""#, r#""Hey, this is a string!""#),
        (
            Some("tag:yamlette.org,1:test"),
            None,
            r"Another string in here",
            r"!<tag:yamlette.org,1:test> Another string in here",
        ),
        (None, Some("anchor1"), r"One more string value", r"&anchor1 One more string value"),
        (
            Some("tag:yamlette.org,1:test"),
            Some("anchor2"),
            r"Even more strings in here",
            r"!<tag:yamlette.org,1:test> &anchor2 Even more strings in here",
        ),
    ];

    for i in 0..ops.len() {
        let mut ival = IncognitumValue::new(ops[i].2.to_string());

        ival = if let Some(tag) = ops[i].0 { ival.set_tag(tag.to_string()) } else { ival };
        ival = if let Some(anc) = ops[i].1 { ival.set_anchor(anc.to_string()) } else { ival };

        if let Ok(rope) = incognitum.encode(&renderer, TaggedValue::Incognitum(ival), &[]) {
            let vec = rope.render(&renderer);
            assert_eq!(vec, ops[i].3.to_string().into_bytes().to_vec());
        } else {
            assert!(false)
        }
    }
}

fn escaped_ops() -> [(&'static str, &'static str); 7] {
    [
        ("Hey, this is a string!", "Hey, this is a string!"),
        (r"'Hey, that\'s the string!'", r"'Hey, that\'s the string!'"),
        (r#""Hey,\n\ that's\tthe\0string\\""#, r#""Hey,\n\ that's\tthe\0string\\""#),
        (r#""This\x0Ais\x09a\x2c\x20test""#, r#""This\x0Ais\x09a\x2c\x20test""#),
        (r#""\u0422\u0435\u0441\u0442\x0a""#, r#""\u0422\u0435\u0441\u0442\x0a""#),
        (r#""\u30c6\u30b9\u30c8\x0a""#, r#""\u30c6\u30b9\u30c8\x0a""#),
        (
            r#""\U00013000\U00013001\U00013002\U00013003\U00013004\U00013005\U00013006\U00013007""#,
            r#""\U00013000\U00013001\U00013002\U00013003\U00013004\U00013005\U00013006\U00013007""#,
        ),
    ]
}

#[test]
fn incognitum_decode() {
    let incognitum = Incognitum;
    let ops = escaped_ops();

    for i in 0..ops.len() {
        if let Ok(tagged) = incognitum.decode(false, ops[i].0.as_bytes()) {
            match tagged {
                TaggedValue::Incognitum(v) => {
                    assert_eq!(Tagged::get_tag(&v), yamlette::model::yamlette::incognitum::TAG);
                    assert_eq!(*v.get_value(), ops[i].1.to_string());
                }
                _ => assert!(false),
            }
        } else {
            assert!(false)
        }
    }
}

#[test]
fn literal_encode() {
    let renderer = Renderer;
    let literal = Literal;

    let ops = [
        (r#""Hey, this is a string!""#, r#""Hey, this is a string!""#),
        (r#""Hey,\nthis is\tanother\" one""#, r#""Hey,\nthis is\tanother\" one""#),
    ];

    for i in 0..ops.len() {
        if let Ok(rope) = literal.encode(&renderer, TaggedValue::Literal(LiteralValue::from(ops[i].0.to_string())), &[]) {
            let vec = rope.render(&renderer);
            assert_eq!(vec, ops[i].1.to_string().into_bytes().to_vec());
        } else {
            assert!(false)
        }

        if let Ok(rope) = literal.encode(&renderer, TaggedValue::Literal(LiteralValue::from(ops[i].0)), &[]) {
            let vec = rope.render(&renderer);
            assert_eq!(vec, ops[i].1.to_string().into_bytes().to_vec());
        } else {
            assert!(false)
        }
    }
}

#[test]
fn literal_decode() {
    let literal = Literal;
    let ops = escaped_ops();

    for i in 0..ops.len() {
        if let Ok(value) = literal.decode(false, ops[i].0.as_bytes()) {
            match value {
                TaggedValue::Literal(v) => {
                    assert_eq!(v.get_tag(), yamlette::model::yamlette::literal::TAG);
                    assert_eq!(v.as_str(), ops[i].1);
                }
                _ => assert!(false),
            }
        } else {
            assert!(false)
        }
    }
}

fn base91_pairs() -> [(&'static str, &'static str); 11] {
    [
        ("sure.", r##"f8zg5gA"##),
        ("asure.", r##"v2e3f,BB"##),
        ("easure.", r##"_D7gt@"@C"##),
        ("leasure.", r##"XPH<2]6eOI"##),
        ("pleasure.", r##""imfN[;N<RX"##),
        ("any carnal pleas", r##"po9K%*jNn$m!mBMm_DNK"##),
        ("any carnal pleasu", r##"po9K%*jNn$m!mBMm_D7gd"##),
        ("any carnal pleasur", r##"po9K%*jNn$m!mBMm_D7gt@A"##),
        ("any carnal pleasure", r##"po9K%*jNn$m!mBMm_D7gt@UC"##),
        ("any carnal pleasure.", r##"po9K%*jNn$m!mBMm_D7gt@"@C"##),
        ("Man is distinguished, not only by his reason, but by this singular passion from other animals, which is a lust of the mind, that by a perseverance of delight in the continued and indefatigable generation of knowledge, exceeds the short vehemence of any carnal pleasure.", r##"8D$J`/wC4!c.hQ;mT8,<p/&Y/H@$]xlL3oDg<W.0$FW6GFMo_D8=8=}AMf][|LfVd/<P1o/1Z2(.I+LR6tQQ0o1a/2/WtN3$3t[x&k)zgZ5=p;LRe.{B[pqa(I.WRT%yxtB92oZB,2,Wzv;Rr#N.cju"JFXiZBMf<WMC&$@+e95p)z01_*UCxT0t88Km=UQJ;WH[#F]4pE>i3o(g7=$e7R2u>xjLxoefB.6Yy#~uex8jEU_1e,MIr%!&=EHnLBn2h>M+;Rl3qxcL5)Wfc,HT$F]4pEsofrFK;W&eh#=#},|iKB,2,W]@fVlx,a<m;i=CY<=Hb%}+},F"##),
    ]
}

#[test]
fn base91_tag() {
    let model = Base91;
    assert_eq!(model.get_tag(), yamlette::model::yamlette::base91::TAG);
}

#[test]
fn base91_encode() {
    let renderer = Renderer;
    let model = Base91;

    let pairs = base91_pairs();

    for idx in 0..pairs.len() {
        let p = pairs[idx];

        if let Ok(rope) = model.encode(&renderer, TaggedValue::Binary(BinaryValue::from(p.0.to_string().into_bytes())), &[]) {
            let encoded = String::from_utf8(rope.render(&renderer)).unwrap();
            let expected = p.1;
            assert_eq!(encoded, expected);
        } else {
            assert!(false, "Unexpected result")
        }
    }
}

#[test]
fn base91_decode() {
    let model = Base91;

    let pairs = base91_pairs();

    for idx in 0..pairs.len() {
        let p = pairs[idx];

        if let Ok(tagged) = model.decode(true, &p.1.to_string().into_bytes()) {
            let expected = p.0.as_bytes();
            match tagged {
                TaggedValue::Binary(b) => assert_eq!(b.as_slice(), expected),
                _ => assert!(false),
            }
        } else {
            assert!(false, "Unexpected result")
        }
    }

    if let Ok(tagged) = model.decode(true, &"".to_string().into_bytes()) {
        match tagged {
            TaggedValue::Binary(b) => assert_eq!(0, b.to_vec().len()),
            _ => assert!(false),
        }
    } else {
        assert!(false, "Unexpected result")
    }
}

#[test]
fn base91_roundtrip_bytes() {
    let renderer = Renderer;
    let data: Vec<u8> = (0u8..=255).collect();
    let text = Base91.encode(&renderer, TaggedValue::Binary(BinaryValue::from(data.clone())), &[]).ok().unwrap().render(&renderer);
    match Base91.decode(true, &text) {
        Ok(TaggedValue::Binary(b)) => assert_eq!(b.to_vec(), data),
        _ => assert!(false),
    }
}

#[test]
fn env_tag() {
    let env = Env;
    assert_eq!(env.get_tag(), yamlette::model::yamlette::env::TAG);
}

#[test]
fn env_decode_key_and_resolved() {
    let env = Env;
    assert_eq!(env.decode_key(b"HOME"), Ok("HOME".to_string()));
    assert!(env.decode_key(&[0xff]).is_err());
    match env.decode_resolved(Ok("value".to_string())) {
        Ok(TaggedValue::Literal(v)) => assert_eq!(v.as_str(), "value"),
        _ => assert!(false),
    }
    assert!(env.decode_resolved(Err(())).is_err());
}
