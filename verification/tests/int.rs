use yamlette::model::yaml::integer::{Int, IntValue, TAG};
use yamlette::model::{Renderer, Tagged, TaggedValue};

fn decoded_i64(tagged: TaggedValue) -> Option<i64> {
    match tagged {
        TaggedValue::Int(v) => {
            assert_eq!(v.get_tag(), TAG);
            v.to_i64()
        }
        _ => panic!("not an int"),
    }
}

#[test]
fn int_encode() {
    let renderer = Renderer;
    let int = Int;

    let options = [0b0000_1111, 0o12, 0xA0, 581, -8888];
    let results = ["15", "10", "160", "581", "-8888"];

    for i in 0..options.len() {
        if let Ok(rope) = int.encode(&renderer, TaggedValue::Int(IntValue::from(options[i])), &[]) {
            let encoded = rope.render(&renderer);
            assert_eq!(encoded, results[i].to_string().into_bytes());
        } else {
            assert!(false)
        }
    }
}

#[test]
fn int_decode() {
    let int = Int;

    let options = [
        "0b0000_1111",
        "0b1010_0111_0100_1010_1110",
        "02472256",
        "0o2472256",
        "0x_0A_74_AE",
        "0x_0a_74_ae",
        "685230",
        "+685_230",
        "-685_230",
        "0b0000_1111  \t",
    ];
    let results = [15, 685230, 2472256, 685230, 685230, 685230, 685230, 685230, -685230, 15];

    for i in 0..options.len() {
        if let Ok(tagged) = int.decode(false, &options[i].to_string().into_bytes()) {
            let val = decoded_i64(tagged);
            assert!(val.is_some());
            assert_eq!(val.unwrap(), results[i] as i64);
        } else {
            assert!(false, "Could not decode {}", &options[i])
        }
    }

    let decoded = int.decode(true, &"190:20:30".to_string().into_bytes());
    assert!(decoded.is_err());
}

#[test]
fn int_decode11() {
    let int = Int;

    let options = [
        "0b0000_1111",
        "0b1010_0111_0100_1010_1110",
        "02472256",
        "0o2472256",
        "0x_0A_74_AE",
        "0x_0a_74_ae",
        "685230",
        "+685_230",
        "190:20:30",
    ];
    let results = [15, 685230, 685230, 685230, 685230, 685230, 685230, 685230, 685230];

    for i in 0..options.len() {
        if let Ok(tagged) = int.decode11(true, &options[i].to_string().into_bytes()) {
            let val = decoded_i64(tagged);
            assert!(val.is_some());
            assert_eq!(val.unwrap(), results[i]);
        } else {
            assert!(false)
        }
    }
}

#[test]
fn decode_bigint() {
    let int = Int;

    let option = "1234567890123456789012345678901234567890123456789012345678901234567890123456789012345678901234567890";
    let result: num::BigInt = option.parse().unwrap();

    if let Ok(tagged) = int.decode(true, &option.to_string().into_bytes()) {
        match tagged {
            TaggedValue::Int(v) => {
                assert_eq!(v.get_tag(), TAG);
                assert!(v.to_i64().is_none());
                let (negative, digits) = v.to_big_parts();
                let sign = if negative { num::bigint::Sign::Minus } else { num::bigint::Sign::Plus };
                let val = num::BigInt::from_slice(sign, &digits);
                assert_eq!(val, result);
                assert_eq!(v.to_decimal(), option.as_bytes().to_vec());
            }
            _ => assert!(false),
        }
    } else {
        assert!(false)
    }
}

#[test]
fn int_decode_nl() {
    let int = Int;

    if let Ok(_) = int.decode(true, &"\n".to_string().into_bytes()) {
        assert!(false);
    }
    if let Ok(_) = int.decode(true, &r#""\n""#.to_string().into_bytes()) {
        assert!(false);
    }
    if let Ok(_) = int.decode(true, &r#""""#.to_string().into_bytes()) {
        assert!(false);
    }
    if let Ok(_) = int.decode(true, &r#"'\n'"#.to_string().into_bytes()) {
        assert!(false);
    }
    if let Ok(_) = int.decode(true, &r#"''"#.to_string().into_bytes()) {
        assert!(false);
    }
}

#[test]
fn int_from_u64_beyond_i64() {
    let v = IntValue::from(u64::MAX);
    assert!(v.to_i64().is_none());
    assert_eq!(v.to_u64(), Some(u64::MAX));
    assert_eq!(v.to_decimal(), b"18446744073709551615".to_vec());
}

#[test]
fn int_decode_roundtrip_negative() {
    let int = Int;
    let renderer = Renderer;
    let rope = int.encode(&renderer, TaggedValue::Int(IntValue::from(-42i64)), &[]).ok().unwrap();
    let text = rope.render(&renderer);
    assert_eq!(text, b"-42".to_vec());
    let back = int.decode(false, &text).ok().unwrap();
    assert_eq!(decoded_i64(back), Some(-42));
}

#[test]
fn int_encode_issues_tag_and_anchor() {
    let int = Int;
    let renderer = Renderer;
    let mut v = IntValue::from(7u8);
    v.set_issue_tag(true);
    v.set_alias(Some("a".to_string()));
    let rope = int.encode(&renderer, TaggedValue::Int(v), &[("!!".to_string(), "tag:yaml.org,2002:".to_string())]).ok().unwrap();
    assert_eq!(rope.render(&renderer), b"!!int &a 7".to_vec());
}

#[test]
fn int_encode_refuses_other_values() {
    let int = Int;
    let renderer = Renderer;
    let other = TaggedValue::Null(yamlette::model::yaml::null::NullValue::default());
    assert!(int.encode(&renderer, other, &[]).is_err());
}
