use fraction::{BigFraction, BigUint, Fraction};
use yamlette::model::yaml::float::{Float, FloatValue, TAG};
use yamlette::model::{Renderer, Tagged, TaggedValue};

fn float_value_of(f: f64) -> FloatValue {
    let fr = Fraction::from(f);
    if fr.is_nan() {
        FloatValue::nan()
    } else if fr.is_infinite() {
        FloatValue::infinity(fr.is_sign_negative())
    } else {
        FloatValue::from_fraction(fr.is_sign_negative(), *fr.numer().unwrap(), *fr.denom().unwrap())
    }
}

fn as_big_fraction(v: &FloatValue) -> BigFraction {
    if v.is_nan() {
        BigFraction::nan()
    } else if v.is_infinite() {
        if v.is_negative() { BigFraction::neg_infinity() } else { BigFraction::infinity() }
    } else {
        let (neg, n, d) = v.fraction_parts().unwrap();
        let f = BigFraction::new(BigUint::from_slice(&n), BigUint::from_slice(&d));
        if neg { -f } else { f }
    }
}

fn decoded(tagged: TaggedValue) -> FloatValue {
    match tagged {
        TaggedValue::Float(v) => {
            assert_eq!(v.get_tag(), TAG);
            v
        }
        _ => panic!("not a float"),
    }
}

fn encoded(value: FloatValue) -> Vec<u8> {
    let renderer = Renderer;
    let float = Float;
    float.encode(&renderer, TaggedValue::Float(value), &[]).ok().unwrap().render(&renderer)
}

fn decoded_is_f64(text: &str, val: f64) {
    let float = Float;
    if let Ok(tagged) = float.decode(true, &text.to_string().into_bytes()) {
        assert_eq!(as_big_fraction(&decoded(tagged)), BigFraction::from(val));
    } else {
        assert!(false)
    }
}

fn decoded11_is_f64(text: &str, val: f64) {
    let float = Float;
    if let Ok(tagged) = float.decode11(true, &text.to_string().into_bytes()) {
        assert_eq!(as_big_fraction(&decoded(tagged)), BigFraction::from(val));
    } else {
        assert!(false)
    }
}

fn decoded_is_frac(text: &str, num: u64, den: u64) {
    let float = Float;
    if let Ok(tagged) = float.decode(true, &text.to_string().into_bytes()) {
        assert_eq!(as_big_fraction(&decoded(tagged)), BigFraction::new(BigUint::from(num), BigUint::from(den)));
    } else {
        assert!(false)
    }
}

fn decoded11_is_frac(text: &str, num: u64, den: u64) {
    let float = Float;
    if let Ok(tagged) = float.decode11(true, &text.to_string().into_bytes()) {
        assert_eq!(as_big_fraction(&decoded(tagged)), BigFraction::new(BigUint::from(num), BigUint::from(den)));
    } else {
        assert!(false)
    }
}

#[test]
fn float_encode() {
    assert_eq!(encoded(FloatValue::nan()), ".nan".as_bytes());
    assert_eq!(encoded(FloatValue::infinity(false)), ".inf".as_bytes());
    assert_eq!(encoded(FloatValue::infinity(true)), "-.inf".as_bytes());

    assert_eq!(encoded(float_value_of(0f64)), "0.0".as_bytes());
    assert_eq!(encoded(float_value_of(1f64)), "1.0".as_bytes());
    assert_eq!(encoded(float_value_of(1.1f64)), "1.1".as_bytes());
    assert_eq!(encoded(float_value_of(1234_5678.111_222e-4)), "1234.5678111222".as_bytes());
}

#[test]
fn decode_inf() {
    let float = Float;

    for text in [".inf", ".Inf", ".INF"] {
        if let Ok(tagged) = float.decode(true, &text.to_string().into_bytes()) {
            let val = as_big_fraction(&decoded(tagged));
            assert!(val.is_infinite());
            assert!(val > BigFraction::from(0));
        } else {
            assert!(false)
        }
    }

    let decoded_inf = float.decode(true, &".INf".to_string().into_bytes());
    assert!(decoded_inf.is_err());

    if let Ok(tagged) = float.decode(true, &"-.inf".to_string().into_bytes()) {
        let val = as_big_fraction(&decoded(tagged));
        assert!(val.is_infinite());
        assert!(val.is_sign_negative());
        assert!(val < BigFraction::from(0));
    } else {
        assert!(false)
    }
}

#[test]
fn decode_nan() {
    let float = Float;

    for text in [".nan", ".NaN", ".NAN"] {
        if let Ok(tagged) = float.decode(true, &text.to_string().into_bytes()) {
            let val = as_big_fraction(&decoded(tagged));
            assert!(val.is_nan());
        } else {
            assert!(false)
        }
    }

    let decoded_nan = float.decode(true, &".NAn".to_string().into_bytes());
    assert!(decoded_nan.is_err());
}

#[test]
fn float_decode() {
    let float = Float;

    decoded_is_f64("-.inf", f64::NEG_INFINITY);
    decoded_is_f64("128", 128_f64);
    decoded_is_frac("128.4", 1284, 10);
    decoded_is_frac("128.44", 12844, 100);
    decoded_is_frac("128.48604620", 1284860462, 10000000);

    decoded_is_f64("128.48604620e10", 128.48604620e10);
    decoded_is_f64("128.48604620e+12", 128.48604620e12);

    decoded_is_frac("128.48604620e-2", 1284860462, 1000000000);

    decoded11_is_f64("01:30", 90 as f64);

    decoded_is_frac("6.8523015e+5", 68523015, 100);
    decoded_is_frac("685.230_15e+03", 68523015, 100);
    decoded_is_frac("685_230.15", 68523015, 100);

    decoded11_is_frac("190:20:30.15", 68523015, 100);

    decoded_is_f64("12e03", 12e03);

    let d = float.decode(true, &"190:20:30.15".to_string().into_bytes());
    assert!(d.is_err());

    let d = float.decode(true, &"01:30".to_string().into_bytes());
    assert!(d.is_err());

    let d = float.decode11(true, &"12e03".to_string().into_bytes());
    assert!(d.is_err());

    let d = float.decode(true, &"e".to_string().into_bytes());
    assert!(d.is_err());

    let d = float.decode11(true, &"e".to_string().into_bytes());
    assert!(d.is_err());
}

#[test]
fn float_decode_nl() {
    let float = Float;

    if let Ok(_) = float.decode(true, &"\n".to_string().into_bytes()) {
        assert!(false);
    }
    if let Ok(_) = float.decode(true, &r#""\n""#.to_string().into_bytes()) {
        assert!(false);
    }
    if let Ok(_) = float.decode(true, &r#""""#.to_string().into_bytes()) {
        assert!(false);
    }
    if let Ok(_) = float.decode(true, &r#"'\n'"#.to_string().into_bytes()) {
        assert!(false);
    }
    if let Ok(_) = float.decode(true, &r#"''"#.to_string().into_bytes()) {
        assert!(false);
    }
}

#[test]
fn float_format_as_float_trims() {
    let v = FloatValue::from_fraction(true, 5, 4);
    assert_eq!(v.format_as_float(), Some("-1.25".to_string()));
    assert_eq!(FloatValue::nan().format_as_float(), None);
}

#[test]
fn float_encode_then_decode() {
    let float = Float;
    let text = encoded(FloatValue::from_fraction(false, 1284, 10));
    assert_eq!(text, b"128.4".to_vec());
    let back = decoded(float.decode(true, &text).ok().unwrap());
    assert_eq!(as_big_fraction(&back), BigFraction::new(BigUint::from(1284u64), BigUint::from(10u64)));
}

#[test]
fn float_to_i64_whole() {
    let float = Float;
    let v = decoded(float.decode(true, b"12e03").ok().unwrap());
    assert_eq!(v.to_i64(), Some(12000));
    let v = decoded(float.decode(true, b"128.4").ok().unwrap());
    assert_eq!(v.to_i64(), None);
}

#[test]
fn float_decode_refuses_an_exponent_beyond_a_machine_word() {
    let float = Float;
    assert!(float.decode(false, b"1e99999999999999999999").is_err());
    assert!(float.decode11(false, b"1.0e+99999999999999999999").is_err());
    assert!(float.decode(false, b"1e3").is_ok());
}
