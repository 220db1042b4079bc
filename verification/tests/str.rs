use yamlette::model::style::Style;
use yamlette::model::yaml::str::{ForceQuotes, PreferDoubleQuotes, Str, StrValue, TAG};
use yamlette::model::{CommonStyles, Renderer, Tagged, TaggedValue};

fn decoded_text(tagged: TaggedValue) -> String {
    match tagged {
        TaggedValue::Str(v) => {
            assert_eq!(v.get_tag(), TAG);
            v.as_str().to_string()
        }
        _ => panic!("not a string"),
    }
}

fn encoded(value: StrValue) -> Vec<u8> {
    let renderer = Renderer;
    Str.encode(&renderer, TaggedValue::Str(value), &[]).ok().unwrap().render(&renderer)
}

#[test]
fn str_encode() {
    let ops = [
        ("Hey, this is a string!", "Hey, this is a string!"),
        ("Hey,\nthis is\tanother\" one", r#""Hey,\nthis is\tanother\" one""#),
    ];

    for i in 0..ops.len() {
        let vec = encoded(StrValue::from(ops[i].0.to_string()));
        assert_eq!(vec, ops[i].1.to_string().into_bytes().to_vec());

        let vec = encoded(StrValue::from(ops[i].0));
        assert_eq!(vec, ops[i].1.to_string().into_bytes().to_vec());
    }
}

#[test]
fn str_decode() {
    let str = Str;

    let ops = [
        ("Hey, this is a string!", "Hey, this is a string!"),
        (r"'Hey, that''s the string!'", "Hey, that's the string!"),
        (r#""Hey, that\"s the string!""#, "Hey, that\"s the string!"),
        (r#""Hey,\n\ that's\tthe\0string\\""#, "Hey,\n that's\tthe\0string\\"),
        (r#""This\x0Ais\x09a\x2c\x20test""#, "This\nis\ta, test"),
        (r#""\u0422\u0435\u0441\u0442\x0a""#, "Тест\n"),
        (r#""\u30c6\u30b9\u30c8\x0a""#, "テスト\n"),
        (
            r#""\U00013000\U00013001\U00013002\U00013003\U00013004\U00013005\U00013006\U00013007""#,
            "𓀀𓀁𓀂𓀃𓀄𓀅𓀆𓀇",
        ),
    ];

    for i in 0..ops.len() {
        if let Ok(tagged) = str.decode(true, ops[i].0.as_bytes()) {
            assert_eq!(decoded_text(tagged), ops[i].1);
        } else {
            assert!(false)
        }
    }
}

#[test]
fn folding() {
    let str = Str;

    let ops = [
        (r#""Four    spaces""#, "Four    spaces"),
        (r#""Four  \  spaces""#, "Four    spaces"),
        (
            r#""Four  
  spaces""#,
            "Four spaces",
        ),
        (
            r#"" 1st non-empty

 2nd non-empty 
	3rd non-empty ""#,
            " 1st non-empty\n2nd non-empty 3rd non-empty ",
        ),
        (
            r#""folded 
to a space,	
 
to a line feed, or 	\
 \ 	non-content""#,
            "folded to a space,\nto a line feed, or \t \tnon-content",
        ),
        (
            r#""
  foo 
 
  	 bar

  baz
""#,
            " foo\nbar\nbaz ",
        ),
    ];

    for i in 0..ops.len() {
        if let Ok(tagged) = str.decode(true, ops[i].0.as_bytes()) {
            assert_eq!(decoded_text(tagged), ops[i].1);
        } else {
            assert!(false)
        }
    }
}

#[test]
fn str_force_quotes() {
    let mut v = StrValue::from("plain".to_string());
    v.set_force_quotes(true);
    assert_eq!(encoded(v), b"'plain'".to_vec());

    let mut v = StrValue::from("plain".to_string());
    v.set_force_quotes(true);
    v.set_prefer_double_quotes(true);
    assert_eq!(encoded(v), b"\"plain\"".to_vec());
}

#[test]
fn str_quote_styles_apply_to_values() {
    let mut value = TaggedValue::Str(StrValue::from("x".to_string()));
    ForceQuotes(true).tagged_styles_apply(&mut value);
    PreferDoubleQuotes(true).tagged_styles_apply(&mut value);
    match value {
        TaggedValue::Str(v) => {
            assert!(v.force_quotes());
            assert!(v.prefer_double_quotes());
        }
        _ => assert!(false),
    }
}

#[test]
fn str_roundtrip_quoted() {
    let text = "a: b\n\t\"c\"";
    let bytes = encoded(StrValue::new(text.to_string(), CommonStyles::default(), None));
    let back = Str.decode(true, &bytes).ok().unwrap();
    assert_eq!(decoded_text(back), text);
}

#[test]
fn str_decode_unknown_escape_keeps_backslash() {
    let back = Str.decode(true, br#""\q""#).ok().unwrap();
    assert_eq!(decoded_text(back), "\\q");
}

#[test]
fn str_decode_inner_quote_is_refused() {
    assert!(Str.decode(true, b"\"a\"b\"").is_err());
}
