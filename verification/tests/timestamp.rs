use fraction::Fraction;
use yamlette::model::yaml::float::FloatValue;
use yamlette::model::yaml::timestamp::{Timestamp, TimestampValue, TAG};
use yamlette::model::{Renderer, Tagged, TaggedValue};

fn encoded_dt_is(dt: TimestampValue, text: &str) {
    let renderer = Renderer;
    if let Ok(rope) = Timestamp.encode(&renderer, TaggedValue::Timestamp(dt), &[]) {
        let encoded = rope.render(&renderer);
        assert_eq!(text.to_string().into_bytes(), encoded);
    } else {
        assert!(false)
    }
}

fn decoded(text: &str) -> TimestampValue {
    match Timestamp.decode(true, text.as_bytes()) {
        Ok(TaggedValue::Timestamp(v)) => {
            assert_eq!(v.get_tag(), TAG);
            v
        }
        _ => panic!("not decoded"),
    }
}

fn date_time() -> TimestampValue {
    TimestampValue::new().year(2016).month(1).day(16).hour(18).minute(58).second(3)
}

fn quarter() -> FloatValue {
    FloatValue::from_fraction(false, 25, 100)
}

#[test]
fn timestamp_encode() {
    encoded_dt_is(TimestampValue::new().year(2016).month(1).day(16), "2016-01-16");
    encoded_dt_is(TimestampValue::new().hour(18).minute(58).second(3), "18:58:03");

    encoded_dt_is(date_time(), "2016-01-16T18:58:03");

    encoded_dt_is(date_time().fraction(quarter()).tz_hour(12), "2016-01-16T18:58:03.25+12");
    encoded_dt_is(date_time().fraction(quarter()).tz_hour(-2), "2016-01-16T18:58:03.25-02");
    encoded_dt_is(date_time().fraction(quarter()).tz_hour(-2).tz_minute(25), "2016-01-16T18:58:03.25-02:25");
}

#[test]
fn timestamp_decode() {
    let decoded_date = decoded("2016-01-16");
    assert!(decoded_date.year.is_some());
    assert_eq!(decoded_date.year.unwrap(), 2016);
    assert!(decoded_date.month.is_some());
    assert_eq!(decoded_date.month.unwrap(), 1);
    assert!(decoded_date.day.is_some());
    assert_eq!(decoded_date.day.unwrap(), 16);
    assert!(decoded_date.hour.is_none());
    assert!(decoded_date.minute.is_none());
    assert!(decoded_date.second.is_none());
    assert!(decoded_date.fraction.is_none());
    assert!(decoded_date.tz_hour.is_none());
    assert!(decoded_date.tz_minute.is_none());

    let decoded_time = decoded("23:59:11");
    assert!(decoded_time.year.is_none());
    assert!(decoded_time.month.is_none());
    assert!(decoded_time.day.is_none());
    assert!(decoded_time.hour.is_some());
    assert_eq!(decoded_time.hour.unwrap(), 23);
    assert!(decoded_time.minute.is_some());
    assert_eq!(decoded_time.minute.unwrap(), 59);
    assert!(decoded_time.second.is_some());
    assert_eq!(decoded_time.second.unwrap(), 11);
    assert!(decoded_time.fraction.is_none());
    assert!(decoded_time.tz_hour.is_none());
    assert!(decoded_time.tz_minute.is_none());

    let decoded_full = decoded("2016-06-03T23:59:11.0045-12:25");
    assert!(decoded_full.year.is_some());
    assert_eq!(decoded_full.year.unwrap(), 2016);
    assert!(decoded_full.month.is_some());
    assert_eq!(decoded_full.month.unwrap(), 6);
    assert!(decoded_full.day.is_some());
    assert_eq!(decoded_full.day.unwrap(), 3);
    assert!(decoded_full.hour.is_some());
    assert_eq!(decoded_full.hour.unwrap(), 23);
    assert!(decoded_full.minute.is_some());
    assert_eq!(decoded_full.minute.unwrap(), 59);
    assert!(decoded_full.second.is_some());
    assert_eq!(decoded_full.second.unwrap(), 11);
    assert!(decoded_full.fraction.is_some());
    let frac = decoded_full.fraction.as_ref().unwrap();
    assert_eq!(format!("{:.4}", Fraction::new(9u8, 2000u16)), frac.format_as_float().unwrap());
    assert!(decoded_full.tz_hour.is_some());
    assert_eq!(decoded_full.tz_hour.unwrap(), -12);
    assert!(decoded_full.tz_minute.is_some());
    assert_eq!(decoded_full.tz_minute.unwrap(), 25);
}

#[test]
fn timestamp_decode_refuses_bad_month_separator() {
    assert!(Timestamp.decode(true, b"2016/01/16").is_err());
}

#[test]
fn timestamp_roundtrip_date() {
    let renderer = Renderer;
    let rope = Timestamp.encode(&renderer, TaggedValue::Timestamp(TimestampValue::new().year(2001).month(12).day(9)), &[]).ok().unwrap();
    let text = rope.render(&renderer);
    let back = decoded(std::str::from_utf8(&text).unwrap());
    assert_eq!(back.year, Some(2001));
    assert_eq!(back.month, Some(12));
    assert_eq!(back.day, Some(9));
}

fn round_trip(dt: TimestampValue) -> TimestampValue {
    let renderer = Renderer;
    let rope = Timestamp.encode(&renderer, TaggedValue::Timestamp(dt), &[]).ok().unwrap();
    let text = rope.render(&renderer);
    match Timestamp.decode(false, &text) {
        Ok(TaggedValue::Timestamp(v)) => v,
        _ => panic!("not read back"),
    }
}

#[test]
fn timestamp_roundtrip_full() {
    let back = round_trip(date_time().fraction(quarter()).tz_hour(-2).tz_minute(25));
    assert_eq!(back.year, Some(2016));
    assert_eq!(back.month, Some(1));
    assert_eq!(back.day, Some(16));
    assert_eq!(back.hour, Some(18));
    assert_eq!(back.minute, Some(58));
    assert_eq!(back.second, Some(3));
    assert_eq!(back.fraction.as_ref().unwrap().format_as_float().unwrap(), "0.25");
    assert_eq!(back.tz_hour, Some(-2));
    assert_eq!(back.tz_minute, Some(25));
}

#[test]
fn timestamp_roundtrip_time_and_zero_zone() {
    let back = round_trip(TimestampValue::new().hour(0).minute(0).second(60).tz_hour(0));
    assert_eq!(back.year, None);
    assert_eq!(back.hour, Some(0));
    assert_eq!(back.minute, Some(0));
    assert_eq!(back.second, Some(60));
    assert!(back.fraction.is_none());
    assert_eq!(back.tz_hour, Some(0));
    assert_eq!(back.tz_minute, None);
}

#[test]
fn timestamp_roundtrip_negative_year() {
    let back = round_trip(TimestampValue::new().year(-44).month(3).day(15));
    assert_eq!(back.year, Some(-44));
    assert_eq!(back.month, Some(3));
    assert_eq!(back.day, Some(15));
    assert_eq!(back.hour, None);
}
