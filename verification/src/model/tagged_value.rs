//! A value of any of the models, with its tag.
use vstd::prelude::*;

use crate::model::yaml::binary::BinaryValue;
use crate::model::yaml::bool::BoolValue;
use crate::model::yaml::float::FloatValue;
use crate::model::yaml::integer::IntValue;
use crate::model::yaml::map::MapValue;
use crate::model::yaml::merge::MergeValue;
use crate::model::yaml::null::NullValue;
use crate::model::yaml::sequence::SeqValue;
use crate::model::yaml::str::StrValue;
use crate::model::yaml::timestamp::TimestampValue;
use crate::model::yaml::value::ValueValue;
use crate::model::yaml::yaml::YamlValue;
use crate::model::yamlette::incognitum::IncognitumValue;
use crate::model::yamlette::literal::LiteralValue;
use crate::model::Tagged;

verus! {

#[derive(Debug)]
pub enum TaggedValue {
    Binary(BinaryValue),
    Bool(BoolValue),
    Float(FloatValue),
    Int(IntValue),
    Mapping(MapValue),
    Merge(MergeValue),
    Null(NullValue),
    Sequence(SeqValue),
    Str(StrValue),
    Timestamp(TimestampValue),
    Value(ValueValue),
    Yaml(YamlValue),
    Literal(LiteralValue),
    Incognitum(IncognitumValue),
}

/// The tag of a value is that of its model.
impl Tagged for TaggedValue {
    open spec fn spec_tag(&self) -> &'static str {
        match self {
            TaggedValue::Binary(v) => v.spec_tag(),
            TaggedValue::Bool(v) => v.spec_tag(),
            TaggedValue::Float(v) => v.spec_tag(),
            TaggedValue::Int(v) => v.spec_tag(),
            TaggedValue::Mapping(v) => v.spec_tag(),
            TaggedValue::Merge(v) => v.spec_tag(),
            TaggedValue::Null(v) => v.spec_tag(),
            TaggedValue::Sequence(v) => v.spec_tag(),
            TaggedValue::Str(v) => v.spec_tag(),
            TaggedValue::Timestamp(v) => v.spec_tag(),
            TaggedValue::Value(v) => v.spec_tag(),
            TaggedValue::Yaml(v) => v.spec_tag(),
            TaggedValue::Literal(v) => v.spec_tag(),
            TaggedValue::Incognitum(v) => v.spec_tag(),
        }
    }

    fn get_tag(&self) -> (r: &'static str) {
        match self {
            TaggedValue::Binary(v) => v.get_tag(),
            TaggedValue::Bool(v) => v.get_tag(),
            TaggedValue::Float(v) => v.get_tag(),
            TaggedValue::Int(v) => v.get_tag(),
            TaggedValue::Mapping(v) => v.get_tag(),
            TaggedValue::Merge(v) => v.get_tag(),
            TaggedValue::Null(v) => v.get_tag(),
            TaggedValue::Sequence(v) => v.get_tag(),
            TaggedValue::Str(v) => v.get_tag(),
            TaggedValue::Timestamp(v) => v.get_tag(),
            TaggedValue::Value(v) => v.get_tag(),
            TaggedValue::Yaml(v) => v.get_tag(),
            TaggedValue::Literal(v) => v.get_tag(),
            TaggedValue::Incognitum(v) => Tagged::get_tag(v),
        }
    }
}

} // verus!
