//! The core schema: the models it knows by tag, the tag handles it starts
//! with, and the order in which it tries to read a plain scalar.
use vstd::prelude::*;
use vstd::string::StringSliceAdditionalSpecFns;
use vstd::utf8::valid_utf8;

use crate::model::bytes::string_bytes;
use crate::model::style::CommonStyles;
use crate::model::yaml::binary;
use crate::model::yaml::bool::{bool_parse, Bool};
use crate::model::yaml::float::{float_parse, Float};
use crate::model::yaml::integer::{int_parse, Int};
use crate::model::yaml::merge;
use crate::model::yaml::null::{null_decodes, Null};
use crate::model::yaml::omap;
use crate::model::yaml::sequence;
use crate::model::yaml::str::{str_decoded, Str};
use crate::model::yaml::timestamp;
use crate::model::yaml::value;
use crate::model::yaml::yaml;
use crate::model::yamlette::incognitum::{self, Incognitum};
use crate::model::yamlette::literal::{self, Literal};
use crate::model::TaggedValue;

verus! {

pub const MAP_TAG: &'static str = crate::model::yaml::map::TAG;

pub const SET_TAG: &'static str = "tag:yaml.org,2002:set";

pub const PAIRS_TAG: &'static str = "tag:yaml.org,2002:pairs";

/// The models of the core schema.
#[derive(Clone, Copy, Debug, PartialEq, Eq, Structural)]
pub enum CoreModel {
    Mapping,
    Unordered,
    Pairs,
    Sequence,
    Omap,
    Null,
    Bool,
    Int,
    Float,
    Str,
    Merge,
    Value,
    Yaml,
    Timestamp,
    Binary,
    Literal,
    Incognitum,
}

/// The models in the order the schema looks them up.
pub open spec fn core_models() -> Seq<CoreModel> {
    seq![
        CoreModel::Mapping,
        CoreModel::Unordered,
        CoreModel::Pairs,
        CoreModel::Sequence,
        CoreModel::Omap,
        CoreModel::Null,
        CoreModel::Bool,
        CoreModel::Int,
        CoreModel::Float,
        CoreModel::Str,
        CoreModel::Merge,
        CoreModel::Value,
        CoreModel::Yaml,
        CoreModel::Timestamp,
        CoreModel::Binary,
        CoreModel::Literal,
        CoreModel::Incognitum,
    ]
}

/// The tag of each model.
pub open spec fn core_model_tag(m: CoreModel) -> &'static str {
    match m {
        CoreModel::Mapping => MAP_TAG,
        CoreModel::Unordered => SET_TAG,
        CoreModel::Pairs => PAIRS_TAG,
        CoreModel::Sequence => sequence::TAG,
        CoreModel::Omap => omap::TAG,
        CoreModel::Null => crate::model::yaml::null::TAG,
        CoreModel::Bool => crate::model::yaml::bool::TAG,
        CoreModel::Int => crate::model::yaml::integer::TAG,
        CoreModel::Float => crate::model::yaml::float::TAG,
        CoreModel::Str => crate::model::yaml::str::TAG,
        CoreModel::Merge => merge::TAG,
        CoreModel::Value => value::TAG,
        CoreModel::Yaml => yaml::TAG,
        CoreModel::Timestamp => timestamp::TAG,
        CoreModel::Binary => binary::TAG,
        CoreModel::Literal => literal::TAG,
        CoreModel::Incognitum => incognitum::TAG,
    }
}

/// The first model, from `i` on in lookup order, whose tag is `tag`.
pub open spec fn model_of_tag_from(tag: Seq<u8>, i: int) -> Option<CoreModel>
    decreases core_models().len() - i,
{
    if i < 0 || i >= core_models().len() {
        None
    } else if core_model_tag(core_models()[i]).spec_bytes() == tag {
        Some(core_models()[i])
    } else {
        model_of_tag_from(tag, i + 1)
    }
}

/// Whether a plain scalar reads as null, the first thing tried.
pub open spec fn reads_null(v: Seq<u8>) -> bool {
    null_decodes(false, v)
}

/// Whether it reads as a boolean, where not as null.
pub open spec fn reads_bool(v: Seq<u8>, yaml_11: bool) -> bool {
    !reads_null(v) && bool_parse(false, v, yaml_11) is Some
}

/// Whether it reads as an integer, where not as anything tried before.
pub open spec fn reads_int(v: Seq<u8>, yaml_11: bool) -> bool {
    !reads_null(v) && bool_parse(false, v, yaml_11) is None && int_parse(false, v, yaml_11, yaml_11) is Some
}

/// Whether the float reader is reached.
pub open spec fn reaches_float(v: Seq<u8>, yaml_11: bool) -> bool {
    !reads_null(v) && bool_parse(false, v, yaml_11) is None && int_parse(false, v, yaml_11, yaml_11) is None
}

/// Whether it reads as a float, where not as anything tried before.
pub open spec fn reads_float(v: Seq<u8>, yaml_11: bool) -> bool {
    reaches_float(v, yaml_11) && (float_parse(false, v, yaml_11, !yaml_11) matches Some(Some(_)))
}

/// Whether the string reader is reached.
pub open spec fn reaches_str(v: Seq<u8>, yaml_11: bool) -> bool {
    reaches_float(v, yaml_11) && !reads_float(v, yaml_11)
}

/// Whether it reads as a string, where not as anything tried before.
pub open spec fn reads_str(v: Seq<u8>, yaml_11: bool) -> bool {
    reaches_str(v, yaml_11) && (str_decoded(v) matches Some(Some(b)) && valid_utf8(b))
}

/// Whether it is taken as a value of an unknown tag: nothing before read it,
/// and it is valid UTF-8.
pub open spec fn reads_incognitum(v: Seq<u8>, yaml_11: bool) -> bool {
    reaches_str(v, yaml_11) && !reads_str(v, yaml_11) && valid_utf8(v)
}

/// What the schema reads a plain scalar as: the first of null, boolean,
/// integer, float, string and a value of an unknown tag that reads it, or
/// nothing.
pub open spec fn implicit_value(v: Seq<u8>, yaml_11: bool, r: Option<TaggedValue>) -> bool {
    if reads_null(v) {
        r matches Some(TaggedValue::Null(n)) && n.is_plain()
    } else if reads_bool(v, yaml_11) {
        r matches Some(TaggedValue::Bool(b)) && (b.is_plain() && Some(b.spec_value()) == bool_parse(false, v, yaml_11))
    } else if reads_int(v, yaml_11) {
        r matches Some(TaggedValue::Int(i)) && (i.is_plain() && i.reads_as(int_parse(false, v, yaml_11, yaml_11)->0))
    } else if reads_float(v, yaml_11) {
        r matches Some(TaggedValue::Float(f)) && match float_parse(false, v, yaml_11, !yaml_11) {
            Some(Some((kind, negative, num, den, big))) => f.is_plain() && f.spec_value().is_parsed(kind, negative, num, den, big),
            _ => false,
        }
    } else if reads_str(v, yaml_11) {
        r matches Some(TaggedValue::Str(s)) && (s.is_plain() && string_bytes(s.spec_value()) == str_decoded(v)->0->0)
    } else if reads_incognitum(v, yaml_11) {
        r matches Some(TaggedValue::Incognitum(i)) && (i.spec_tag_name() is None && i.spec_anchor() is None
            && string_bytes(i.spec_value()) == v)
    } else {
        r is None
    }
}

/// Whether two byte strings are equal.
fn bytes_equal(a: &[u8], b: &[u8]) -> (r: bool)
    ensures
        r == (a@ == b@),
{
    if a.len() != b.len() {
        return false;
    }
    let mut i: usize = 0;
    while i < a.len()
        invariant
            a@.len() == b@.len(),
            i <= a@.len(),
            forall|k: int| 0 <= k < i ==> a@[k] == b@[k],
        decreases a@.len() - i,
    {
        if a[i] != b[i] {
            return false;
        }
        i = i + 1;
    }
    assert(a@ =~= b@);
    true
}

/// The core schema.
pub struct Core {
    styles: CommonStyles,
    tag_handles: Vec<(String, String)>,
}

impl Core {
    pub closed spec fn spec_styles(&self) -> CommonStyles {
        self.styles
    }

    pub closed spec fn spec_tag_handles(&self) -> Seq<(String, String)> {
        self.tag_handles@
    }

    /// The default styles, and three tag handles: `!!` for the YAML tags,
    /// `!` for the string, sequence and map tags, and an empty one.
    pub fn new() -> (r: Core)
        ensures
            r.spec_styles().spec_params() == 0,
            r.spec_styles().spec_indent() == 2,
            r.spec_styles().spec_threshold() == 120,
            r.spec_tag_handles().len() == 3,
            r.spec_tag_handles()[0].0@ == "!!"@,
            r.spec_tag_handles()[0].1@ == "tag:yaml.org,2002:"@,
            r.spec_tag_handles()[1].0@ == "!"@,
            r.spec_tag_handles()[1].1@ == "tag:yaml.org,2002:str tag:yaml.org,2002:seq tag:yaml.org,2002:map"@,
            r.spec_tag_handles()[2].0@ == ""@,
            r.spec_tag_handles()[2].1@ == ""@,
    {
        let mut tag_handles: Vec<(String, String)> = Vec::with_capacity(3);
        tag_handles.push(("!!".to_owned(), "tag:yaml.org,2002:".to_owned()));
        tag_handles.push(
            ("!".to_owned(), "tag:yaml.org,2002:str tag:yaml.org,2002:seq tag:yaml.org,2002:map".to_owned()),
        );
        tag_handles.push(("".to_owned(), "".to_owned()));
        Core { styles: CommonStyles::default(), tag_handles }
    }

    pub fn get_common_styles(&self) -> (r: CommonStyles)
        ensures
            r == self.spec_styles(),
    {
        self.styles
    }

    /// The YAML version the schema follows: 1.2.
    pub fn get_yaml_version(&self) -> (r: (u8, u8))
        ensures
            r == (1u8, 2u8),
    {
        (1, 2)
    }

    pub fn get_tag_handles(&self) -> (r: &[(String, String)])
        ensures
            r@ == self.spec_tag_handles(),
    {
        self.tag_handles.as_slice()
    }

    /// The model of a tag: the first in lookup order whose tag it is.
    pub fn look_up_model(&self, tag: &str) -> (r: Option<CoreModel>)
        ensures
            r == model_of_tag_from(tag.spec_bytes(), 0),
    {
        let t = tag.as_bytes();
        let models: [CoreModel; 17] = [
            CoreModel::Mapping,
            CoreModel::Unordered,
            CoreModel::Pairs,
            CoreModel::Sequence,
            CoreModel::Omap,
            CoreModel::Null,
            CoreModel::Bool,
            CoreModel::Int,
            CoreModel::Float,
            CoreModel::Str,
            CoreModel::Merge,
            CoreModel::Value,
            CoreModel::Yaml,
            CoreModel::Timestamp,
            CoreModel::Binary,
            CoreModel::Literal,
            CoreModel::Incognitum,
        ];
        assert(models@ =~= core_models());
        let mut i: usize = 0;
        while i < 17
            invariant
                i <= 17,
                models@ == core_models(),
                t@ == tag.spec_bytes(),
                model_of_tag_from(tag.spec_bytes(), 0) == model_of_tag_from(tag.spec_bytes(), i as int),
            decreases 17 - i,
        {
            let m = models[i];
            let name = model_tag(m);
            if bytes_equal(t, name.as_bytes()) {
                return Some(m);
            }
            i = i + 1;
        }
        None
    }

    /// The first model, in lookup order, that `predicate` picks.
    pub fn look_up_model_callback<F: Fn(CoreModel) -> bool>(&self, predicate: F) -> (r: Option<CoreModel>)
        requires
            forall|m: CoreModel| #[trigger] predicate.requires((m,)),
        ensures
            match r {
                Some(m) => core_models().contains(m) && predicate.ensures((m,), true) && exists|k: int|
                    0 <= k < core_models().len() && core_models()[k] == m && forall|j: int|
                        0 <= j < k ==> #[trigger] predicate.ensures((core_models()[j],), false),
                None => forall|j: int| 0 <= j < core_models().len() ==> #[trigger] predicate.ensures((core_models()[j],), false),
            },
    {
        let models: [CoreModel; 17] = [
            CoreModel::Mapping,
            CoreModel::Unordered,
            CoreModel::Pairs,
            CoreModel::Sequence,
            CoreModel::Omap,
            CoreModel::Null,
            CoreModel::Bool,
            CoreModel::Int,
            CoreModel::Float,
            CoreModel::Str,
            CoreModel::Merge,
            CoreModel::Value,
            CoreModel::Yaml,
            CoreModel::Timestamp,
            CoreModel::Binary,
            CoreModel::Literal,
            CoreModel::Incognitum,
        ];
        assert(models@ =~= core_models());
        let mut i: usize = 0;
        while i < 17
            invariant
                i <= 17,
                models@ == core_models(),
                forall|m: CoreModel| #[trigger] predicate.requires((m,)),
                forall|j: int| 0 <= j < i ==> #[trigger] predicate.ensures((core_models()[j],), false),
            decreases 17 - i,
        {
            let m = models[i];
            if predicate(m) {
                assert(core_models()[i as int] == m);
                return Some(m);
            }
            i = i + 1;
        }
        None
    }

    /// The model of values whose tag is unknown.
    pub fn get_metamodel(&self) -> (r: Option<CoreModel>)
        ensures
            r == Some(CoreModel::Incognitum),
    {
        Some(CoreModel::Incognitum)
    }

    pub fn get_model_literal(&self) -> (r: Literal) {
        Literal
    }

    pub fn get_model_null(&self) -> (r: Null) {
        Null
    }

    pub fn get_tag_model_map(&self) -> (r: &'static str)
        ensures
            r == MAP_TAG,
    {
        MAP_TAG
    }

    pub fn get_tag_model_seq(&self) -> (r: &'static str)
        ensures
            r == sequence::TAG,
    {
        sequence::TAG
    }

    /// Reads a plain scalar as YAML 1.2 does without a tag: as null, a
    /// boolean, an integer, a float, a string, or a value of an unknown tag,
    /// the first that reads it (see `implicit_value`).
    pub fn try_decodable_models(&self, value: &[u8]) -> (r: Option<TaggedValue>)
        ensures
            implicit_value(value@, false, r),
    {
        if let Ok(v) = Null.decode(false, value) {
            Some(v)
        } else if let Ok(v) = Bool.decode(false, value) {
            Some(v)
        } else if let Ok(v) = Int.decode(false, value) {
            Some(v)
        } else if let Ok(v) = Float.decode(false, value) {
            Some(v)
        } else if let Ok(v) = Str.decode(false, value) {
            Some(v)
        } else if let Ok(v) = Incognitum.decode(false, value) {
            Some(v)
        } else {
            None
        }
    }

    /// Reads a plain scalar as YAML 1.1 does without a tag (see
    /// `implicit_value`).
    pub fn try_decodable_models_11(&self, value: &[u8]) -> (r: Option<TaggedValue>)
        ensures
            implicit_value(value@, true, r),
    {
        if let Ok(v) = Null.decode(false, value) {
            Some(v)
        } else if let Ok(v) = Bool.decode11(false, value) {
            Some(v)
        } else if let Ok(v) = Int.decode11(false, value) {
            Some(v)
        } else if let Ok(v) = Float.decode11(false, value) {
            Some(v)
        } else if let Ok(v) = Str.decode(false, value) {
            Some(v)
        } else if let Ok(v) = Incognitum.decode(false, value) {
            Some(v)
        } else {
            None
        }
    }
}

/// The tag of a model.
pub fn model_tag(m: CoreModel) -> (r: &'static str)
    ensures
        r == core_model_tag(m),
{
    match m {
        CoreModel::Mapping => MAP_TAG,
        CoreModel::Unordered => SET_TAG,
        CoreModel::Pairs => PAIRS_TAG,
        CoreModel::Sequence => sequence::TAG,
        CoreModel::Omap => omap::TAG,
        CoreModel::Null => crate::model::yaml::null::TAG,
        CoreModel::Bool => crate::model::yaml::bool::TAG,
        CoreModel::Int => crate::model::yaml::integer::TAG,
        CoreModel::Float => crate::model::yaml::float::TAG,
        CoreModel::Str => crate::model::yaml::str::TAG,
        CoreModel::Merge => merge::TAG,
        CoreModel::Value => value::TAG,
        CoreModel::Yaml => yaml::TAG,
        CoreModel::Timestamp => timestamp::TAG,
        CoreModel::Binary => binary::TAG,
        CoreModel::Literal => literal::TAG,
        CoreModel::Incognitum => incognitum::TAG,
    }
}

} // verus!
