//! `!!omap`: ordered maps, written as a sequence of one-pair maps.
use vstd::prelude::*;

use crate::model::style::CommonStyles;
use crate::model::{Model, Tagged};

verus! {

pub const TAG: &'static str = "tag:yaml.org,2002:omap";

/// The ordered map model.
#[derive(Clone, Copy)]
pub struct Omap;

impl Omap {
    pub fn get_tag() -> (r: &'static str)
        ensures
            r == TAG,
    {
        TAG
    }
}

impl Model for Omap {
    fn is_metamodel(&self) -> (r: bool) {
        false
    }

    fn is_decodable(&self) -> (r: bool) {
        false
    }

    fn is_encodable(&self) -> (r: bool) {
        false
    }

    fn has_default(&self) -> (r: bool) {
        false
    }

    fn is_dictionary(&self) -> (r: bool) {
        false
    }

    open spec fn spec_tag(&self) -> &'static str {
        TAG
    }

    fn get_tag(&self) -> (r: &'static str) {
        TAG
    }

    /// An ordered map is written as a sequence.
    open spec fn spec_is_sequence(&self) -> bool {
        true
    }

    fn is_sequence(&self) -> (r: bool)
        ensures
            r,
    {
        true
    }
}

/// An ordered map's own value: its styles and its anchor; its pairs are
/// played after it.
#[derive(Debug)]
pub struct OmapValue {
    styles: CommonStyles,
    alias: Option<String>,
}

impl OmapValue {
    pub closed spec fn spec_styles(&self) -> CommonStyles {
        self.styles
    }

    pub closed spec fn spec_alias(&self) -> Option<String> {
        self.alias
    }

    pub fn new(styles: CommonStyles, alias: Option<String>) -> (r: OmapValue)
        ensures
            r.spec_styles() == styles,
            r.spec_alias() == alias,
    {
        OmapValue { styles, alias }
    }

    pub fn take_alias(&mut self) -> (r: Option<String>)
        ensures
            r == old(self).spec_alias(),
            final(self).spec_alias() is None,
            final(self).spec_styles() == old(self).spec_styles(),
    {
        self.alias.take()
    }

    pub fn styles(&self) -> (r: CommonStyles)
        ensures
            r == self.spec_styles(),
    {
        self.styles
    }
}

impl Tagged for OmapValue {
    open spec fn spec_tag(&self) -> &'static str {
        TAG
    }

    fn get_tag(&self) -> (r: &'static str) {
        TAG
    }
}

} // verus!
