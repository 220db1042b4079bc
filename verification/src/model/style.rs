//! Presentation styles: the flags that every value carries, and the style
//! objects that set them.
use vstd::prelude::*;

use crate::model::tagged_value::TaggedValue;

verus! {

/// A presentation setting that can be applied to the common styles of a
/// value, or to the value itself.
pub trait Style {
    /// Whether applying the style turns the value `from` into `to`; by
    /// default, a style leaves values as they are.
    open spec fn tagged_applied(&self, from: TaggedValue, to: TaggedValue) -> bool {
        to == from
    }

    /// Whether applying the style turns the common styles `from` into
    /// `to`; by default, a style leaves them as they are.
    open spec fn common_applied(&self, from: CommonStyles, to: CommonStyles) -> bool {
        to == from
    }

    fn common_styles_apply(&mut self, styles: &mut CommonStyles)
        ensures
            old(self).common_applied(*old(styles), *final(styles)),
    ;

    fn tagged_styles_apply(&mut self, value: &mut TaggedValue)
        ensures
            old(self).tagged_applied(*old(value), *final(value)),
    ;
}

/// The presentation flags and sizes that every value carries.
#[derive(Copy, Clone, Debug)]
pub struct CommonStyles {
    indent: u8,
    threshold: u8,
    params: u16,
}

pub open spec fn has_bits(params: u16, val: u16) -> bool {
    params & val == val
}

impl CommonStyles {
    /// The indentation width and the line length threshold are never zero:
    /// they start above zero and setting zero leaves them as they are.
    #[verifier::type_invariant]
    spec fn sizes_positive(self) -> bool {
        self.indent >= 1 && self.threshold >= 1
    }

    pub closed spec fn spec_params(self) -> u16 {
        self.params
    }

    pub closed spec fn spec_indent(self) -> u8 {
        self.indent
    }

    pub closed spec fn spec_threshold(self) -> u8 {
        self.threshold
    }

    pub open spec fn spec_flow(self) -> bool {
        has_bits(self.spec_params(), 1)
    }

    pub open spec fn spec_compact(self) -> bool {
        has_bits(self.spec_params(), 2)
    }

    pub open spec fn spec_respect_threshold(self) -> bool {
        has_bits(self.spec_params(), 4)
    }

    pub open spec fn spec_multiline(self) -> bool {
        has_bits(self.spec_params(), 8)
    }

    pub open spec fn spec_issue_tag(self) -> bool {
        has_bits(self.spec_params(), 16)
    }

    /// Everything of `self` but the flag `bit` is as in `other`.
    pub open spec fn same_except(self, other: CommonStyles, bit: u16) -> bool {
        &&& self.spec_indent() == other.spec_indent()
        &&& self.spec_threshold() == other.spec_threshold()
        &&& self.spec_params() & !bit == other.spec_params() & !bit
    }

    fn _on(&mut self, val: u16)
        ensures
            final(self).spec_params() == old(self).spec_params() | val,
            final(self).spec_indent() == old(self).spec_indent(),
            final(self).spec_threshold() == old(self).spec_threshold(),
    {
        proof {
            use_type_invariant(&*self);
        }
        self.params = self.params | val;
    }

    fn _off(&mut self, val: u16)
        ensures
            final(self).spec_params() == old(self).spec_params() & !val,
            final(self).spec_indent() == old(self).spec_indent(),
            final(self).spec_threshold() == old(self).spec_threshold(),
    {
        proof {
            use_type_invariant(&*self);
        }
        self.params = self.params & !val;
    }

    fn _set(&mut self, val: u16, onoff: bool)
        requires
            val == 1 || val == 2 || val == 4 || val == 8 || val == 16,
        ensures
            has_bits(final(self).spec_params(), val) == onoff,
            final(self).same_except(*old(self), val),
    {
        let ghost p = self.params;
        if onoff {
            self._on(val);
            assert((p | val) & val == val && (p | val) & !val == p & !val) by (bit_vector)
                requires
                    val == 1 || val == 2 || val == 4 || val == 8 || val == 16,
            ;
        } else {
            self._off(val);
            assert((p & !val) & val != val && (p & !val) & !val == p & !val) by (bit_vector)
                requires
                    val == 1 || val == 2 || val == 4 || val == 8 || val == 16,
            ;
        }
    }

    fn _is(&self, val: u16) -> (r: bool)
        ensures
            r == has_bits(self.spec_params(), val),
    {
        self.params & val == val
    }

    /// Whether collections are written in flow style.
    pub fn flow(&self) -> (r: bool)
        ensures
            r == self.spec_flow(),
    {
        self._is(1)
    }

    pub fn set_flow(&mut self, val: bool)
        ensures
            final(self).spec_flow() == val,
            final(self).same_except(*old(self), 1),
    {
        self._set(1, val);
    }

    /// Whether collections are written compactly.
    pub fn compact(&self) -> (r: bool)
        ensures
            r == self.spec_compact(),
    {
        self._is(2)
    }

    pub fn set_compact(&mut self, val: bool)
        ensures
            final(self).spec_compact() == val,
            final(self).same_except(*old(self), 2),
    {
        self._set(2, val)
    }

    /// Whether the line length threshold is respected.
    pub fn respect_threshold(&self) -> (r: bool)
        ensures
            r == self.spec_respect_threshold(),
    {
        self._is(4)
    }

    pub fn set_respect_threshold(&mut self, val: bool)
        ensures
            final(self).spec_respect_threshold() == val,
            final(self).same_except(*old(self), 4),
    {
        self._set(4, val)
    }

    /// Whether values may span several lines.
    pub fn multiline(&self) -> (r: bool)
        ensures
            r == self.spec_multiline(),
    {
        self._is(8)
    }

    pub fn set_multiline(&mut self, val: bool)
        ensures
            final(self).spec_multiline() == val,
            final(self).same_except(*old(self), 8),
    {
        self._set(8, val)
    }

    /// Whether the tag of a value is written out.
    pub fn issue_tag(&self) -> (r: bool)
        ensures
            r == self.spec_issue_tag(),
    {
        self._is(16)
    }

    pub fn set_issue_tag(&mut self, val: bool)
        ensures
            final(self).spec_issue_tag() == val,
            final(self).same_except(*old(self), 16),
    {
        self._set(16, val)
    }

    /// The indentation width.
    pub fn indent(&self) -> (r: u8)
        ensures
            r == self.spec_indent(),
            r >= 1,
    {
        proof {
            use_type_invariant(self);
        }
        self.indent
    }

    /// Sets the indentation width; zero leaves it unchanged.
    pub fn set_indent(&mut self, value: u8)
        ensures
            final(self).spec_indent() == (if value > 0 { value } else { old(self).spec_indent() }),
            final(self).spec_threshold() == old(self).spec_threshold(),
            final(self).spec_params() == old(self).spec_params(),
    {
        proof {
            use_type_invariant(&*self);
        }
        if value > 0 {
            self.indent = value;
        }
    }

    /// The line length threshold.
    pub fn threshold(&self) -> (r: u8)
        ensures
            r == self.spec_threshold(),
            r >= 1,
    {
        proof {
            use_type_invariant(self);
        }
        self.threshold
    }

    /// Sets the line length threshold; zero leaves it unchanged.
    pub fn set_threshold(&mut self, value: u8)
        ensures
            final(self).spec_threshold() == (if value > 0 { value } else { old(self).spec_threshold() }),
            final(self).spec_indent() == old(self).spec_indent(),
            final(self).spec_params() == old(self).spec_params(),
    {
        proof {
            use_type_invariant(&*self);
        }
        if value > 0 {
            self.threshold = value;
        }
    }
}

impl Default for CommonStyles {
    /// No flag set, indentation 2, threshold 120.
    fn default() -> (r: CommonStyles)
        ensures
            r.spec_params() == 0,
            r.spec_indent() == 2,
            r.spec_threshold() == 120,
    {
        CommonStyles { params: 0, indent: 2, threshold: 120 }
    }
}

/// Sets the indentation width.
pub struct Indent(pub u8);

impl Style for Indent {
    open spec fn common_applied(&self, from: CommonStyles, to: CommonStyles) -> bool {
        (to.spec_indent() == (if self.0 > 0 { self.0 } else { from.spec_indent() }))
        && (to.spec_threshold() == from.spec_threshold())
        && (to.spec_params() == from.spec_params())
    }

    fn tagged_styles_apply(&mut self, value: &mut TaggedValue) {
    }

    fn common_styles_apply(&mut self, style: &mut CommonStyles)
        ensures
            final(style).spec_indent() == (if old(self).0 > 0 { old(self).0 } else { old(style).spec_indent() }),
            final(style).spec_threshold() == old(style).spec_threshold(),
            final(style).spec_params() == old(style).spec_params(),
    {
        style.set_indent(self.0)
    }
}

/// Sets the line length threshold.
pub struct Threshold(pub u8);

impl Style for Threshold {
    open spec fn common_applied(&self, from: CommonStyles, to: CommonStyles) -> bool {
        (to.spec_threshold() == (if self.0 > 0 { self.0 } else { from.spec_threshold() }))
        && (to.spec_indent() == from.spec_indent())
        && (to.spec_params() == from.spec_params())
    }

    fn tagged_styles_apply(&mut self, value: &mut TaggedValue) {
    }

    fn common_styles_apply(&mut self, style: &mut CommonStyles)
        ensures
            final(style).spec_threshold() == (if old(self).0 > 0 { old(self).0 } else { old(style).spec_threshold() }),
            final(style).spec_indent() == old(style).spec_indent(),
            final(style).spec_params() == old(style).spec_params(),
    {
        style.set_threshold(self.0)
    }
}

/// Turns flow style on or off.
pub struct Flow(pub bool);

impl Style for Flow {
    open spec fn common_applied(&self, from: CommonStyles, to: CommonStyles) -> bool {
        (to.spec_flow() == self.0)
        && (to.same_except(from, 1))
    }

    fn tagged_styles_apply(&mut self, value: &mut TaggedValue) {
    }

    fn common_styles_apply(&mut self, style: &mut CommonStyles)
        ensures
            final(style).spec_flow() == old(self).0,
            final(style).same_except(*old(style), 1),
    {
        style.set_flow(self.0)
    }
}

/// Turns compact style on or off.
pub struct Compact(pub bool);

impl Style for Compact {
    open spec fn common_applied(&self, from: CommonStyles, to: CommonStyles) -> bool {
        (to.spec_compact() == self.0)
        && (to.same_except(from, 2))
    }

    fn tagged_styles_apply(&mut self, value: &mut TaggedValue) {
    }

    fn common_styles_apply(&mut self, style: &mut CommonStyles)
        ensures
            final(style).spec_compact() == old(self).0,
            final(style).same_except(*old(style), 2),
    {
        style.set_compact(self.0)
    }
}

/// Turns respecting the threshold on or off.
pub struct RespectThreshold(pub bool);

impl Style for RespectThreshold {
    open spec fn common_applied(&self, from: CommonStyles, to: CommonStyles) -> bool {
        (to.spec_respect_threshold() == self.0)
        && (to.same_except(from, 4))
    }

    fn tagged_styles_apply(&mut self, value: &mut TaggedValue) {
    }

    fn common_styles_apply(&mut self, style: &mut CommonStyles)
        ensures
            final(style).spec_respect_threshold() == old(self).0,
            final(style).same_except(*old(style), 4),
    {
        style.set_respect_threshold(self.0)
    }
}

/// Turns multiline values on or off.
pub struct Multiline(pub bool);

impl Style for Multiline {
    open spec fn common_applied(&self, from: CommonStyles, to: CommonStyles) -> bool {
        (to.spec_multiline() == self.0)
        && (to.same_except(from, 8))
    }

    fn tagged_styles_apply(&mut self, value: &mut TaggedValue) {
    }

    fn common_styles_apply(&mut self, style: &mut CommonStyles)
        ensures
            final(style).spec_multiline() == old(self).0,
            final(style).same_except(*old(style), 8),
    {
        style.set_multiline(self.0)
    }
}

/// Turns writing out tags on or off.
pub struct IssueTag(pub bool);

impl Style for IssueTag {
    open spec fn common_applied(&self, from: CommonStyles, to: CommonStyles) -> bool {
        (to.spec_issue_tag() == self.0)
        && (to.same_except(from, 16))
    }

    fn tagged_styles_apply(&mut self, value: &mut TaggedValue) {
    }

    fn common_styles_apply(&mut self, style: &mut CommonStyles)
        ensures
            final(style).spec_issue_tag() == old(self).0,
            final(style).same_except(*old(style), 16),
    {
        style.set_issue_tag(self.0)
    }
}

} // verus!
