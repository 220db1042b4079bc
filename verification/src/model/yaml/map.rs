//! `!!map`: mappings, written in block style (one `key: value` per line) or
//! in flow style (in curly brackets). The keys and values come in turn, a
//! key at each even place, its value after it.
use vstd::prelude::*;
use vstd::string::StringSliceAdditionalSpecFns;

use crate::model::renderer::{node_indent_of, node_with_indent, spec_is_flow_opening, Node, Renderer};
use crate::model::rope::{indent_fits, line_scan, line_scan_rev, nodes_bytes, nodes_indented, nodes_multiline, Rope};
use crate::model::rope::lemma_line_scan_bound;
use crate::model::style::CommonStyles;
use crate::model::yaml::sequence::{
    collection_prefix, items_bytes_fit, lemma_prefix_bytes, prefix_count, prefix_text_fits, push_prefix, rope_views,
};
use crate::model::{Model, Tagged, TaggedValue};

verus! {

pub const TAG: &'static str = "tag:yaml.org,2002:map";

/// The mapping model.
#[derive(Clone, Copy)]
pub struct Mapping;

/// A mapping's own value: its styles and its anchor; its keys and values
/// are played after it.
#[derive(Debug)]
pub struct MapValue {
    styles: CommonStyles,
    alias: Option<String>,
}

impl MapValue {
    pub closed spec fn spec_styles(&self) -> CommonStyles {
        self.styles
    }

    pub closed spec fn spec_alias(&self) -> Option<String> {
        self.alias
    }

    pub fn new(styles: CommonStyles, alias: Option<String>) -> (r: MapValue)
        ensures
            r.spec_styles() == styles,
            r.spec_alias() == alias,
    {
        MapValue { styles, alias }
    }

    pub fn take_alias(&mut self) -> (r: Option<String>)
        ensures
            r == old(self).spec_alias(),
            final(self).spec_alias() is None,
            final(self).spec_styles() == old(self).spec_styles(),
    {
        self.alias.take()
    }

    pub fn styles(&self) -> (r: CommonStyles)
        ensures
            r == self.spec_styles(),
    {
        self.styles
    }
}

impl Tagged for MapValue {
    open spec fn spec_tag(&self) -> &'static str {
        TAG
    }

    fn get_tag(&self) -> (r: &'static str) {
        TAG
    }
}

/// The place of the key of the last full pair: two before the end, or the
/// first place where there are fewer than two items.
pub open spec fn penult(n: int) -> int {
    if n < 2 {
        0
    } else {
        n - 2
    }
}

/// Whether the nodes open a flow collection or a quoted string.
pub open spec fn opens_flow(c: Seq<Node>) -> bool {
    c.len() > 0 && spec_is_flow_opening(c[0])
}

/// A pair in flow style: compact (mode 0), on one line (1) or on lines of
/// its own (2). The key is indented and followed by a colon and a space,
/// then its value (indented, but on separate lines), then, but after the
/// last pair, a comma (and a space, or a new indented line); after the last
/// pair, a space (not compact) or a new unindented line (separate lines). A
/// key without a value ends with a colon (and a line break, on separate
/// lines).
pub open spec fn pair_part(cs: Seq<Seq<Node>>, i: int, indent: usize, mode: int) -> Seq<Node> {
    let n = cs.len() as int;
    let key = nodes_indented(cs[i], indent);
    if i == n - 1 {
        key + seq![if mode == 2 { Node::ColonNewline } else { Node::Colon }]
    } else {
        let val = if mode == 2 { cs[i + 1] } else { nodes_indented(cs[i + 1], indent) };
        let sep = if mode == 2 {
            if i == penult(n) { seq![Node::NewlineIndent(0)] } else { seq![Node::CommaNewlineIndent(indent)] }
        } else if i != penult(n) {
            if mode == 0 { seq![Node::Comma] } else { seq![Node::CommaSpace] }
        } else if mode == 1 {
            seq![Node::Space]
        } else {
            Seq::empty()
        };
        key + seq![Node::ColonSpace] + val + sep
    }
}

/// The first `k` pairs in a flow style (see `pair_part`).
pub open spec fn map_pairs(cs: Seq<Seq<Node>>, k: int, indent: usize, mode: int) -> Seq<Node>
    decreases k,
{
    if k <= 0 {
        Seq::empty()
    } else {
        map_pairs(cs, k - 1, indent, mode) + pair_part(cs, 2 * (k - 1), indent, mode)
    }
}

/// How many pairs `n` items make: the last key may lack a value.
pub open spec fn pair_count(n: int) -> int {
    n / 2 + n % 2
}

/// Whether the items that a flow style indents can be indented: every key,
/// and the values but on separate lines.
pub open spec fn pairs_indent_fit(cs: Seq<Seq<Node>>, indent: usize, values: bool) -> bool {
    forall|i: int| 0 <= i < cs.len() && (i % 2 == 0 || values) ==> #[trigger] indent_fits(cs[i], indent)
}

/// Knits the pair whose key is at `i` (see `pair_part`); its items are left
/// empty.
fn knit_pair(rope: &mut Rope, children: &mut Vec<Rope>, i: usize, indent: usize, mode: u8)
    requires
        i < old(children)@.len(),
        i % 2 == 0,
        pairs_indent_fit(rope_views(old(children)@), indent, mode != 2),
        mode <= 2,
    ensures
        final(rope)@ == old(rope)@ + pair_part(rope_views(old(children)@), i as int, indent, mode as int),
        final(children)@.len() == old(children)@.len(),
        forall|j: int| 0 <= j < old(children)@.len() && j != i && j != i + 1 ==> (#[trigger] final(children)@[j]) == old(children)@[j],
        (final(children)@[i as int])@ == Seq::<Node>::empty(),
        i + 1 < old(children)@.len() ==> (final(children)@[i + 1])@ == Seq::<Node>::empty(),
{
    let ghost cs = rope_views(children@);
    let ghost base = rope@;
    let n = children.len();
    let pen: usize = if n < 2 { 0 } else { n - 2 };
    assert(indent_fits(cs[i as int], indent));
    {
        let key: &mut Rope = &mut children[i];
        key.indent(indent);
        rope.knit(key);
    }
    if i + 1 == n {
        if mode == 2 {
            rope.push(Node::ColonNewline);
        } else {
            rope.push(Node::Colon);
        }
    } else {
        rope.push(Node::ColonSpace);
        {
            let val: &mut Rope = &mut children[i + 1];
            if mode != 2 {
                assert(indent_fits(cs[i + 1], indent));
                val.indent(indent);
            }
            rope.knit(val);
        }
        if mode == 2 {
            if i == pen {
                rope.push(Node::NewlineIndent(0));
            } else {
                rope.push(Node::CommaNewlineIndent(indent));
            }
        } else if i != pen {
            if mode == 0 {
                rope.push(Node::Comma);
            } else {
                rope.push(Node::CommaSpace);
            }
        } else if mode == 1 {
            rope.push(Node::Space);
        }
    }
    proof {
        assert(rope@ =~= base + pair_part(cs, i as int, indent, mode as int));
    }
}

/// Knits the pairs after `rope` in a flow style (see `map_pairs`); the items
/// are left empty.
fn knit_pairs(rope: &mut Rope, children: &mut Vec<Rope>, indent: usize, mode: u8)
    requires
        pairs_indent_fit(rope_views(old(children)@), indent, mode != 2),
        mode <= 2,
    ensures
        final(rope)@ == old(rope)@ + map_pairs(
            rope_views(old(children)@),
            pair_count(old(children)@.len() as int),
            indent,
            mode as int,
        ),
        final(children)@.len() == old(children)@.len(),
        forall|i: int| 0 <= i < final(children)@.len() ==> (#[trigger] final(children)@[i])@ == Seq::<Node>::empty(),
{
    let ghost cs = rope_views(children@);
    let ghost base = rope@;
    let n = children.len();
    let pairs = n / 2 + n % 2;
    let mut k: usize = 0;
    while k < pairs
        invariant
            n == children@.len(),
            cs.len() == n,
            pairs == pair_count(n as int),
            k <= pairs,
            mode <= 2,
            pairs_indent_fit(cs, indent, mode != 2),
            forall|j: int| 2 * k <= j < n ==> (#[trigger] children@[j])@ == cs[j],
            forall|j: int| 0 <= j < 2 * k && j < n ==> (#[trigger] children@[j])@ == Seq::<Node>::empty(),
            rope@ == base + map_pairs(cs, k as int, indent, mode as int),
        decreases pairs - k,
    {
        let i = 2 * k;
        proof {
            assert forall|j: int| 0 <= j < n && (j % 2 == 0 || mode != 2) implies #[trigger] indent_fits(rope_views(children@)[j], indent) by {
                if j >= i {
                    assert(rope_views(children@)[j] == cs[j]);
                } else {
                    assert(rope_views(children@)[j] == Seq::<Node>::empty());
                }
            }
        }
        let ghost before = children@;
        knit_pair(rope, children, i, indent, mode);
        proof {
            assert(rope_views(before)[i as int] == cs[i as int]);
            if i + 1 < n {
                assert(rope_views(before)[i + 1] == cs[i + 1]);
            }
            assert(pair_part(rope_views(before), i as int, indent, mode as int) == pair_part(cs, i as int, indent, mode as int));
            assert(rope@ =~= base + map_pairs(cs, k + 1, indent, mode as int));
        }
        k = k + 1;
    }
    proof {
        assert(2 * k >= n);
    }
}

/// Whether some key spreads over several lines without opening a flow
/// collection: then, in block style, every key is marked with a question
/// mark.
pub open spec fn questioned(cs: Seq<Seq<Node>>) -> bool {
    exists|i: int| 0 <= i < cs.len() && i % 2 == 0 && #[trigger] nodes_multiline(cs[i]) && !opens_flow(cs[i])
}

/// Whether the items spread over several lines without opening a flow
/// collection: block style puts them on lines of their own, indented.
pub open spec fn spreads(c: Seq<Node>) -> bool {
    nodes_multiline(c) && !opens_flow(c)
}

/// A key in block style. Where keys are marked (`q`), a key that spreads
/// comes after a question mark on a line of its own, indented, and any
/// other after a question mark and a space; a marked key that spans lines
/// in flow style is followed by a line break.
pub open spec fn block_key_part(key: Seq<Node>, indent: usize, q: bool) -> Seq<Node> {
    let kq = if q {
        if spreads(key) { seq![Node::QuestionNewlineIndent(indent)] + nodes_indented(key, indent) } else { seq![Node::QuestionSpace] + key }
    } else {
        key
    };
    if q && nodes_multiline(key) && opens_flow(key) { kq + seq![Node::Newline] } else { kq }
}

/// What follows a key in block style: a value that spreads comes on lines
/// of its own after a colon, indented; any other after a colon and a space,
/// and a line break (unindented after the last pair). A key without a value
/// ends with a colon and a line break.
pub open spec fn block_value_part(cs: Seq<Seq<Node>>, i: int, indent: usize) -> Seq<Node> {
    let n = cs.len() as int;
    if i == n - 1 {
        seq![Node::ColonNewline]
    } else {
        let val = cs[i + 1];
        if spreads(val) {
            seq![Node::ColonNewlineIndent(indent)] + nodes_indented(val, indent)
        } else {
            seq![Node::ColonSpace] + val + (if i == penult(n) { seq![Node::Newline] } else { seq![Node::NewlineIndent(0)] })
        }
    }
}

/// In block style a value that spreads over lines comes after the colon on
/// lines of its own: each of its nodes in turn, the same node but that
/// every indentation it carries has grown by the style's indent. So no line
/// of the value starts left of `indent`, and its keys stay under the key it
/// belongs to.
pub proof fn law_block_value_indented(cs: Seq<Seq<Node>>, i: int, indent: usize)
    requires
        0 <= i < cs.len() - 1,
        spreads(cs[i + 1]),
        indent_fits(cs[i + 1], indent),
    ensures
        ({
            let part = block_value_part(cs, i, indent);
            let val = cs[i + 1];
            &&& part.len() == val.len() + 1
            &&& part[0] == Node::ColonNewlineIndent(indent)
            &&& forall|k: int|
                0 <= k < val.len() ==> node_with_indent(#[trigger] part[k + 1], 0) == node_with_indent(val[k], 0)
            &&& forall|k: int|
                0 <= k < val.len() ==> match node_indent_of(val[k]) {
                    Some(sz) => node_indent_of(#[trigger] part[k + 1]) == Some((sz + indent) as usize),
                    None => part[k + 1] == val[k],
                }
            &&& forall|k: int|
                0 <= k < part.len() ==> (node_indent_of(#[trigger] part[k]) matches Some(sz) ==> sz >= indent)
        }),
{
    let part = block_value_part(cs, i, indent);
    let val = cs[i + 1];
    assert(part =~= seq![Node::ColonNewlineIndent(indent)] + nodes_indented(val, indent));
    assert forall|k: int| 0 <= k < val.len() implies {
        &&& node_with_indent(#[trigger] part[k + 1], 0) == node_with_indent(val[k], 0)
        &&& match node_indent_of(val[k]) {
            Some(sz) => node_indent_of(part[k + 1]) == Some((sz + indent) as usize),
            None => part[k + 1] == val[k],
        }
        &&& node_indent_of(part[k + 1]) matches Some(sz) ==> sz >= indent
    } by {
        assert(part[k + 1] == crate::model::renderer::node_indented(val[k], indent));
        assert(node_indent_of(val[k]) matches Some(size) ==> size + indent <= usize::MAX);
    }
    assert forall|k: int| 0 <= k < part.len() implies (node_indent_of(#[trigger] part[k]) matches Some(sz) ==> sz >= indent) by {
        if k > 0 {
            assert(part[(k - 1) + 1] == part[k]);
        }
    }
}

/// A pair in block style: its key, then its value.
pub open spec fn block_part(cs: Seq<Seq<Node>>, i: int, indent: usize, q: bool) -> Seq<Node> {
    block_key_part(cs[i], indent, q) + block_value_part(cs, i, indent)
}

/// The first `k` pairs in block style (see `block_part`).
pub open spec fn block_pairs(cs: Seq<Seq<Node>>, k: int, indent: usize, q: bool) -> Seq<Node>
    decreases k,
{
    if k <= 0 {
        Seq::empty()
    } else {
        block_pairs(cs, k - 1, indent, q) + block_part(cs, 2 * (k - 1), indent, q)
    }
}

/// Whether the items that block style indents can be indented.
pub open spec fn block_indent_fit(cs: Seq<Seq<Node>>, indent: usize) -> bool {
    forall|i: int| 0 <= i < cs.len() && spreads(cs[i]) ==> #[trigger] indent_fits(cs[i], indent)
}

/// Whether some key spreads (see `questioned`).
fn find_questioned(children: &Vec<Rope>) -> (r: bool)
    ensures
        r == questioned(rope_views(children@)),
{
    let ghost cs = rope_views(children@);
    let n = children.len();
    let mut i: usize = 0;
    while i < n
        invariant
            n == children@.len(),
            cs == rope_views(children@),
            i <= n,
            i < n ==> i % 2 == 0,
            forall|j: int| 0 <= j < i && j % 2 == 0 ==> !(#[trigger] nodes_multiline(cs[j]) && !opens_flow(cs[j])),
        decreases n - i,
    {
        let key = &children[i];
        let is_multiline = key.is_multiline();
        let is_flow = key.is_flow_opening();
        if is_multiline && !is_flow {
            assert(nodes_multiline(cs[i as int]) && !opens_flow(cs[i as int]));
            return true;
        }
        if n - i < 2 {
            i = n;
        } else {
            i = i + 2;
        }
    }
    false
}

/// Knits a key in block style (see `block_key_part`); it is left empty.
fn knit_block_key(rope: &mut Rope, key: &mut Rope, indent: usize, questioned: bool)
    requires
        spreads(old(key)@) ==> indent_fits(old(key)@, indent),
    ensures
        final(rope)@ == old(rope)@ + block_key_part(old(key)@, indent, questioned),
        final(key)@ == Seq::<Node>::empty(),
{
    let ghost base = rope@;
    let ghost k0 = key@;
    let is_multiline = key.is_multiline();
    let is_flow = key.is_flow_opening();
    if questioned {
        if is_multiline && !is_flow {
            rope.push(Node::QuestionNewlineIndent(indent));
            key.indent(indent);
        } else {
            rope.push(Node::QuestionSpace);
        }
    }
    rope.knit(key);
    if questioned && is_multiline && is_flow {
        rope.push(Node::Newline);
    }
    proof {
        assert(rope@ =~= base + block_key_part(k0, indent, questioned));
    }
}

/// Knits what follows the key at `i` in block style (see
/// `block_value_part`); the value is left empty.
fn knit_block_value(rope: &mut Rope, children: &mut Vec<Rope>, i: usize, indent: usize)
    requires
        i < old(children)@.len(),
        block_indent_fit(rope_views(old(children)@), indent),
    ensures
        final(rope)@ == old(rope)@ + block_value_part(rope_views(old(children)@), i as int, indent),
        final(children)@.len() == old(children)@.len(),
        forall|j: int| 0 <= j < old(children)@.len() && j != i + 1 ==> (#[trigger] final(children)@[j]) == old(children)@[j],
        i + 1 < old(children)@.len() ==> (final(children)@[i + 1])@ == Seq::<Node>::empty(),
{
    let ghost cs = rope_views(children@);
    let ghost base = rope@;
    let n = children.len();
    let pen: usize = if n < 2 { 0 } else { n - 2 };
    if i + 1 == n {
        rope.push(Node::ColonNewline);
    } else {
        let val: &mut Rope = &mut children[i + 1];
        let is_multiline = val.is_multiline();
        let is_flow = val.is_flow_opening();
        if is_multiline && !is_flow {
            rope.push(Node::ColonNewlineIndent(indent));
            assert(indent_fits(cs[i + 1], indent));
            val.indent(indent);
            rope.knit(val);
        } else {
            rope.push(Node::ColonSpace);
            rope.knit(val);
            if i == pen {
                rope.push(Node::Newline);
            } else {
                rope.push(Node::NewlineIndent(0));
            }
        }
    }
    proof {
        assert(rope@ =~= base + block_value_part(cs, i as int, indent));
    }
}

/// Knits the pair whose key is at `i` in block style (see `block_part`);
/// its items are left empty.
fn knit_block_pair(rope: &mut Rope, children: &mut Vec<Rope>, i: usize, indent: usize, questioned: bool)
    requires
        i < old(children)@.len(),
        block_indent_fit(rope_views(old(children)@), indent),
    ensures
        final(rope)@ == old(rope)@ + block_part(rope_views(old(children)@), i as int, indent, questioned),
        final(children)@.len() == old(children)@.len(),
        forall|j: int| 0 <= j < old(children)@.len() && j != i && j != i + 1 ==> (#[trigger] final(children)@[j]) == old(children)@[j],
        (final(children)@[i as int])@ == Seq::<Node>::empty(),
        i + 1 < old(children)@.len() ==> (final(children)@[i + 1])@ == Seq::<Node>::empty(),
{
    let ghost cs = rope_views(children@);
    let ghost base = rope@;
    assert(cs[i as int] == children@[i as int]@);
    {
        let key: &mut Rope = &mut children[i];
        knit_block_key(rope, key, indent, questioned);
    }
    let ghost mid = rope@;
    proof {
        assert forall|j: int| 0 <= j < children@.len() && spreads(rope_views(children@)[j]) implies #[trigger] indent_fits(rope_views(children@)[j], indent) by {
            if j != i {
                assert(rope_views(children@)[j] == cs[j]);
            } else {
                assert(rope_views(children@)[j] == Seq::<Node>::empty());
            }
        }
        if i + 1 < children@.len() {
            assert(rope_views(children@)[i + 1] == cs[i + 1]);
        }
        assert(block_value_part(rope_views(children@), i as int, indent) == block_value_part(cs, i as int, indent));
    }
    knit_block_value(rope, children, i, indent);
    proof {
        assert(rope@ =~= base + block_part(cs, i as int, indent, questioned));
    }
}

/// Knits the pairs after `rope` in block style (see `block_pairs`); the
/// items are left empty.
fn knit_block_pairs(rope: &mut Rope, children: &mut Vec<Rope>, indent: usize)
    requires
        block_indent_fit(rope_views(old(children)@), indent),
    ensures
        final(rope)@ == old(rope)@ + block_pairs(
            rope_views(old(children)@),
            pair_count(old(children)@.len() as int),
            indent,
            questioned(rope_views(old(children)@)),
        ),
        final(children)@.len() == old(children)@.len(),
        forall|i: int| 0 <= i < final(children)@.len() ==> (#[trigger] final(children)@[i])@ == Seq::<Node>::empty(),
{
    let ghost cs = rope_views(children@);
    let ghost base = rope@;
    let q = find_questioned(children);
    let n = children.len();
    let pairs = n / 2 + n % 2;
    let mut k: usize = 0;
    while k < pairs
        invariant
            n == children@.len(),
            cs.len() == n,
            pairs == pair_count(n as int),
            k <= pairs,
            q == questioned(cs),
            block_indent_fit(cs, indent),
            forall|j: int| 2 * k <= j < n ==> (#[trigger] children@[j])@ == cs[j],
            forall|j: int| 0 <= j < 2 * k && j < n ==> (#[trigger] children@[j])@ == Seq::<Node>::empty(),
            rope@ == base + block_pairs(cs, k as int, indent, q),
        decreases pairs - k,
    {
        let i = 2 * k;
        proof {
            assert forall|j: int| 0 <= j < n && spreads(rope_views(children@)[j]) implies #[trigger] indent_fits(rope_views(children@)[j], indent) by {
                if j >= i {
                    assert(rope_views(children@)[j] == cs[j]);
                } else {
                    assert(rope_views(children@)[j] == Seq::<Node>::empty());
                }
            }
        }
        let ghost before = children@;
        knit_block_pair(rope, children, i, indent, q);
        proof {
            assert(rope_views(before)[i as int] == cs[i as int]);
            if i + 1 < n {
                assert(rope_views(before)[i + 1] == cs[i + 1]);
            }
            assert(block_part(rope_views(before), i as int, indent, q) == block_part(cs, i as int, indent, q));
            assert(rope@ =~= base + block_pairs(cs, k + 1, indent, q));
        }
        k = k + 1;
    }
}

/// A key in flow style within a line length threshold, after a line of
/// `len` bytes: the key (indented) grows the line by a space (unless
/// compact) and its first line; but for the first key, where the line would
/// grow beyond the threshold, a new line starts before the key, and a space
/// comes before it otherwise (unless compact). Gives the nodes and the
/// length of the line where they end.
pub open spec fn threshold_key(key: Seq<Node>, first: bool, compact: bool, threshold: int, len: int) -> (Seq<Node>, int) {
    let kf = line_scan(key).0 as int;
    let l1 = len + (if compact { 0int } else { 1int }) + kf;
    if first {
        (key, l1)
    } else if l1 > threshold {
        (seq![Node::NewlineIndent(0)] + key, if line_scan(key).1 { line_scan_rev(key).0 as int } else { kf })
    } else {
        ((if compact { Seq::<Node>::empty() } else { seq![Node::Space] }) + key, if line_scan(key).1 {
            line_scan_rev(key).0 as int
        } else {
            l1
        })
    }
}

/// A value in flow style within a line length threshold, after a line of
/// `len` bytes: a colon and a line break before it where the line, grown by
/// a colon, a space, its first line and a comma, would pass the threshold,
/// a colon and a space otherwise; after it a comma, or after the last pair
/// a space (unless compact).
pub open spec fn threshold_value(val: Seq<Node>, last: bool, compact: bool, threshold: int, len: int) -> (Seq<Node>, int) {
    let vf = line_scan(val).0 as int;
    let l3 = len + 3 + vf;
    let (sep, l4) = if l3 > threshold {
        (seq![Node::ColonNewline], if line_scan(val).1 { line_scan_rev(val).0 as int } else { vf })
    } else {
        (seq![Node::ColonSpace], if line_scan(val).1 { line_scan_rev(val).0 as int } else { l3 })
    };
    let tail = if !last { seq![Node::Comma] } else if !compact { seq![Node::Space] } else { Seq::<Node>::empty() };
    (sep + val + tail, l4)
}

/// The pair whose key is at `i` within a line length threshold (see
/// `threshold_key` and `threshold_value`); a key without a value is
/// followed by a colon.
pub open spec fn threshold_part(cs: Seq<Seq<Node>>, i: int, indent: usize, compact: bool, threshold: int, len: int) -> (Seq<Node>, int) {
    let n = cs.len() as int;
    let (kp, l2) = threshold_key(nodes_indented(cs[i], indent), i == 0, compact, threshold, len);
    if i == n - 1 {
        (kp + seq![Node::Colon], l2)
    } else {
        let (vp, l4) = threshold_value(nodes_indented(cs[i + 1], indent), i == penult(n), compact, threshold, l2);
        (kp + vp, l4)
    }
}

/// The first `k` pairs within a line length threshold, and the length of
/// the line where they end.
pub open spec fn threshold_pairs(cs: Seq<Seq<Node>>, k: int, indent: usize, compact: bool, threshold: int, start: int) -> (Seq<Node>, int)
    decreases k,
{
    if k <= 0 {
        (Seq::empty(), start)
    } else {
        let (prev, len) = threshold_pairs(cs, k - 1, indent, compact, threshold, start);
        let (part, len2) = threshold_part(cs, 2 * (k - 1), indent, compact, threshold, len);
        (prev + part, len2)
    }
}

/// Knits a key within a line length threshold (see `threshold_key`); it is
/// left empty.
fn knit_threshold_key(
    rope: &mut Rope,
    key: &mut Rope,
    renderer: &Renderer,
    indent: usize,
    first: bool,
    compact: bool,
    threshold: usize,
    line_len: u128,
) -> (r: u128)
    requires
        indent_fits(old(key)@, indent),
        nodes_bytes(nodes_indented(old(key)@, indent)).len() <= usize::MAX,
        line_len <= usize::MAX,
    ensures
        final(rope)@ == old(rope)@ + threshold_key(nodes_indented(old(key)@, indent), first, compact, threshold as int, line_len as int).0,
        r == threshold_key(nodes_indented(old(key)@, indent), first, compact, threshold as int, line_len as int).1,
        r <= 2 * (usize::MAX as u128) + 1,
        final(key)@ == Seq::<Node>::empty(),
{
    let ghost base = rope@;
    key.indent(indent);
    let ghost c = key@;
    proof {
        lemma_line_scan_bound(c);
    }
    let (first_len, nl) = key.first_line_bytes_len(renderer);
    let mut len: u128 = line_len + (if compact { 0 } else { 1 }) + first_len as u128;
    if !first {
        if len > threshold as u128 {
            rope.push(Node::NewlineIndent(0));
            len = if nl {
                let (last_len, _) = key.last_line_bytes_len(renderer);
                last_len as u128
            } else {
                first_len as u128
            };
        } else {
            if !compact {
                rope.push(Node::Space);
            }
            if nl {
                let (last_len, _) = key.last_line_bytes_len(renderer);
                len = last_len as u128;
            }
        }
    }
    rope.knit(key);
    proof {
        assert(rope@ =~= base + threshold_key(c, first, compact, threshold as int, line_len as int).0);
    }
    len
}

/// Knits a value within a line length threshold (see `threshold_value`);
/// it is left empty.
fn knit_threshold_value(
    rope: &mut Rope,
    val: &mut Rope,
    renderer: &Renderer,
    indent: usize,
    last: bool,
    compact: bool,
    threshold: usize,
    line_len: u128,
) -> (r: u128)
    requires
        indent_fits(old(val)@, indent),
        nodes_bytes(nodes_indented(old(val)@, indent)).len() <= usize::MAX,
        line_len <= 2 * (usize::MAX as u128) + 1,
    ensures
        final(rope)@ == old(rope)@ + threshold_value(nodes_indented(old(val)@, indent), last, compact, threshold as int, line_len as int).0,
        r == threshold_value(nodes_indented(old(val)@, indent), last, compact, threshold as int, line_len as int).1,
        r <= usize::MAX,
        final(val)@ == Seq::<Node>::empty(),
{
    let ghost base = rope@;
    val.indent(indent);
    let ghost c = val@;
    proof {
        lemma_line_scan_bound(c);
    }
    let comma_len = renderer.node_len(&Node::Comma);
    let colon_len = renderer.node_len(&Node::Colon);
    let space_len = renderer.node_len(&Node::Space);
    assert(comma_len == 1 && colon_len == 1 && space_len == 1);
    let (first_len, nl) = val.first_line_bytes_len(renderer);
    let mut len: u128 = line_len + colon_len as u128 + space_len as u128 + first_len as u128 + comma_len as u128;
    if len > threshold as u128 {
        rope.push(Node::ColonNewline);
        if nl {
            let (last_len, _) = val.last_line_bytes_len(renderer);
            len = last_len as u128;
        } else {
            len = first_len as u128;
        }
    } else {
        rope.push(Node::ColonSpace);
        if nl {
            let (last_len, _) = val.last_line_bytes_len(renderer);
            len = last_len as u128;
        }
    }
    rope.knit(val);
    if !last {
        rope.push(Node::Comma);
    } else if !compact {
        rope.push(Node::Space);
    }
    proof {
        assert(rope@ =~= base + threshold_value(c, last, compact, threshold as int, line_len as int).0);
    }
    len
}

/// Knits the pair whose key is at `i` within a line length threshold (see
/// `threshold_part`); its items are left empty.
fn knit_threshold_pair(
    rope: &mut Rope,
    renderer: &Renderer,
    children: &mut Vec<Rope>,
    i: usize,
    indent: usize,
    compact: bool,
    threshold: usize,
    line_len: u128,
) -> (r: u128)
    requires
        i < old(children)@.len(),
        pairs_indent_fit(rope_views(old(children)@), indent, true),
        items_bytes_fit(rope_views(old(children)@), indent),
        line_len <= usize::MAX,
    ensures
        final(rope)@ == old(rope)@ + threshold_part(rope_views(old(children)@), i as int, indent, compact, threshold as int, line_len as int).0,
        r == threshold_part(rope_views(old(children)@), i as int, indent, compact, threshold as int, line_len as int).1,
        i + 1 < old(children)@.len() ==> r <= usize::MAX,
        final(children)@.len() == old(children)@.len(),
        forall|j: int| 0 <= j < old(children)@.len() && j != i && j != i + 1 ==> (#[trigger] final(children)@[j]) == old(children)@[j],
        (final(children)@[i as int])@ == Seq::<Node>::empty(),
        i + 1 < old(children)@.len() ==> (final(children)@[i + 1])@ == Seq::<Node>::empty(),
{
    let ghost cs = rope_views(children@);
    let ghost base = rope@;
    let n = children.len();
    let pen: usize = if n < 2 { 0 } else { n - 2 };
    assert(cs[i as int] == children@[i as int]@);
    assert(indent_fits(cs[i as int], indent));
    assert(nodes_bytes(nodes_indented(cs[i as int], indent)).len() <= usize::MAX);
    let len2 = {
        let key: &mut Rope = &mut children[i];
        knit_threshold_key(rope, key, renderer, indent, i == 0, compact, threshold, line_len)
    };
    if i + 1 == n {
        rope.push(Node::Colon);
        proof {
            assert(rope@ =~= base + threshold_part(cs, i as int, indent, compact, threshold as int, line_len as int).0);
        }
        len2
    } else {
        assert(cs[i + 1] == children@[i + 1]@);
        assert(indent_fits(cs[i + 1], indent));
        assert(nodes_bytes(nodes_indented(cs[i + 1], indent)).len() <= usize::MAX);
        let val: &mut Rope = &mut children[i + 1];
        let l = knit_threshold_value(rope, val, renderer, indent, i == pen, compact, threshold, len2);
        proof {
            assert(rope@ =~= base + threshold_part(cs, i as int, indent, compact, threshold as int, line_len as int).0);
        }
        l
    }
}

/// Knits the pairs after `rope` within a line length threshold (see
/// `threshold_pairs`); the items are left empty.
fn knit_threshold_pairs(rope: &mut Rope, renderer: &Renderer, children: &mut Vec<Rope>, indent: usize, compact: bool, threshold: usize)
    requires
        pairs_indent_fit(rope_views(old(children)@), indent, true),
        items_bytes_fit(rope_views(old(children)@), indent),
        nodes_bytes(old(rope)@).len() <= usize::MAX,
    ensures
        final(rope)@ == old(rope)@ + threshold_pairs(
            rope_views(old(children)@),
            pair_count(old(children)@.len() as int),
            indent,
            compact,
            threshold as int,
            nodes_bytes(old(rope)@).len() as int,
        ).0,
        final(children)@.len() == old(children)@.len(),
        forall|i: int| 0 <= i < final(children)@.len() ==> (#[trigger] final(children)@[i])@ == Seq::<Node>::empty(),
{
    let ghost cs = rope_views(children@);
    let ghost base = rope@;
    let ghost start = nodes_bytes(rope@).len() as int;
    let n = children.len();
    let pairs = n / 2 + n % 2;
    let mut line_len: u128 = rope.bytes_len(renderer) as u128;
    let mut k: usize = 0;
    while k < pairs
        invariant
            n == children@.len(),
            cs.len() == n,
            pairs == pair_count(n as int),
            k <= pairs,
            pairs_indent_fit(cs, indent, true),
            items_bytes_fit(cs, indent),
            forall|j: int| 2 * k <= j < n ==> (#[trigger] children@[j])@ == cs[j],
            forall|j: int| 0 <= j < 2 * k && j < n ==> (#[trigger] children@[j])@ == Seq::<Node>::empty(),
            rope@ == base + threshold_pairs(cs, k as int, indent, compact, threshold as int, start).0,
            line_len == threshold_pairs(cs, k as int, indent, compact, threshold as int, start).1,
            2 * k < n ==> line_len <= usize::MAX,
        decreases pairs - k,
    {
        let i = 2 * k;
        proof {
            assert forall|j: int| 0 <= j < n implies #[trigger] indent_fits(rope_views(children@)[j], indent)
                && nodes_bytes(nodes_indented(rope_views(children@)[j], indent)).len() <= usize::MAX by {
                if j >= i {
                    assert(rope_views(children@)[j] == cs[j]);
                } else {
                    assert(rope_views(children@)[j] == Seq::<Node>::empty());
                    assert(nodes_indented(Seq::<Node>::empty(), indent) =~= Seq::<Node>::empty());
                }
            }
        }
        let ghost before = children@;
        line_len = knit_threshold_pair(rope, renderer, children, i, indent, compact, threshold, line_len);
        proof {
            assert(rope_views(before)[i as int] == cs[i as int]);
            if i + 1 < n {
                assert(rope_views(before)[i + 1] == cs[i + 1]);
            }
            assert(threshold_part(rope_views(before), i as int, indent, compact, threshold as int, threshold_pairs(cs, k as int, indent, compact, threshold as int, start).1)
                == threshold_part(cs, i as int, indent, compact, threshold as int, threshold_pairs(cs, k as int, indent, compact, threshold as int, start).1));
            assert(rope@ =~= base + threshold_pairs(cs, k + 1, indent, compact, threshold as int, start).0);
        }
        k = k + 1;
    }
}

/// What a mapping of items `cs` (keys and values in turn) is written as,
/// after its tag and anchor (see `collection_prefix`): `{}` without items;
/// in flow style, the pairs in curly brackets, each on a line of its own
/// (multiline, see `map_pairs`), on lines within the threshold (see
/// `threshold_pairs`), or on one line; in block style, one pair per line
/// (see `block_pairs`).
pub open spec fn map_rope(r: Seq<Node>, tag: Seq<u8>, tags: Seq<(String, String)>, styles: CommonStyles, alias: Option<String>, cs: Seq<Seq<Node>>) -> bool {
    let issue = styles.spec_issue_tag();
    let n = prefix_count(issue, alias);
    let indent = styles.spec_indent() as usize;
    let compact = styles.spec_compact();
    let k = pair_count(cs.len() as int);
    if cs.len() == 0 {
        collection_prefix(r.take(n), tag, tags, issue, alias, Node::Space) && r.skip(n) == seq![Node::CurlyBrackets]
    } else if styles.spec_flow() {
        &&& collection_prefix(r.take(n), tag, tags, issue, alias, Node::Space)
        &&& if styles.spec_multiline() {
            r.skip(n) == seq![Node::CurlyBracketOpen, Node::NewlineIndent(indent)] + map_pairs(cs, k, indent, 2) + seq![Node::CurlyBracketClose]
        } else if styles.spec_respect_threshold() {
            r.skip(n) == curly_open(compact) + threshold_pairs(
                cs,
                k,
                indent,
                compact,
                styles.spec_threshold() as int,
                nodes_bytes(r.take(n) + curly_open(compact)).len() as int,
            ).0 + seq![Node::CurlyBracketClose]
        } else {
            r.skip(n) == curly_open(compact) + map_pairs(cs, k, indent, if compact { 0 } else { 1 }) + seq![Node::CurlyBracketClose]
        }
    } else {
        &&& collection_prefix(r.take(n), tag, tags, issue, alias, Node::NewlineIndent(0))
        &&& r.skip(n) == block_pairs(cs, k, indent, questioned(cs))
    }
}

/// The flow-style opening: the bracket, and a space unless compact.
pub open spec fn curly_open(compact: bool) -> Seq<Node> {
    if compact { seq![Node::CurlyBracketOpen] } else { seq![Node::CurlyBracketOpen, Node::Space] }
}

/// An empty mapping: `{}` after the tag and anchor.
fn compose_empty<M: Model>(model: &M, value: MapValue, tags: &[(String, String)]) -> (r: Rope)
    ensures
        ({
            let n = prefix_count(value.spec_styles().spec_issue_tag(), value.spec_alias());
            &&& collection_prefix(r@.take(n), model.spec_tag().spec_bytes(), tags@, value.spec_styles().spec_issue_tag(), value.spec_alias(), Node::Space)
            &&& r@.skip(n) == seq![Node::CurlyBrackets]
        }),
{
    let mut value = value;
    let issue_tag = value.styles.issue_tag();
    let alias = value.take_alias();
    let mut rope = Rope::with_capacity(5);
    push_prefix(model, &mut rope, issue_tag, alias, tags, Node::Space);
    let ghost p = rope@;
    rope.push(Node::CurlyBrackets);
    proof {
        assert(p.skip(0) =~= p);
        assert(rope@.take(p.len() as int) =~= p);
        assert(rope@.skip(p.len() as int) =~= seq![Node::CurlyBrackets]);
    }
    rope
}

/// Flow style, each pair on a line of its own.
fn compose_flow_multiline<M: Model>(model: &M, value: MapValue, tags: &[(String, String)], children: &mut Vec<Rope>) -> (r: Rope)
    requires
        pairs_indent_fit(rope_views(old(children)@), value.spec_styles().spec_indent() as usize, false),
    ensures
        ({
            let n = prefix_count(value.spec_styles().spec_issue_tag(), value.spec_alias());
            let indent = value.spec_styles().spec_indent() as usize;
            let cs = rope_views(old(children)@);
            &&& collection_prefix(r@.take(n), model.spec_tag().spec_bytes(), tags@, value.spec_styles().spec_issue_tag(), value.spec_alias(), Node::Space)
            &&& r@.skip(n) == seq![Node::CurlyBracketOpen, Node::NewlineIndent(indent)] + map_pairs(cs, pair_count(cs.len() as int), indent, 2)
                + seq![Node::CurlyBracketClose]
        }),
        final(children)@.len() == old(children)@.len(),
        forall|i: int| 0 <= i < final(children)@.len() ==> (#[trigger] final(children)@[i])@ == Seq::<Node>::empty(),
{
    let ghost cs = rope_views(children@);
    let mut value = value;
    let indent = value.styles.indent() as usize;
    let issue_tag = value.styles.issue_tag();
    let alias = value.take_alias();
    let mut rope = Rope::with_capacity(children.len());
    push_prefix(model, &mut rope, issue_tag, alias, tags, Node::Space);
    let ghost p = rope@;
    rope.push(Node::CurlyBracketOpen);
    rope.push(Node::NewlineIndent(indent));
    let ghost q = rope@;
    knit_pairs(&mut rope, children, indent, 2);
    rope.push(Node::CurlyBracketClose);
    proof {
        assert(p.skip(0) =~= p);
        assert(q =~= p + seq![Node::CurlyBracketOpen, Node::NewlineIndent(indent)]);
        assert(rope@.take(p.len() as int) =~= p);
        assert(rope@.skip(p.len() as int) =~= seq![Node::CurlyBracketOpen, Node::NewlineIndent(indent)]
            + map_pairs(cs, pair_count(cs.len() as int), indent, 2) + seq![Node::CurlyBracketClose]);
    }
    rope
}

/// Flow style, the pairs on one line.
fn compose_flow_no_threshold<M: Model>(model: &M, value: MapValue, tags: &[(String, String)], children: &mut Vec<Rope>) -> (r: Rope)
    requires
        pairs_indent_fit(rope_views(old(children)@), value.spec_styles().spec_indent() as usize, true),
    ensures
        ({
            let n = prefix_count(value.spec_styles().spec_issue_tag(), value.spec_alias());
            let indent = value.spec_styles().spec_indent() as usize;
            let compact = value.spec_styles().spec_compact();
            let cs = rope_views(old(children)@);
            &&& collection_prefix(r@.take(n), model.spec_tag().spec_bytes(), tags@, value.spec_styles().spec_issue_tag(), value.spec_alias(), Node::Space)
            &&& r@.skip(n) == curly_open(compact) + map_pairs(cs, pair_count(cs.len() as int), indent, if compact { 0 } else { 1 })
                + seq![Node::CurlyBracketClose]
        }),
        final(children)@.len() == old(children)@.len(),
        forall|i: int| 0 <= i < final(children)@.len() ==> (#[trigger] final(children)@[i])@ == Seq::<Node>::empty(),
{
    let ghost cs = rope_views(children@);
    let mut value = value;
    let indent = value.styles.indent() as usize;
    let compact = value.styles.compact();
    let issue_tag = value.styles.issue_tag();
    let alias = value.take_alias();
    let mut rope = Rope::with_capacity(children.len());
    push_prefix(model, &mut rope, issue_tag, alias, tags, Node::Space);
    let ghost p = rope@;
    rope.push(Node::CurlyBracketOpen);
    if !compact {
        rope.push(Node::Space);
    }
    proof {
        assert(rope@ =~= p + curly_open(compact));
    }
    knit_pairs(&mut rope, children, indent, if compact { 0 } else { 1 });
    rope.push(Node::CurlyBracketClose);
    proof {
        assert(p.skip(0) =~= p);
        assert(rope@.take(p.len() as int) =~= p);
        assert(rope@.skip(p.len() as int) =~= curly_open(compact) + map_pairs(cs, pair_count(cs.len() as int), indent, if compact { 0 } else { 1 })
            + seq![Node::CurlyBracketClose]);
    }
    rope
}

/// Flow style, the pairs on lines within the threshold.
fn compose_flow_respect_threshold<M: Model>(
    model: &M,
    renderer: &Renderer,
    value: MapValue,
    tags: &[(String, String)],
    children: &mut Vec<Rope>,
) -> (r: Rope)
    requires
        pairs_indent_fit(rope_views(old(children)@), value.spec_styles().spec_indent() as usize, true),
        items_bytes_fit(rope_views(old(children)@), value.spec_styles().spec_indent() as usize),
        prefix_text_fits(model.spec_tag().spec_bytes(), tags@, value.spec_styles().spec_issue_tag(), value.spec_alias()),
    ensures
        ({
            let n = prefix_count(value.spec_styles().spec_issue_tag(), value.spec_alias());
            let indent = value.spec_styles().spec_indent() as usize;
            let compact = value.spec_styles().spec_compact();
            let cs = rope_views(old(children)@);
            &&& collection_prefix(r@.take(n), model.spec_tag().spec_bytes(), tags@, value.spec_styles().spec_issue_tag(), value.spec_alias(), Node::Space)
            &&& r@.skip(n) == curly_open(compact) + threshold_pairs(
                cs,
                pair_count(cs.len() as int),
                indent,
                compact,
                value.spec_styles().spec_threshold() as int,
                nodes_bytes(r@.take(n) + curly_open(compact)).len() as int,
            ).0 + seq![Node::CurlyBracketClose]
        }),
        final(children)@.len() == old(children)@.len(),
        forall|i: int| 0 <= i < final(children)@.len() ==> (#[trigger] final(children)@[i])@ == Seq::<Node>::empty(),
{
    let ghost cs = rope_views(children@);
    let ghost alias0 = value.spec_alias();
    let mut value = value;
    let indent = value.styles.indent() as usize;
    let compact = value.styles.compact();
    let threshold = value.styles.threshold() as usize;
    let issue_tag = value.styles.issue_tag();
    let alias = value.take_alias();
    let mut rope = Rope::with_capacity(children.len());
    push_prefix(model, &mut rope, issue_tag, alias, tags, Node::Space);
    let ghost p = rope@;
    rope.push(Node::CurlyBracketOpen);
    if !compact {
        rope.push(Node::Space);
    }
    proof {
        assert(p.skip(0) =~= p);
        assert(rope@ =~= p + curly_open(compact));
        lemma_prefix_bytes(p, curly_open(compact), model.spec_tag().spec_bytes(), tags@, issue_tag, alias0);
    }
    knit_threshold_pairs(&mut rope, renderer, children, indent, compact, threshold);
    rope.push(Node::CurlyBracketClose);
    proof {
        assert(rope@.take(p.len() as int) =~= p);
        assert(rope@.skip(p.len() as int) =~= curly_open(compact) + threshold_pairs(
            cs,
            pair_count(cs.len() as int),
            indent,
            compact,
            threshold as int,
            nodes_bytes(p + curly_open(compact)).len() as int,
        ).0 + seq![Node::CurlyBracketClose]);
    }
    rope
}

/// Block style: one pair per line.
fn compose_block<M: Model>(model: &M, value: MapValue, tags: &[(String, String)], children: &mut Vec<Rope>) -> (r: Rope)
    requires
        block_indent_fit(rope_views(old(children)@), value.spec_styles().spec_indent() as usize),
    ensures
        ({
            let n = prefix_count(value.spec_styles().spec_issue_tag(), value.spec_alias());
            let indent = value.spec_styles().spec_indent() as usize;
            let cs = rope_views(old(children)@);
            &&& collection_prefix(r@.take(n), model.spec_tag().spec_bytes(), tags@, value.spec_styles().spec_issue_tag(), value.spec_alias(), Node::NewlineIndent(0))
            &&& r@.skip(n) == block_pairs(cs, pair_count(cs.len() as int), indent, questioned(cs))
        }),
        final(children)@.len() == old(children)@.len(),
        forall|i: int| 0 <= i < final(children)@.len() ==> (#[trigger] final(children)@[i])@ == Seq::<Node>::empty(),
{
    let ghost cs = rope_views(children@);
    let mut value = value;
    let indent = value.styles.indent() as usize;
    let issue_tag = value.styles.issue_tag();
    let alias = value.take_alias();
    let mut rope = Rope::with_capacity(children.len());
    push_prefix(model, &mut rope, issue_tag, alias, tags, Node::NewlineIndent(0));
    let ghost p = rope@;
    knit_block_pairs(&mut rope, children, indent);
    proof {
        assert(p.skip(0) =~= p);
        assert(rope@.take(p.len() as int) =~= p);
        assert(rope@.skip(p.len() as int) =~= block_pairs(cs, pair_count(cs.len() as int), indent, questioned(cs)));
    }
    rope
}

/// Writes a mapping (see `map_rope`) whose keys and values, already
/// written, are `children`, in turn; the items are left empty.
pub fn compose<M: Model>(model: &M, renderer: &Renderer, value: TaggedValue, tags: &[(String, String)], children: &mut Vec<Rope>) -> (r: Rope)
    requires
        value is Mapping,
        ({
            let styles = value->Mapping_0.spec_styles();
            let indent = styles.spec_indent() as usize;
            let cs = rope_views(old(children)@);
            &&& styles.spec_flow() ==> pairs_indent_fit(cs, indent, !styles.spec_multiline())
            &&& !styles.spec_flow() ==> block_indent_fit(cs, indent)
            &&& styles.spec_flow() && !styles.spec_multiline() && styles.spec_respect_threshold() ==> items_bytes_fit(cs, indent)
                && prefix_text_fits(model.spec_tag().spec_bytes(), tags@, styles.spec_issue_tag(), value->Mapping_0.spec_alias())
        }),
    ensures
        map_rope(
            r@,
            model.spec_tag().spec_bytes(),
            tags@,
            value->Mapping_0.spec_styles(),
            value->Mapping_0.spec_alias(),
            rope_views(old(children)@),
        ),
        final(children)@.len() == old(children)@.len(),
        old(children)@.len() > 0 ==> forall|i: int| 0 <= i < final(children)@.len() ==> (#[trigger] final(children)@[i])@ == Seq::<Node>::empty(),
        old(children)@.len() == 0 ==> final(children)@ == old(children)@,
{
    let value = match value {
        TaggedValue::Mapping(v) => v,
        _ => {
            proof {
                assert(false);
            }
            return Rope::Empty;
        },
    };
    if children.len() == 0 {
        return compose_empty(model, value, tags);
    }
    let styles = value.styles();
    if styles.flow() {
        if styles.multiline() {
            compose_flow_multiline(model, value, tags, children)
        } else if styles.respect_threshold() {
            compose_flow_respect_threshold(model, renderer, value, tags, children)
        } else {
            compose_flow_no_threshold(model, value, tags, children)
        }
    } else {
        compose_block(model, value, tags, children)
    }
}

impl Mapping {
    pub fn get_tag() -> (r: &'static str)
        ensures
            r == TAG,
    {
        TAG
    }
}

impl Model for Mapping {
    fn is_metamodel(&self) -> (r: bool) {
        false
    }

    fn is_decodable(&self) -> (r: bool) {
        false
    }

    fn is_encodable(&self) -> (r: bool) {
        false
    }

    fn has_default(&self) -> (r: bool) {
        false
    }

    fn is_sequence(&self) -> (r: bool) {
        false
    }

    open spec fn spec_tag(&self) -> &'static str {
        TAG
    }

    fn get_tag(&self) -> (r: &'static str) {
        TAG
    }

    open spec fn spec_is_dictionary(&self) -> bool {
        true
    }

    fn is_dictionary(&self) -> (r: bool)
        ensures
            r,
    {
        true
    }
}

} // verus!
