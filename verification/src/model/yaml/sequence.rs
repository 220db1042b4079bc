//! `!!seq`: sequences, written in block style (one item per line after a
//! hyphen) or in flow style (in square brackets).
use vstd::prelude::*;
use vstd::string::StringSliceAdditionalSpecFns;

use crate::model::renderer::{node_bytes, Node, Renderer};
use crate::model::rope::{indent_fits, line_scan, line_scan_rev, nodes_bytes, nodes_indented, nodes_multiline, Rope};
use crate::model::style::CommonStyles;
use crate::model::bytes::string_bytes;
use crate::model::rope::{lemma_line_scan_bound, lemma_nodes_bytes_append};
use crate::model::{is_alias_node, is_tag_node, model_alias, model_tag, tag_shorthand, Model, Tagged, TaggedValue};

verus! {

pub const TAG: &'static str = "tag:yaml.org,2002:seq";

/// The sequence model.
#[derive(Clone, Copy)]
pub struct Sequence;

/// A sequence's own value: its styles and its anchor; its items are played
/// after it.
#[derive(Debug)]
pub struct SeqValue {
    styles: CommonStyles,
    alias: Option<String>,
}

impl SeqValue {
    pub closed spec fn spec_styles(&self) -> CommonStyles {
        self.styles
    }

    pub closed spec fn spec_alias(&self) -> Option<String> {
        self.alias
    }

    pub fn new(styles: CommonStyles, alias: Option<String>) -> (r: SeqValue)
        ensures
            r.spec_styles() == styles,
            r.spec_alias() == alias,
    {
        SeqValue { styles, alias }
    }

    pub fn take_alias(&mut self) -> (r: Option<String>)
        ensures
            r == old(self).spec_alias(),
            final(self).spec_alias() is None,
            final(self).spec_styles() == old(self).spec_styles(),
    {
        self.alias.take()
    }

    pub fn styles(&self) -> (r: CommonStyles)
        ensures
            r == self.spec_styles(),
    {
        self.styles
    }
}

impl Tagged for SeqValue {
    open spec fn spec_tag(&self) -> &'static str {
        TAG
    }

    fn get_tag(&self) -> (r: &'static str) {
        TAG
    }
}

/// The nodes of each rope.
pub open spec fn rope_views(rs: Seq<Rope>) -> Seq<Seq<Node>> {
    rs.map_values(|r: Rope| r@)
}

/// How many nodes come before a collection's own: the tag and the anchor,
/// each followed by a separator.
pub open spec fn prefix_count(issue_tag: bool, alias: Option<String>) -> int {
    if issue_tag && alias is Some {
        4
    } else if issue_tag || alias is Some {
        2
    } else {
        0
    }
}

/// The nodes that come before a collection's own: the tag (where issued)
/// and the anchor (where there is one), a space between them, and `end`
/// after the last of them.
pub open spec fn collection_prefix(
    p: Seq<Node>,
    tag: Seq<u8>,
    tags: Seq<(String, String)>,
    issue_tag: bool,
    alias: Option<String>,
    end: Node,
) -> bool {
    match alias {
        Some(a) => if issue_tag {
            &&& p.len() == 4
            &&& is_tag_node(p[0], tag, tags)
            &&& p[1] == Node::Space
            &&& is_alias_node(p[2], a)
            &&& p[3] == end
        } else {
            &&& p.len() == 2
            &&& is_alias_node(p[0], a)
            &&& p[1] == end
        },
        None => if issue_tag {
            &&& p.len() == 2
            &&& is_tag_node(p[0], tag, tags)
            &&& p[1] == end
        } else {
            p.len() == 0
        },
    }
}

/// What follows an item: in compact flow style (mode 0) a comma, in flow
/// style (1) a comma and a space, in multiline flow style (2) a comma and a
/// new indented line, in block style (3) a new line and a hyphen (on the
/// same line after a multiline item); after the last item, nothing, a space,
/// a new unindented line, or (in block style, after an item on one line) a
/// line break.
pub open spec fn seq_sep(mode: int, c: Seq<Node>, last: bool, indent: usize) -> Seq<Node> {
    if mode == 0 {
        if last { Seq::empty() } else { seq![Node::Comma] }
    } else if mode == 1 {
        if last { seq![Node::Space] } else { seq![Node::CommaSpace] }
    } else if mode == 2 {
        if last { seq![Node::NewlineIndent(0)] } else { seq![Node::CommaNewlineIndent(indent)] }
    } else if last {
        if nodes_multiline(c) { Seq::empty() } else { seq![Node::Newline] }
    } else if nodes_multiline(c) {
        seq![Node::IndentHyphenSpace(0)]
    } else {
        seq![Node::NewlineIndentHyphenSpace(0)]
    }
}

/// The first `k` items, each indented by `indent` and followed by its
/// separator (see `seq_sep`).
pub open spec fn seq_items(cs: Seq<Seq<Node>>, k: int, indent: usize, mode: int) -> Seq<Node>
    decreases k,
{
    if k <= 0 {
        Seq::empty()
    } else {
        let c = nodes_indented(cs[k - 1], indent);
        seq_items(cs, k - 1, indent, mode) + c + seq_sep(mode, c, k == cs.len(), indent)
    }
}

/// Lines that each hold an item after a hyphen and a space: `- b⏎` for each
/// `b` in turn.
pub open spec fn hyphen_lines(bs: Seq<Seq<u8>>) -> Seq<u8>
    decreases bs.len(),
{
    if bs.len() == 0 {
        Seq::empty()
    } else {
        hyphen_lines(bs.drop_last()) + seq![0x2du8, 0x20u8] + bs.last() + seq![0x0au8]
    }
}

/// Growing the indentations of nodes keeps which of them break lines.
proof fn lemma_multiline_indented(c: Seq<Node>, indent: usize)
    ensures
        nodes_multiline(nodes_indented(c, indent)) == nodes_multiline(c),
{
    let d = nodes_indented(c, indent);
    assert forall|k: int| 0 <= k < c.len() implies crate::model::renderer::spec_is_newline(#[trigger] d[k])
        == crate::model::renderer::spec_is_newline(c[k]) by {
        assert(d[k] == crate::model::renderer::node_indented(c[k], indent));
    }
    if nodes_multiline(c) {
        let (i, j) = choose|i: int, j: int|
            0 <= i < j < c.len() && crate::model::renderer::spec_is_newline(#[trigger] c[i])
                && !crate::model::renderer::spec_is_newline(#[trigger] c[j]);
        assert(crate::model::renderer::spec_is_newline(d[i]) && !crate::model::renderer::spec_is_newline(d[j]));
    }
    if nodes_multiline(d) {
        let (i, j) = choose|i: int, j: int|
            0 <= i < j < d.len() && crate::model::renderer::spec_is_newline(#[trigger] d[i])
                && !crate::model::renderer::spec_is_newline(#[trigger] d[j]);
        assert(crate::model::renderer::spec_is_newline(c[i]) && !crate::model::renderer::spec_is_newline(c[j]));
    }
}

/// The written items of a block sequence, each as its nodes render.
pub open spec fn written_items(cs: Seq<Seq<Node>>, indent: usize) -> Seq<Seq<u8>> {
    Seq::new(cs.len(), |j: int| nodes_bytes(nodes_indented(cs[j], indent)))
}

proof fn lemma_block_items_text(cs: Seq<Seq<Node>>, k: int, indent: usize)
    requires
        0 <= k <= cs.len(),
        cs.len() > 0,
        forall|j: int| 0 <= j < cs.len() ==> !nodes_multiline(#[trigger] cs[j]),
    ensures
        nodes_bytes(seq![Node::HyphenSpace] + seq_items(cs, k, indent, 3)) == if k < cs.len() {
            hyphen_lines(written_items(cs, indent).take(k)) + seq![0x2du8, 0x20u8]
        } else {
            hyphen_lines(written_items(cs, indent))
        },
    decreases k,
{
    let bs = written_items(cs, indent);
    if k == 0 {
        assert(seq![Node::HyphenSpace] + seq_items(cs, 0, indent, 3) =~= seq![Node::HyphenSpace]);
        assert(seq![Node::HyphenSpace].drop_last() =~= Seq::<Node>::empty());
        assert(nodes_bytes(Seq::<Node>::empty()) =~= Seq::<u8>::empty());
        assert(bs.take(0) =~= Seq::<Seq<u8>>::empty());
        assert(nodes_bytes(seq![Node::HyphenSpace]) =~= hyphen_lines(bs.take(0)) + seq![0x2du8, 0x20u8]);
    } else {
        lemma_block_items_text(cs, k - 1, indent);
        let c = nodes_indented(cs[k - 1], indent);
        lemma_multiline_indented(cs[k - 1], indent);
        assert(!nodes_multiline(cs[k - 1]));
        let sep = seq_sep(3, c, k == cs.len(), indent);
        let pre = seq![Node::HyphenSpace] + seq_items(cs, k - 1, indent, 3);
        assert(seq![Node::HyphenSpace] + seq_items(cs, k, indent, 3) =~= pre + c + sep);
        lemma_nodes_bytes_append(pre, c);
        lemma_nodes_bytes_append(pre + c, sep);
        assert(sep.drop_last() =~= Seq::<Node>::empty());
        assert(nodes_bytes(Seq::<Node>::empty()) =~= Seq::<u8>::empty());
        assert(bs[k - 1] == nodes_bytes(c));
        let hk = hyphen_lines(bs.take(k - 1));
        assert(bs.take(k).drop_last() =~= bs.take(k - 1));
        assert(bs.take(k).last() == bs[k - 1]);
        if k < cs.len() {
            assert(sep == seq![Node::NewlineIndentHyphenSpace(0)]);
            assert(nodes_bytes(sep) =~= seq![0x0au8, 0x2du8, 0x20u8]);
            assert(hyphen_lines(bs.take(k)) == hk + seq![0x2du8, 0x20u8] + bs[k - 1] + seq![0x0au8]);
            assert(hk + seq![0x2du8, 0x20u8] + nodes_bytes(c) + seq![0x0au8, 0x2du8, 0x20u8] =~= hyphen_lines(bs.take(k))
                + seq![0x2du8, 0x20u8]);
        } else {
            assert(sep == seq![Node::Newline]);
            assert(nodes_bytes(sep) =~= seq![0x0au8]);
            assert(bs.take(k) =~= bs);
            assert(hyphen_lines(bs.take(k)) == hk + seq![0x2du8, 0x20u8] + bs[k - 1] + seq![0x0au8]);
            assert(hk + seq![0x2du8, 0x20u8] + nodes_bytes(c) + seq![0x0au8] =~= hyphen_lines(bs));
        }
    }
}

/// In block style, with no tag issued and no anchor, a sequence of items
/// that each fit on one line is written one item per line, each introduced
/// by a hyphen and a space: `- a⏎- b⏎- c⏎`.
pub proof fn law_block_sequence_hyphen_per_item(
    r: Seq<Node>,
    tag: Seq<u8>,
    tags: Seq<(String, String)>,
    styles: CommonStyles,
    cs: Seq<Seq<Node>>,
)
    requires
        !styles.spec_flow(),
        !styles.spec_issue_tag(),
        cs.len() > 0,
        forall|j: int| 0 <= j < cs.len() ==> !nodes_multiline(#[trigger] cs[j]),
        seq_rope(r, tag, tags, styles, None, cs),
    ensures
        nodes_bytes(r) == hyphen_lines(written_items(cs, styles.spec_indent() as usize)),
{
    lemma_block_items_text(cs, cs.len() as int, styles.spec_indent() as usize);
    assert(r.skip(0) =~= r);
}

/// The first `k` items in flow style within a line length threshold, and the
/// length of the line where they end: before each item but the first, a
/// comma and a new line where the line would grow beyond the threshold, a
/// comma (and a space, unless compact) otherwise; a space after the last
/// one unless compact.
pub open spec fn threshold_items(cs: Seq<Seq<Node>>, k: int, indent: usize, compact: bool, threshold: int, start: int) -> (Seq<Node>, int)
    decreases k,
{
    if k <= 0 {
        (Seq::empty(), start)
    } else {
        let (prev, len) = threshold_items(cs, k - 1, indent, compact, threshold, start);
        let c = nodes_indented(cs[k - 1], indent);
        let len1 = len + (if compact { 1int } else { 2int }) + line_scan(c).0;
        let (sep, len2) = if k == 1 {
            (Seq::<Node>::empty(), len1)
        } else if len1 > threshold {
            (seq![Node::CommaNewlineIndent(0)], line_scan_rev(c).0 as int)
        } else if compact {
            (seq![Node::Comma], len1)
        } else {
            (seq![Node::CommaSpace], len1)
        };
        let tail = if k == cs.len() && !compact { seq![Node::Space] } else { Seq::<Node>::empty() };
        (prev + sep + c + tail, len2)
    }
}

/// Every item can be indented by `indent`.
pub open spec fn items_indent_fit(cs: Seq<Seq<Node>>, indent: usize) -> bool {
    forall|i: int| 0 <= i < cs.len() ==> #[trigger] indent_fits(cs[i], indent)
}

/// Every item, indented, renders to fewer bytes than `usize` holds.
pub open spec fn items_bytes_fit(cs: Seq<Seq<Node>>, indent: usize) -> bool {
    forall|i: int| 0 <= i < cs.len() ==> #[trigger] nodes_bytes(nodes_indented(cs[i], indent)).len() <= usize::MAX
}

/// Knits the items after `rope`, each indented, in the given mode (see
/// `seq_items`); the items are left empty.
fn knit_items(rope: &mut Rope, children: &mut Vec<Rope>, indent: usize, mode: u8)
    requires
        items_indent_fit(rope_views(old(children)@), indent),
        mode <= 3,
    ensures
        final(rope)@ == old(rope)@ + seq_items(rope_views(old(children)@), old(children)@.len() as int, indent, mode as int),
        final(children)@.len() == old(children)@.len(),
        forall|i: int| 0 <= i < final(children)@.len() ==> (#[trigger] final(children)@[i])@ == Seq::<Node>::empty(),
{
    let ghost cs = rope_views(children@);
    let ghost base = rope@;
    let n = children.len();
    let mut i: usize = 0;
    while i < n
        invariant
            n == children@.len(),
            cs.len() == n,
            i <= n,
            mode <= 3,
            items_indent_fit(cs, indent),
            forall|j: int| i <= j < n ==> (#[trigger] children@[j])@ == cs[j],
            forall|j: int| 0 <= j < i ==> (#[trigger] children@[j])@ == Seq::<Node>::empty(),
            rope@ == base + seq_items(cs, i as int, indent, mode as int),
        decreases n - i,
    {
        let child: &mut Rope = &mut children[i];
        assert(indent_fits(cs[i as int], indent));
        child.indent(indent);
        let multiline = child.is_multiline();
        let ghost c = child@;
        rope.knit(child);
        let last = i + 1 == n;
        if mode == 0 {
            if !last {
                rope.push(Node::Comma);
            }
        } else if mode == 1 {
            if last {
                rope.push(Node::Space);
            } else {
                rope.push(Node::CommaSpace);
            }
        } else if mode == 2 {
            if last {
                rope.push(Node::NewlineIndent(0));
            } else {
                rope.push(Node::CommaNewlineIndent(indent));
            }
        } else if last {
            if !multiline {
                rope.push(Node::Newline);
            }
        } else if multiline {
            rope.push(Node::IndentHyphenSpace(0));
        } else {
            rope.push(Node::NewlineIndentHyphenSpace(0));
        }
        proof {
            assert(c == nodes_indented(cs[i as int], indent));
            assert(rope@ =~= base + seq_items(cs, i + 1, indent, mode as int));
        }
        i = i + 1;
    }
}

/// How many bytes the node of a tag writes out.
pub open spec fn tag_text_len(tag: Seq<u8>, tags: Seq<(String, String)>) -> int {
    match tag_shorthand(tag, tags) {
        Some(b) => b.len() as int,
        None => tag.len() + 3int,
    }
}

/// The tag and the anchor before a collection, with the bracket that opens
/// it, fit in `usize` bytes.
pub open spec fn prefix_text_fits(tag: Seq<u8>, tags: Seq<(String, String)>, issue_tag: bool, alias: Option<String>) -> bool {
    (if issue_tag { tag_text_len(tag, tags) } else { 0 }) + (match alias {
        Some(a) => string_bytes(a).len() + 1int,
        None => 0int,
    }) + 4 <= usize::MAX
}

/// What a sequence of items `cs` is written as, after its tag and anchor
/// (see `collection_prefix`): `[]` without items; in flow style, the items
/// in square brackets, on separate lines (multiline), or on lines within
/// the threshold (see `threshold_items`), or on one line; in block style,
/// each item after a hyphen.
pub open spec fn seq_rope(r: Seq<Node>, tag: Seq<u8>, tags: Seq<(String, String)>, styles: CommonStyles, alias: Option<String>, cs: Seq<Seq<Node>>) -> bool {
    let issue = styles.spec_issue_tag();
    let n = prefix_count(issue, alias);
    let indent = styles.spec_indent() as usize;
    let compact = styles.spec_compact();
    let open = if compact { seq![Node::SquareBracketOpen] } else { seq![Node::SquareBracketOpen, Node::Space] };
    if cs.len() == 0 {
        collection_prefix(r.take(n), tag, tags, issue, alias, Node::Space) && r.skip(n) == seq![Node::SquareBrackets]
    } else if styles.spec_flow() {
        &&& collection_prefix(r.take(n), tag, tags, issue, alias, Node::Space)
        &&& if styles.spec_multiline() {
            r.skip(n) == seq![Node::SquareBracketOpen, Node::NewlineIndent(indent)] + seq_items(cs, cs.len() as int, indent, 2)
                + seq![Node::SquareBracketClose]
        } else if styles.spec_respect_threshold() {
            r.skip(n) == open + threshold_items(
                cs,
                cs.len() as int,
                indent,
                compact,
                styles.spec_threshold() as int,
                nodes_bytes(r.take(n) + open).len() as int,
            ).0 + seq![Node::SquareBracketClose]
        } else {
            r.skip(n) == open + seq_items(cs, cs.len() as int, indent, if compact { 0 } else { 1 }) + seq![Node::SquareBracketClose]
        }
    } else {
        &&& collection_prefix(r.take(n), tag, tags, issue, alias, Node::NewlineIndent(0))
        &&& r.skip(n) == seq![Node::HyphenSpace] + seq_items(cs, cs.len() as int, indent, 3)
    }
}

/// Pushes the nodes before a collection's own: tag and anchor as the styles
/// ask, each followed by `end`, a space between them.
pub(crate) fn push_prefix<M: Model>(model: &M, rope: &mut Rope, issue_tag: bool, alias: Option<String>, tags: &[(String, String)], end: Node)
    ensures
        final(rope)@.take(old(rope)@.len() as int) == old(rope)@,
        final(rope)@.len() == old(rope)@.len() + prefix_count(issue_tag, alias),
        collection_prefix(final(rope)@.skip(old(rope)@.len() as int), model.spec_tag().spec_bytes(), tags@, issue_tag, alias, end),
{
    let ghost base = rope@;
    if issue_tag {
        rope.push(model_tag(model, tags));
        match alias {
            Some(a) => {
                rope.push(Node::Space);
                rope.push(model_alias(model, a));
            }
            None => {}
        }
        rope.push(end);
    } else {
        match alias {
            Some(a) => {
                rope.push(model_alias(model, a));
                rope.push(end);
            }
            None => {}
        }
    }
    proof {
        assert(rope@.take(base.len() as int) =~= base);
        let p = rope@.skip(base.len() as int);
        if issue_tag {
            assert(p[0] == rope@[base.len() as int]);
        }
    }
}

/// The bytes of the nodes before a collection and its opening bracket.
pub(crate) proof fn lemma_prefix_bytes(p: Seq<Node>, open: Seq<Node>, tag: Seq<u8>, tags: Seq<(String, String)>, issue_tag: bool, alias: Option<String>)
    requires
        collection_prefix(p, tag, tags, issue_tag, alias, Node::Space),
        prefix_text_fits(tag, tags, issue_tag, alias),
        open == seq![Node::SquareBracketOpen] || open == seq![Node::SquareBracketOpen, Node::Space]
            || open == seq![Node::CurlyBracketOpen] || open == seq![Node::CurlyBracketOpen, Node::Space],
    ensures
        nodes_bytes(p + open).len() <= usize::MAX,
{
    reveal_with_fuel(nodes_bytes, 5);
    lemma_nodes_bytes_append(p, open);
    assert(nodes_bytes(open).len() <= 2) by {
        if open.len() == 2 {
            assert(open.drop_last() =~= seq![open[0]]);
            assert(seq![open[0]].drop_last() =~= Seq::<Node>::empty());
        } else {
            assert(open.drop_last() =~= Seq::<Node>::empty());
        }
    }
    if p.len() > 0 {
        assert(p.drop_last().len() == p.len() - 1);
        if p.len() == 4 {
            assert(p.drop_last().drop_last().drop_last().drop_last() =~= Seq::<Node>::empty());
        } else {
            assert(p.drop_last().drop_last() =~= Seq::<Node>::empty());
        }
    }
}

/// The flow-style opening: the bracket, and a space unless compact.
pub open spec fn flow_open(compact: bool) -> Seq<Node> {
    if compact { seq![Node::SquareBracketOpen] } else { seq![Node::SquareBracketOpen, Node::Space] }
}

/// An empty sequence: `[]` after the tag and anchor.
fn compose_empty<M: Model>(model: &M, value: SeqValue, tags: &[(String, String)]) -> (r: Rope)
    ensures
        ({
            let n = prefix_count(value.spec_styles().spec_issue_tag(), value.spec_alias());
            &&& collection_prefix(r@.take(n), model.spec_tag().spec_bytes(), tags@, value.spec_styles().spec_issue_tag(), value.spec_alias(), Node::Space)
            &&& r@.skip(n) == seq![Node::SquareBrackets]
        }),
{
    let mut value = value;
    let issue_tag = value.styles.issue_tag();
    let alias = value.take_alias();
    let mut rope = Rope::with_capacity(5);
    push_prefix(model, &mut rope, issue_tag, alias, tags, Node::Space);
    let ghost p = rope@;
    rope.push(Node::SquareBrackets);
    proof {
        assert(p.skip(0) =~= p);
        assert(rope@.take(p.len() as int) =~= p);
        assert(rope@.skip(p.len() as int) =~= seq![Node::SquareBrackets]);
    }
    rope
}

/// Flow style, the items on separate lines.
fn compose_flow_multiline<M: Model>(model: &M, value: SeqValue, tags: &[(String, String)], children: &mut Vec<Rope>) -> (r: Rope)
    requires
        items_indent_fit(rope_views(old(children)@), value.spec_styles().spec_indent() as usize),
    ensures
        ({
            let n = prefix_count(value.spec_styles().spec_issue_tag(), value.spec_alias());
            let indent = value.spec_styles().spec_indent() as usize;
            let cs = rope_views(old(children)@);
            &&& collection_prefix(r@.take(n), model.spec_tag().spec_bytes(), tags@, value.spec_styles().spec_issue_tag(), value.spec_alias(), Node::Space)
            &&& r@.skip(n) == seq![Node::SquareBracketOpen, Node::NewlineIndent(indent)] + seq_items(cs, cs.len() as int, indent, 2)
                + seq![Node::SquareBracketClose]
        }),
        final(children)@.len() == old(children)@.len(),
        forall|i: int| 0 <= i < final(children)@.len() ==> (#[trigger] final(children)@[i])@ == Seq::<Node>::empty(),
{
    let ghost cs = rope_views(children@);
    let mut value = value;
    let indent = value.styles.indent() as usize;
    let issue_tag = value.styles.issue_tag();
    let alias = value.take_alias();
    let mut rope = Rope::with_capacity(children.len());
    push_prefix(model, &mut rope, issue_tag, alias, tags, Node::Space);
    let ghost p = rope@;
    rope.push(Node::SquareBracketOpen);
    rope.push(Node::NewlineIndent(indent));
    let ghost q = rope@;
    knit_items(&mut rope, children, indent, 2);
    rope.push(Node::SquareBracketClose);
    proof {
        assert(p.skip(0) =~= p);
        assert(q =~= p + seq![Node::SquareBracketOpen, Node::NewlineIndent(indent)]);
        assert(rope@.take(p.len() as int) =~= p);
        assert(rope@.skip(p.len() as int) =~= seq![Node::SquareBracketOpen, Node::NewlineIndent(indent)]
            + seq_items(cs, cs.len() as int, indent, 2) + seq![Node::SquareBracketClose]);
    }
    rope
}

/// Flow style, the items on one line.
fn compose_flow_no_threshold<M: Model>(model: &M, value: SeqValue, tags: &[(String, String)], children: &mut Vec<Rope>) -> (r: Rope)
    requires
        items_indent_fit(rope_views(old(children)@), value.spec_styles().spec_indent() as usize),
    ensures
        ({
            let n = prefix_count(value.spec_styles().spec_issue_tag(), value.spec_alias());
            let indent = value.spec_styles().spec_indent() as usize;
            let compact = value.spec_styles().spec_compact();
            let cs = rope_views(old(children)@);
            &&& collection_prefix(r@.take(n), model.spec_tag().spec_bytes(), tags@, value.spec_styles().spec_issue_tag(), value.spec_alias(), Node::Space)
            &&& r@.skip(n) == flow_open(compact) + seq_items(cs, cs.len() as int, indent, if compact { 0 } else { 1 })
                + seq![Node::SquareBracketClose]
        }),
        final(children)@.len() == old(children)@.len(),
        forall|i: int| 0 <= i < final(children)@.len() ==> (#[trigger] final(children)@[i])@ == Seq::<Node>::empty(),
{
    let ghost cs = rope_views(children@);
    let mut value = value;
    let indent = value.styles.indent() as usize;
    let compact = value.styles.compact();
    let issue_tag = value.styles.issue_tag();
    let alias = value.take_alias();
    let mut rope = Rope::with_capacity(children.len());
    push_prefix(model, &mut rope, issue_tag, alias, tags, Node::Space);
    let ghost p = rope@;
    rope.push(Node::SquareBracketOpen);
    if !compact {
        rope.push(Node::Space);
    }
    proof {
        assert(rope@ =~= p + flow_open(compact));
    }
    knit_items(&mut rope, children, indent, if compact { 0 } else { 1 });
    rope.push(Node::SquareBracketClose);
    proof {
        assert(p.skip(0) =~= p);
        assert(rope@.take(p.len() as int) =~= p);
        assert(rope@.skip(p.len() as int) =~= flow_open(compact) + seq_items(cs, cs.len() as int, indent, if compact { 0 } else { 1 })
            + seq![Node::SquareBracketClose]);
    }
    rope
}

/// Flow style, the items on lines within the threshold.
fn compose_flow_respect_threshold<M: Model>(
    model: &M,
    renderer: &Renderer,
    value: SeqValue,
    tags: &[(String, String)],
    children: &mut Vec<Rope>,
) -> (r: Rope)
    requires
        items_indent_fit(rope_views(old(children)@), value.spec_styles().spec_indent() as usize),
        items_bytes_fit(rope_views(old(children)@), value.spec_styles().spec_indent() as usize),
        prefix_text_fits(model.spec_tag().spec_bytes(), tags@, value.spec_styles().spec_issue_tag(), value.spec_alias()),
    ensures
        ({
            let n = prefix_count(value.spec_styles().spec_issue_tag(), value.spec_alias());
            let indent = value.spec_styles().spec_indent() as usize;
            let compact = value.spec_styles().spec_compact();
            let cs = rope_views(old(children)@);
            &&& collection_prefix(r@.take(n), model.spec_tag().spec_bytes(), tags@, value.spec_styles().spec_issue_tag(), value.spec_alias(), Node::Space)
            &&& r@.skip(n) == flow_open(compact) + threshold_items(
                cs,
                cs.len() as int,
                indent,
                compact,
                value.spec_styles().spec_threshold() as int,
                nodes_bytes(r@.take(n) + flow_open(compact)).len() as int,
            ).0 + seq![Node::SquareBracketClose]
        }),
        final(children)@.len() == old(children)@.len(),
        forall|i: int| 0 <= i < final(children)@.len() ==> (#[trigger] final(children)@[i])@ == Seq::<Node>::empty(),
{
    let ghost cs = rope_views(children@);
    let ghost alias0 = value.spec_alias();
    let mut value = value;
    let indent = value.styles.indent() as usize;
    let compact = value.styles.compact();
    let threshold = value.styles.threshold() as usize;
    let issue_tag = value.styles.issue_tag();
    let alias = value.take_alias();
    let mut rope = Rope::with_capacity(children.len());
    push_prefix(model, &mut rope, issue_tag, alias, tags, Node::Space);
    let ghost p = rope@;
    rope.push(Node::SquareBracketOpen);
    if !compact {
        rope.push(Node::Space);
    }
    proof {
        assert(p.skip(0) =~= p);
        assert(rope@ =~= p + flow_open(compact));
        lemma_prefix_bytes(p, flow_open(compact), model.spec_tag().spec_bytes(), tags@, issue_tag, alias0);
    }
    knit_threshold(&mut rope, renderer, children, indent, compact, threshold);
    rope.push(Node::SquareBracketClose);
    proof {
        assert(rope@.take(p.len() as int) =~= p);
        assert(rope@.skip(p.len() as int) =~= flow_open(compact) + threshold_items(
            cs,
            cs.len() as int,
            indent,
            compact,
            threshold as int,
            nodes_bytes(p + flow_open(compact)).len() as int,
        ).0 + seq![Node::SquareBracketClose]);
    }
    rope
}

/// Block style: each item after a hyphen.
fn compose_block<M: Model>(model: &M, value: SeqValue, tags: &[(String, String)], children: &mut Vec<Rope>) -> (r: Rope)
    requires
        items_indent_fit(rope_views(old(children)@), value.spec_styles().spec_indent() as usize),
    ensures
        ({
            let n = prefix_count(value.spec_styles().spec_issue_tag(), value.spec_alias());
            let indent = value.spec_styles().spec_indent() as usize;
            let cs = rope_views(old(children)@);
            &&& collection_prefix(r@.take(n), model.spec_tag().spec_bytes(), tags@, value.spec_styles().spec_issue_tag(), value.spec_alias(), Node::NewlineIndent(0))
            &&& r@.skip(n) == seq![Node::HyphenSpace] + seq_items(cs, cs.len() as int, indent, 3)
        }),
        final(children)@.len() == old(children)@.len(),
        forall|i: int| 0 <= i < final(children)@.len() ==> (#[trigger] final(children)@[i])@ == Seq::<Node>::empty(),
{
    let ghost cs = rope_views(children@);
    let mut value = value;
    let indent = value.styles.indent() as usize;
    let issue_tag = value.styles.issue_tag();
    let alias = value.take_alias();
    let mut rope = Rope::with_capacity(children.len());
    push_prefix(model, &mut rope, issue_tag, alias, tags, Node::NewlineIndent(0));
    let ghost p = rope@;
    rope.push(Node::HyphenSpace);
    knit_items(&mut rope, children, indent, 3);
    proof {
        assert(p.skip(0) =~= p);
        assert(rope@.take(p.len() as int) =~= p);
        assert(rope@.skip(p.len() as int) =~= seq![Node::HyphenSpace] + seq_items(cs, cs.len() as int, indent, 3));
    }
    rope
}

/// Writes a sequence (see `seq_rope`) whose items, already written, are
/// `children`; the items are left empty.
pub fn compose<M: Model>(model: &M, renderer: &Renderer, value: TaggedValue, tags: &[(String, String)], children: &mut Vec<Rope>) -> (r: Rope)
    requires
        value is Sequence,
        items_indent_fit(rope_views(old(children)@), value->Sequence_0.spec_styles().spec_indent() as usize),
        value->Sequence_0.spec_styles().spec_flow() && !value->Sequence_0.spec_styles().spec_multiline()
            && value->Sequence_0.spec_styles().spec_respect_threshold() ==> items_bytes_fit(
            rope_views(old(children)@),
            value->Sequence_0.spec_styles().spec_indent() as usize,
        ) && prefix_text_fits(
            model.spec_tag().spec_bytes(),
            tags@,
            value->Sequence_0.spec_styles().spec_issue_tag(),
            value->Sequence_0.spec_alias(),
        ),
    ensures
        seq_rope(
            r@,
            model.spec_tag().spec_bytes(),
            tags@,
            value->Sequence_0.spec_styles(),
            value->Sequence_0.spec_alias(),
            rope_views(old(children)@),
        ),
        final(children)@.len() == old(children)@.len(),
        old(children)@.len() > 0 ==> forall|i: int| 0 <= i < final(children)@.len() ==> (#[trigger] final(children)@[i])@ == Seq::<Node>::empty(),
        old(children)@.len() == 0 ==> final(children)@ == old(children)@,
{
    let value = match value {
        TaggedValue::Sequence(v) => v,
        _ => {
            proof {
                assert(false);
            }
            return Rope::Empty;
        },
    };
    if children.len() == 0 {
        return compose_empty(model, value, tags);
    }
    let styles = value.styles();
    if styles.flow() {
        if styles.multiline() {
            compose_flow_multiline(model, value, tags, children)
        } else if styles.respect_threshold() {
            compose_flow_respect_threshold(model, renderer, value, tags, children)
        } else {
            compose_flow_no_threshold(model, value, tags, children)
        }
    } else {
        compose_block(model, value, tags, children)
    }
}

/// Knits the items after `rope` in flow style within a line length
/// threshold (see `threshold_items`); the items are left empty.
fn knit_threshold(rope: &mut Rope, renderer: &Renderer, children: &mut Vec<Rope>, indent: usize, compact: bool, threshold: usize)
    requires
        items_indent_fit(rope_views(old(children)@), indent),
        items_bytes_fit(rope_views(old(children)@), indent),
        nodes_bytes(old(rope)@).len() <= usize::MAX,
    ensures
        final(rope)@ == old(rope)@ + threshold_items(
            rope_views(old(children)@),
            old(children)@.len() as int,
            indent,
            compact,
            threshold as int,
            nodes_bytes(old(rope)@).len() as int,
        ).0,
        final(children)@.len() == old(children)@.len(),
        forall|i: int| 0 <= i < final(children)@.len() ==> (#[trigger] final(children)@[i])@ == Seq::<Node>::empty(),
{
    let ghost cs = rope_views(children@);
    let ghost base = rope@;
    let ghost start = nodes_bytes(rope@).len() as int;
    let n = children.len();
    let mut line_len: u128 = rope.bytes_len(renderer) as u128;
    let mut i: usize = 0;
    while i < n
        invariant
            n == children@.len(),
            cs.len() == n,
            i <= n,
            items_indent_fit(cs, indent),
            items_bytes_fit(cs, indent),
            forall|j: int| i <= j < n ==> (#[trigger] children@[j])@ == cs[j],
            forall|j: int| 0 <= j < i ==> (#[trigger] children@[j])@ == Seq::<Node>::empty(),
            rope@ == base + threshold_items(cs, i as int, indent, compact, threshold as int, start).0,
            line_len == threshold_items(cs, i as int, indent, compact, threshold as int, start).1,
            line_len <= 2 * (usize::MAX as u128) + 2,
            i > 1 ==> line_len <= usize::MAX,
            i == 0 ==> line_len <= usize::MAX,
        decreases n - i,
    {
        let child: &mut Rope = &mut children[i];
        assert(indent_fits(cs[i as int], indent));
        child.indent(indent);
        let ghost c = child@;
        proof {
            assert(c == nodes_indented(cs[i as int], indent));
            assert(nodes_bytes(nodes_indented(cs[i as int], indent)).len() <= usize::MAX);
        }
        let (first_len, _) = child.first_line_bytes_len(renderer);
        proof {
            lemma_line_scan_bound(c);
        }
        line_len = line_len + (if compact { 1 } else { 2 }) + first_len as u128;
        if i != 0 {
            if line_len > threshold as u128 {
                rope.push(Node::CommaNewlineIndent(0));
                let (last_len, _) = child.last_line_bytes_len(renderer);
                line_len = last_len as u128;
            } else if compact {
                rope.push(Node::Comma);
            } else {
                rope.push(Node::CommaSpace);
            }
        }
        rope.knit(child);
        if i + 1 == n && !compact {
            rope.push(Node::Space);
        }
        proof {
            assert(rope@ =~= base + threshold_items(cs, i + 1, indent, compact, threshold as int, start).0);
        }
        i = i + 1;
    }
}

impl Sequence {
    pub fn get_tag() -> (r: &'static str)
        ensures
            r == TAG,
    {
        TAG
    }
}

impl Model for Sequence {
    fn is_metamodel(&self) -> (r: bool) {
        false
    }

    fn is_decodable(&self) -> (r: bool) {
        false
    }

    fn is_encodable(&self) -> (r: bool) {
        false
    }

    fn has_default(&self) -> (r: bool) {
        false
    }

    fn is_dictionary(&self) -> (r: bool) {
        false
    }

    open spec fn spec_tag(&self) -> &'static str {
        TAG
    }

    fn get_tag(&self) -> (r: &'static str) {
        TAG
    }

    open spec fn spec_is_sequence(&self) -> bool {
        true
    }

    fn is_sequence(&self) -> (r: bool)
        ensures
            r,
    {
        true
    }
}

} // verus!
