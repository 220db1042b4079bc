//! A rope: a sequence of output nodes that is rendered in one go.
use vstd::prelude::*;
use vstd::slice::slice_subrange;

use crate::model::renderer::{
    node_bytes, node_indent_of, node_indented, spec_is_flow_dict_opening, spec_is_flow_opening,
    spec_is_newline, Node, Renderer,
};

verus! {

/// A sequence of nodes.
#[derive(Debug)]
pub enum Rope {
    Empty,
    Node([Node; 1]),
    Many(Vec<Node>),
}

impl View for Rope {
    type V = Seq<Node>;

    open spec fn view(&self) -> Seq<Node> {
        match self {
            Rope::Empty => Seq::empty(),
            Rope::Node(n) => n@,
            Rope::Many(v) => v@,
        }
    }
}

/// The bytes that a sequence of nodes renders to.
pub open spec fn nodes_bytes(nodes: Seq<Node>) -> Seq<u8>
    decreases nodes.len(),
{
    if nodes.len() == 0 {
        Seq::empty()
    } else {
        nodes_bytes(nodes.drop_last()) + node_bytes(nodes.last())
    }
}

/// How many bytes of a line-ending node belong to the line that it ends.
pub open spec fn line_end_len(node: Node) -> Option<nat> {
    match node {
        Node::StringNewline(s) => Some(s@.len()),
        Node::Newline | Node::NewlineIndent(_) | Node::NewlineIndentHyphenSpace(_)
        | Node::NewlineIndentQuestionSpace(_) => Some(0),
        Node::CommaNewlineIndent(_) => Some(1),
        Node::ColonNewlineIndent(_) | Node::ColonNewline => Some(1),
        Node::QuestionNewlineIndent(_) | Node::QuestionNewline => Some(1),
        Node::TripleHyphenNewline | Node::TripleDotNewline => Some(3),
        _ => None,
    }
}

/// Scanning from the front: the byte length up to the first line end, and
/// whether a line end was met.
pub open spec fn line_scan(nodes: Seq<Node>) -> (nat, bool)
    decreases nodes.len(),
{
    if nodes.len() == 0 {
        (0, false)
    } else {
        match line_end_len(nodes[0]) {
            Some(c) => (c, true),
            None => {
                let r = line_scan(nodes.drop_first());
                (node_bytes(nodes[0]).len() + r.0, r.1)
            },
        }
    }
}

/// Scanning from the back: the byte length up to the last line end, and
/// whether a line end was met.
pub open spec fn line_scan_rev(nodes: Seq<Node>) -> (nat, bool)
    decreases nodes.len(),
{
    if nodes.len() == 0 {
        (0, false)
    } else {
        match line_end_len(nodes.last()) {
            Some(c) => (c, true),
            None => {
                let r = line_scan_rev(nodes.drop_last());
                (node_bytes(nodes.last()).len() + r.0, r.1)
            },
        }
    }
}

/// A rope is multiline when some line end comes before some node that is no
/// line end.
pub open spec fn nodes_multiline(nodes: Seq<Node>) -> bool {
    exists|i: int, j: int|
        0 <= i < j < nodes.len() && spec_is_newline(#[trigger] nodes[i]) && !spec_is_newline(
            #[trigger] nodes[j],
        )
}

/// Where the chunk that `unrope` hands out ends: scanning from `last` with
/// `tot` bytes gathered so far, the chunk grows node by node until it reaches
/// `threshold` bytes; the node that makes it reach the threshold is left out
/// unless it is the first one. Gives the last index taken and the length.
pub open spec fn chunk_scan(nodes: Seq<Node>, first: int, last: int, tot: nat, threshold: nat) -> (
    int,
    nat,
)
    decreases nodes.len() - last,
{
    if last < 0 || last >= nodes.len() {
        (last, tot)
    } else {
        let t = tot + node_bytes(nodes[last]).len();
        if t >= threshold {
            if first == last {
                (last, t)
            } else {
                (last - 1, tot)
            }
        } else if last == nodes.len() - 1 {
            (last, t)
        } else {
            chunk_scan(nodes, first, last + 1, t, threshold)
        }
    }
}

/// The node sequence with every indentation grown by `len`.
pub open spec fn nodes_indented(nodes: Seq<Node>, len: usize) -> Seq<Node> {
    nodes.map_values(|n: Node| node_indented(n, len))
}

/// Whether growing every indentation by `len` stays within `usize`.
pub open spec fn indent_fits(nodes: Seq<Node>, len: usize) -> bool {
    forall|i: int|
        0 <= i < nodes.len() ==> (node_indent_of(#[trigger] nodes[i]) matches Some(size) ==> size
            + len <= usize::MAX)
}

proof fn lemma_nodes_bytes_first(nodes: Seq<Node>)
    requires
        nodes.len() > 0,
    ensures
        nodes_bytes(nodes) == node_bytes(nodes[0]) + nodes_bytes(nodes.drop_first()),
    decreases nodes.len(),
{
    if nodes.len() == 1 {
        assert(nodes.drop_last() =~= Seq::<Node>::empty());
        assert(nodes.drop_first() =~= Seq::<Node>::empty());
        assert(nodes_bytes(nodes.drop_first()) =~= Seq::<u8>::empty());
        assert(nodes_bytes(nodes.drop_last()) =~= Seq::<u8>::empty());
        assert(nodes_bytes(nodes) =~= node_bytes(nodes[0]) + nodes_bytes(nodes.drop_first()));
    } else {
        lemma_nodes_bytes_first(nodes.drop_last());
        assert(nodes.drop_last().drop_first() =~= nodes.drop_first().drop_last());
        assert(nodes.drop_first().last() == nodes.last());
        assert(nodes.drop_last()[0] == nodes[0]);
        assert(nodes_bytes(nodes) =~= node_bytes(nodes[0]) + nodes_bytes(nodes.drop_first()));
    }
}

/// The bytes of two node sequences one after the other.
pub proof fn lemma_nodes_bytes_append(a: Seq<Node>, b: Seq<Node>)
    ensures
        nodes_bytes(a + b) == nodes_bytes(a) + nodes_bytes(b),
    decreases b.len(),
{
    if b.len() == 0 {
        assert(a + b =~= a);
        assert(nodes_bytes(a) + nodes_bytes(b) =~= nodes_bytes(a));
    } else {
        lemma_nodes_bytes_append(a, b.drop_last());
        assert((a + b).drop_last() =~= a + b.drop_last());
        assert((a + b).last() == b.last());
        assert(nodes_bytes(a + b) =~= nodes_bytes(a) + nodes_bytes(b));
    }
}

pub proof fn lemma_line_scan_bound(nodes: Seq<Node>)
    ensures
        line_scan(nodes).0 <= nodes_bytes(nodes).len(),
    decreases nodes.len(),
{
    if nodes.len() > 0 {
        lemma_nodes_bytes_first(nodes);
        lemma_line_scan_bound(nodes.drop_first());
        match nodes[0] {
            Node::StringNewline(s) => {}
            _ => {}
        }
    }
}

proof fn lemma_line_scan_rev_bound(nodes: Seq<Node>)
    ensures
        line_scan_rev(nodes).0 <= nodes_bytes(nodes).len(),
    decreases nodes.len(),
{
    if nodes.len() > 0 {
        lemma_line_scan_rev_bound(nodes.drop_last());
    }
}

proof fn lemma_nodes_bytes_prefix(nodes: Seq<Node>, i: int)
    requires
        0 <= i <= nodes.len(),
    ensures
        nodes_bytes(nodes.subrange(0, i)).len() <= nodes_bytes(nodes).len(),
{
    lemma_nodes_bytes_append(nodes.subrange(0, i), nodes.subrange(i, nodes.len() as int));
    assert(nodes.subrange(0, i) + nodes.subrange(i, nodes.len() as int) =~= nodes);
}

proof fn lemma_node_le_total(nodes: Seq<Node>, i: int)
    requires
        0 <= i < nodes.len(),
    ensures
        node_bytes(nodes[i]).len() <= nodes_bytes(nodes).len(),
{
    lemma_nodes_bytes_prefix(nodes, i + 1);
    assert(nodes.subrange(0, i + 1).drop_last() =~= nodes.subrange(0, i));
}


proof fn lemma_span_step(nodes: Seq<Node>, first: int, last: int)
    requires
        0 <= first <= last < nodes.len(),
    ensures
        nodes_bytes(nodes.subrange(first, last + 1)).len() == nodes_bytes(
            nodes.subrange(first, last),
        ).len() + node_bytes(nodes[last]).len(),
        nodes_bytes(nodes.subrange(first, last + 1)).len() <= nodes_bytes(nodes).len(),
{
    assert(nodes.subrange(first, last + 1).drop_last() =~= nodes.subrange(first, last));
    lemma_nodes_bytes_append(nodes.subrange(0, first), nodes.subrange(first, last + 1));
    assert(nodes.subrange(0, first) + nodes.subrange(first, last + 1) =~= nodes.subrange(
        0,
        last + 1,
    ));
    lemma_nodes_bytes_prefix(nodes, last + 1);
}

impl Rope {
    /// The bytes that the rope renders to.
    pub open spec fn spec_bytes(&self) -> Seq<u8> {
        nodes_bytes(self@)
    }

    /// An empty rope with room for `size` nodes.
    pub fn with_capacity(size: usize) -> (r: Rope)
        ensures
            r is Many,
            r@ == Seq::<Node>::empty(),
    {
        Rope::Many(Vec::with_capacity(size))
    }

    /// Removes every node.
    pub fn clear(&mut self)
        ensures
            final(self)@ == Seq::<Node>::empty(),
    {
        let is_many = match self {
            Rope::Many(_) => true,
            _ => false,
        };
        if is_many {
            match self {
                Rope::Many(vec) => { vec.clear(); }
                _ => {}
            }
        } else {
            *self = Rope::Empty;
        }
    }

    /// The number of nodes.
    pub fn len(&self) -> (r: usize)
        ensures
            r == self@.len(),
    {
        match self {
            Rope::Empty => 0,
            Rope::Node(_) => 1,
            Rope::Many(nodes) => nodes.len(),
        }
    }

    /// Whether some line end is followed by a node that is no line end.
    pub fn is_multiline(&self) -> (r: bool)
        ensures
            r == nodes_multiline(self@),
    {
        match self {
            Rope::Many(nodes) => {
                let len = nodes.len();
                if len <= 1 {
                    return false;
                }
                let mut passed_nls = false;
                let mut k: usize = len;
                // walk from the back; `passed_nls` records a node that is no line end
                while k > 0
                    invariant
                        k <= len,
                        len == nodes@.len(),
                        self@ == nodes@,
                        passed_nls <==> exists|j: int|
                            k <= j < len && !spec_is_newline(#[trigger] nodes@[j]),
                        forall|i: int, j: int|
                            k <= i < j < len ==> !(spec_is_newline(#[trigger] nodes@[i])
                                && !spec_is_newline(#[trigger] nodes@[j])),
                    decreases k,
                {
                    k = k - 1;
                    let node = &nodes[k];
                    if node.is_newline() {
                        if passed_nls {
                            proof {
                                let j = choose|j: int|
                                    k + 1 <= j < len && !spec_is_newline(#[trigger] nodes@[j]);
                                assert(spec_is_newline(nodes@[k as int]) && !spec_is_newline(
                                    nodes@[j],
                                ));
                                assert(nodes_multiline(nodes@));
                            }
                            return true;
                        }
                    } else if !passed_nls {
                        passed_nls = true;
                    }
                }
                false
            }
            _ => false,
        }
    }

    /// Whether the first node opens a flow collection or a quoted scalar.
    pub fn is_flow_opening(&self) -> (r: bool)
        ensures
            r == (self@.len() > 0 && spec_is_flow_opening(self@[0])),
    {
        match self {
            Rope::Empty => false,
            Rope::Node(nodes) => nodes[0].is_flow_opening(),
            Rope::Many(nodes) => nodes.len() > 0 && nodes[0].is_flow_opening(),
        }
    }

    /// Whether the first node opens a flow mapping.
    pub fn is_flow_dict_opening(&self) -> (r: bool)
        ensures
            r == (self@.len() > 0 && spec_is_flow_dict_opening(self@[0])),
    {
        match self {
            Rope::Empty => false,
            Rope::Node(nodes) => nodes[0].is_flow_dict_opening(),
            Rope::Many(nodes) => nodes.len() > 0 && nodes[0].is_flow_dict_opening(),
        }
    }

    /// The length of the last line, and whether the rope holds a line end.
    pub fn last_line_bytes_len(&self, renderer: &Renderer) -> (r: (usize, bool))
        requires
            self.spec_bytes().len() <= usize::MAX,
        ensures
            r.0 == line_scan_rev(self@).0,
            r.1 == line_scan_rev(self@).1,
    {
        match self {
            Rope::Empty => (0, false),
            Rope::Node(nodes) => Self::scan_back(renderer, nodes.as_slice()),
            Rope::Many(nodes) => Self::scan_back(renderer, nodes.as_slice()),
        }
    }

    /// The length of the first line, and whether the rope holds a line end.
    pub fn first_line_bytes_len(&self, renderer: &Renderer) -> (r: (usize, bool))
        requires
            self.spec_bytes().len() <= usize::MAX,
        ensures
            r.0 == line_scan(self@).0,
            r.1 == line_scan(self@).1,
    {
        match self {
            Rope::Empty => (0, false),
            Rope::Node(nodes) => Self::scan_front(renderer, nodes.as_slice()),
            Rope::Many(nodes) => Self::scan_front(renderer, nodes.as_slice()),
        }
    }

    fn line_end_bytes(renderer: &Renderer, node: &Node) -> (r: Option<usize>)
        ensures
            match line_end_len(*node) {
                Some(c) => r == Some(c as usize),
                None => r.is_none(),
            },
    {
        match node {
            Node::StringNewline(s) => Some(s.len()),
            Node::Newline => Some(0),
            Node::NewlineIndent(_) => Some(0),
            Node::NewlineIndentHyphenSpace(_) => Some(0),
            Node::NewlineIndentQuestionSpace(_) => Some(0),
            Node::CommaNewlineIndent(_) => Some(renderer.node_len(&Node::Comma)),
            Node::ColonNewlineIndent(_) | Node::ColonNewline => Some(renderer.node_len(&Node::Colon)),
            Node::QuestionNewlineIndent(_) | Node::QuestionNewline => Some(
                renderer.node_len(&Node::Question),
            ),
            Node::TripleHyphenNewline => Some(renderer.node_len(&Node::Hyphen) * 3),
            Node::TripleDotNewline => Some(renderer.node_len(&Node::Dot) * 3),
            _ => None,
        }
    }

    fn scan_front(renderer: &Renderer, nodes: &[Node]) -> (r: (usize, bool))
        requires
            nodes_bytes(nodes@).len() <= usize::MAX,
        ensures
            r.0 == line_scan(nodes@).0,
            r.1 == line_scan(nodes@).1,
    {
        let mut len: usize = 0;
        let mut i: usize = 0;
        proof {
            lemma_line_scan_bound(nodes@);
            assert(nodes@.skip(0) =~= nodes@);
        }
        while i < nodes.len()
            invariant
                i <= nodes@.len(),
                line_scan(nodes@).0 == len + line_scan(nodes@.skip(i as int)).0,
                line_scan(nodes@).1 == line_scan(nodes@.skip(i as int)).1,
                line_scan(nodes@).0 <= usize::MAX,
            decreases nodes@.len() - i,
        {
            let ghost rest = nodes@.skip(i as int);
            assert(rest[0] == nodes@[i as int]);
            assert(rest.drop_first() =~= nodes@.skip(i + 1));
            match Self::line_end_bytes(renderer, &nodes[i]) {
                Some(c) => {
                    return (len + c, true);
                }
                None => {
                    proof {
                        lemma_node_le_total(nodes@, i as int);
                    }
                    len = len + renderer.node_len(&nodes[i]);
                    i = i + 1;
                }
            }
        }
        proof {
            assert(nodes@.skip(i as int).len() == 0);
        }
        (len, false)
    }

    fn scan_back(renderer: &Renderer, nodes: &[Node]) -> (r: (usize, bool))
        requires
            nodes_bytes(nodes@).len() <= usize::MAX,
        ensures
            r.0 == line_scan_rev(nodes@).0,
            r.1 == line_scan_rev(nodes@).1,
    {
        let mut len: usize = 0;
        let mut k: usize = nodes.len();
        proof {
            lemma_line_scan_rev_bound(nodes@);
            assert(nodes@.subrange(0, k as int) =~= nodes@);
        }
        while k > 0
            invariant
                k <= nodes@.len(),
                line_scan_rev(nodes@).0 == len + line_scan_rev(nodes@.subrange(0, k as int)).0,
                line_scan_rev(nodes@).1 == line_scan_rev(nodes@.subrange(0, k as int)).1,
                line_scan_rev(nodes@).0 <= usize::MAX,
            decreases k,
        {
            let ghost rest = nodes@.subrange(0, k as int);
            assert(rest.last() == nodes@[k - 1]);
            assert(rest.drop_last() =~= nodes@.subrange(0, k - 1));
            match Self::line_end_bytes(renderer, &nodes[k - 1]) {
                Some(c) => {
                    return (len + c, true);
                }
                None => {
                    proof {
                        lemma_node_le_total(nodes@, k - 1);
                    }
                    len = len + renderer.node_len(&nodes[k - 1]);
                    k = k - 1;
                }
            }
        }
        (len, false)
    }

    /// The number of bytes that the rope renders to.
    pub fn bytes_len(&self, renderer: &Renderer) -> (r: usize)
        requires
            self.spec_bytes().len() <= usize::MAX,
        ensures
            r == self.spec_bytes().len(),
    {
        match self {
            Rope::Empty => {
                assert(self@ =~= Seq::<Node>::empty());
                assert(nodes_bytes(self@) =~= Seq::<u8>::empty());
                0
            }
            Rope::Node(node) => {
                proof {
                    assert(self@.drop_last() =~= Seq::<Node>::empty());
                    assert(nodes_bytes(self@.drop_last()) =~= Seq::<u8>::empty());
                    assert(nodes_bytes(self@) =~= node_bytes(node[0]));
                }
                renderer.node_len(&node[0])
            }
            Rope::Many(nodes) => {
                let mut size: usize = 0;
                let mut i: usize = 0;
                while i < nodes.len()
                    invariant
                        i <= nodes@.len(),
                        size == nodes_bytes(nodes@.subrange(0, i as int)).len(),
                        nodes_bytes(nodes@).len() <= usize::MAX,
                    decreases nodes@.len() - i,
                {
                    proof {
                        lemma_nodes_bytes_prefix(nodes@, i + 1);
                        assert(nodes@.subrange(0, i + 1).drop_last() =~= nodes@.subrange(
                            0,
                            i as int,
                        ));
                    }
                    size = size + renderer.node_len(&nodes[i]);
                    i = i + 1;
                }
                assert(nodes@.subrange(0, i as int) =~= nodes@);
                size
            }
        }
    }

    /// The number of bytes that the rope renders to, where it fits in a
    /// `usize`.
    pub fn checked_bytes_len(&self, renderer: &Renderer) -> (r: Option<usize>)
        ensures
            match r {
                Some(n) => n == self.spec_bytes().len(),
                None => self.spec_bytes().len() > usize::MAX,
            },
    {
        match self {
            Rope::Empty => {
                assert(self@ =~= Seq::<Node>::empty());
                assert(nodes_bytes(self@) =~= Seq::<u8>::empty());
                Some(0)
            },
            Rope::Node(node) => {
                proof {
                    assert(self@.drop_last() =~= Seq::<Node>::empty());
                    assert(nodes_bytes(self@.drop_last()) =~= Seq::<u8>::empty());
                    assert(nodes_bytes(self@) =~= node_bytes(node[0]));
                }
                renderer.checked_node_len(&node[0])
            },
            Rope::Many(nodes) => {
                let mut size: usize = 0;
                let mut i: usize = 0;
                while i < nodes.len()
                    invariant
                        i <= nodes@.len(),
                        nodes@ == self@,
                        size == nodes_bytes(nodes@.subrange(0, i as int)).len(),
                    decreases nodes@.len() - i,
                {
                    proof {
                        lemma_nodes_bytes_prefix(nodes@, i + 1);
                        assert(nodes@.subrange(0, i + 1).drop_last() =~= nodes@.subrange(0, i as int));
                    }
                    match renderer.checked_node_len(&nodes[i]) {
                        Some(n) => match size.checked_add(n) {
                            Some(total) => {
                                size = total;
                            },
                            None => {
                                return None;
                            },
                        },
                        None => {
                            return None;
                        },
                    }
                    i = i + 1;
                }
                assert(nodes@.subrange(0, i as int) =~= nodes@);
                Some(size)
            },
        }
    }

    /// Renders every node, in order.
    pub fn render(self, renderer: &Renderer) -> (r: Vec<u8>)
        ensures
            r@ == self.spec_bytes(),
    {
        let mut vec: Vec<u8> = Vec::new();
        let ghost orig = self@;
        match self {
            Rope::Empty => {}
            Rope::Node(mut node) => {
                assert(node@ == orig);
                let mut n = Node::Empty;
                std::mem::swap(&mut n, &mut node[0]);
                assert(n == orig[0]);
                proof {
                    assert(orig.drop_last() =~= Seq::<Node>::empty());
                    assert(nodes_bytes(orig.drop_last()) =~= Seq::<u8>::empty());
                    assert(n == orig.last());
                }
                renderer.render_into_vec(&mut vec, n);
                assert(vec@ =~= nodes_bytes(orig));
            }
            Rope::Many(nodes) => {
                let ghost all = nodes@;
                let mut i: usize = 0;
                for node in it: nodes
                    invariant
                        it.seq() == all,
                        vec@ == nodes_bytes(all.subrange(0, it.index() as int)),
                {
                    proof {
                        assert(all.subrange(0, it.index() + 1).drop_last() =~= all.subrange(
                            0,
                            it.index() as int,
                        ));
                    }
                    renderer.render_into_vec(&mut vec, node);
                }
                assert(all.subrange(0, all.len() as int) =~= all);
            }
        }
        vec
    }

    /// Appends a node.
    pub fn push(&mut self, node: Node)
        ensures
            final(self)@ == old(self)@.push(node),
    {
        let mut rope = Rope::Empty;
        std::mem::swap(&mut rope, self);
        let mut vec = match rope {
            Rope::Empty => Vec::with_capacity(1),
            Rope::Node(mut arr) => {
                let mut nd = Node::Empty;
                std::mem::swap(&mut nd, &mut arr[0]);
                let mut v = Vec::with_capacity(2);
                v.push(nd);
                v
            }
            Rope::Many(v) => v,
        };
        vec.push(node);
        *self = Rope::Many(vec);
        assert(self@ =~= old(self)@.push(node));
    }

    /// Grows the indentation of every node that has one by `len`.
    pub fn indent(&mut self, len: usize)
        requires
            indent_fits(old(self)@, len),
        ensures
            final(self)@ == nodes_indented(old(self)@, len),
    {
        let mut rope = Rope::Empty;
        std::mem::swap(&mut rope, self);
        match rope {
            Rope::Empty => {
                assert(nodes_indented(old(self)@, len) =~= Seq::<Node>::empty());
            }
            Rope::Node(mut arr) => {
                assert(node_indent_of(old(self)@[0]) matches Some(size) ==> size + len <= usize::MAX);
                arr[0].indent(len);
                *self = Rope::Node(arr);
                assert(self@ =~= nodes_indented(old(self)@, len));
            }
            Rope::Many(nodes) => {
                let ghost all = nodes@;
                let mut out: Vec<Node> = Vec::with_capacity(nodes.len());
                for node in it: nodes
                    invariant
                        it.seq() == all,
                        all == old(self)@,
                        indent_fits(all, len),
                        out@ == nodes_indented(all.subrange(0, it.index() as int), len),
                {
                    let mut node = node;
                    assert(node == all[it.index() as int]);
                    node.indent(len);
                    out.push(node);
                    assert(out@ =~= nodes_indented(all.subrange(0, it.index() + 1), len));
                }
                assert(all.subrange(0, all.len() as int) =~= all);
                *self = Rope::Many(out);
            }
        }
    }

    /// Moves every node of `rope` to the end of this rope; `rope` is left empty.
    pub fn knit(&mut self, rope: &mut Rope)
        ensures
            final(self)@ == old(self)@ + old(rope)@,
            final(rope)@ == Seq::<Node>::empty(),
    {
        let mut front = Rope::Empty;
        std::mem::swap(&mut front, self);
        let mut back = Rope::Empty;
        std::mem::swap(&mut back, rope);
        match front {
            Rope::Empty => {
                *self = back;
                assert(self@ =~= old(self)@ + old(rope)@);
            }
            Rope::Node(mut arr) => {
                let mut nd = Node::Empty;
                std::mem::swap(&mut nd, &mut arr[0]);
                let mut vec = Vec::with_capacity(1);
                vec.push(nd);
                Self::append_into(&mut vec, back);
                *self = Rope::Many(vec);
                assert(self@ =~= old(self)@ + old(rope)@);
            }
            Rope::Many(mut vec) => {
                Self::append_into(&mut vec, back);
                *self = Rope::Many(vec);
            }
        }
    }

    fn append_into(vec: &mut Vec<Node>, rope: Rope)
        ensures
            final(vec)@ == old(vec)@ + rope@,
    {
        match rope {
            Rope::Empty => {
                assert(vec@ =~= old(vec)@ + rope@);
            }
            Rope::Node(mut arr) => {
                let ghost orig = arr@;
                let mut nd = Node::Empty;
                std::mem::swap(&mut nd, &mut arr[0]);
                vec.push(nd);
                assert(vec@ =~= old(vec)@ + orig);
            }
            Rope::Many(mut other) => {
                vec.append(&mut other);
            }
        }
    }

    /// Hands out, through `ptr`, the chunk of nodes that starts at `index` and
    /// stays under `threshold` bytes (at least one node). Gives its byte length,
    /// the index just past it, and whether it reaches the end of the rope.
    pub fn unrope<'a>(
        &'a self,
        ptr: &mut &'a [Node],
        renderer: &Renderer,
        index: usize,
        threshold: usize,
    ) -> (r: (usize, usize, bool))
        requires
            self.spec_bytes().len() <= usize::MAX,
        ensures
            ({
                let nodes = self@;
                match self {
                    Rope::Many(_) => if index >= nodes.len() {
                        final(ptr)@ == Seq::<Node>::empty() && r == (0usize, 0usize, true)
                    } else {
                        let (l, t) = chunk_scan(nodes, index as int, index as int, 0, threshold as nat);
                        &&& final(ptr)@ == nodes.subrange(index as int, l + 1)
                        &&& r.0 == t
                        &&& r.1 == l + 1
                        &&& r.2 == (l + 1 == nodes.len())
                    },
                    Rope::Node(_) => if index == 0 {
                        final(ptr)@ == nodes && r == (node_bytes(nodes[0]).len() as usize, 0usize, true)
                    } else {
                        final(ptr)@ == Seq::<Node>::empty() && r == (0usize, 0usize, true)
                    },
                    Rope::Empty => final(ptr)@ == Seq::<Node>::empty() && r == (0usize, 0usize, true),
                }
            }),
    {
        match self {
            Rope::Empty => {
                *ptr = &[];
                (0, 0, true)
            }
            Rope::Node(node) => {
                if index == 0 {
                    proof {
                        assert(self@.drop_last() =~= Seq::<Node>::empty());
                        assert(nodes_bytes(self@.drop_last()) =~= Seq::<u8>::empty());
                        assert(nodes_bytes(self@) =~= node_bytes(node[0]));
                    }
                    *ptr = node.as_slice();
                    (renderer.node_len(&node[0]), 0, true)
                } else {
                    *ptr = &[];
                    (0, 0, true)
                }
            }
            Rope::Many(nodes) => {
                if index >= nodes.len() {
                    *ptr = &[];
                    (0, 0, true)
                } else {
                    let len = nodes.len();
                    let first = index;
                    let mut last = index;
                    let mut tot_len: usize = 0;
                    let ghost target = chunk_scan(nodes@, first as int, first as int, 0, threshold as nat);
                    proof {
                        assert(nodes@.subrange(first as int, first as int) =~= Seq::<Node>::empty());
                        assert(nodes_bytes(Seq::<Node>::empty()) =~= Seq::<u8>::empty());
                    }
                    loop
                        invariant_except_break
                            tot_len == nodes_bytes(nodes@.subrange(first as int, last as int)).len(),
                            target == chunk_scan(nodes@, first as int, last as int, tot_len as nat, threshold as nat),
                        invariant
                            len == nodes@.len(),
                            first <= last < len,
                            nodes_bytes(nodes@).len() <= usize::MAX,
                        ensures
                            first <= last < len,
                            target == (last as int, tot_len as nat),
                        decreases len - last,
                    {
                        proof {
                            lemma_span_step(nodes@, first as int, last as int);
                        }
                        let nlen = renderer.node_len(&nodes[last]);
                        let before = tot_len;
                        tot_len = tot_len + nlen;
                        if tot_len >= threshold {
                            if first == last {
                            } else {
                                last = last - 1;
                                tot_len = before;
                            }
                            break;
                        }
                        if last == len - 1 {
                            break;
                        }
                        last = last + 1;
                    }
                    last = last + 1;
                    *ptr = slice_subrange(nodes.as_slice(), first, last);
                    (tot_len, last, last == len)
                }
            }
        }
    }
}

} // verus!
