use vstd::prelude::*;

use crate::render_queue::RenderCommand;

verus! {

/// A 3x3 transform matrix, column-major, each entry held as the IEEE-754
/// bit pattern of a 32-bit float.
#[derive(Clone, Copy, Debug, PartialEq, Eq)]
pub struct Transform {
    pub cols: [u32; 9],
}

/// A node of the render tree.
#[derive(PartialEq)]
pub enum Node {
    /// Children that overwrite what lies beneath them.
    Overwrite { commands: Vec<Node> },
    /// Children blended over each other, in order.
    Blend { layers: Vec<Node> },
    /// A circle; `radius_bits` is the bit pattern of its 32-bit float radius.
    Circle { radius_bits: u32, transform: Transform },
}

/// Command code that closes a blend group.
pub const BLEND_COMMAND: u32 = 1;

/// Command code that draws a circle with the next transform of the stream.
pub const CIRCLE_COMMAND: u32 = 2;

/// The command stream of a node: its children's streams in order, then,
/// for a blend, one blend command; a circle is one circle command.
pub open spec fn node_commands(node: Node) -> Seq<RenderCommand>
    decreases node,
{
    match node {
        Node::Overwrite { commands } => nodes_commands(commands@),
        Node::Blend { layers } => nodes_commands(layers@).push(
            RenderCommand { id: 0, command: BLEND_COMMAND },
        ),
        Node::Circle { .. } => seq![RenderCommand { id: 0, command: CIRCLE_COMMAND }],
    }
}

/// The command streams of a sequence of nodes, concatenated in order.
pub open spec fn nodes_commands(nodes: Seq<Node>) -> Seq<RenderCommand>
    decreases nodes,
{
    if nodes.len() == 0 {
        Seq::empty()
    } else {
        nodes_commands(nodes.subrange(0, nodes.len() - 1)) + node_commands(nodes[nodes.len() - 1])
    }
}

/// The transform stream of a node: the transforms of its circles, in the
/// order in which the command stream draws them.
pub open spec fn node_transforms(node: Node) -> Seq<Transform>
    decreases node,
{
    match node {
        Node::Overwrite { commands } => nodes_transforms(commands@),
        Node::Blend { layers } => nodes_transforms(layers@),
        Node::Circle { transform, .. } => seq![transform],
    }
}

/// The transform streams of a sequence of nodes, concatenated in order.
pub open spec fn nodes_transforms(nodes: Seq<Node>) -> Seq<Transform>
    decreases nodes,
{
    if nodes.len() == 0 {
        Seq::empty()
    } else {
        nodes_transforms(nodes.subrange(0, nodes.len() - 1)) + node_transforms(
            nodes[nodes.len() - 1],
        )
    }
}

/// Flattens a render tree into the command stream and the transform stream
/// that the compute shader reads.
pub fn derive_buffers_from_node(node: &Node) -> (r: (Vec<RenderCommand>, Vec<Transform>))
    ensures
        r.0@ == node_commands(*node),
        r.1@ == node_transforms(*node),
    decreases *node, 1nat,
{
    match node {
        Node::Overwrite { commands } => derive_buffers_from_nodes(commands, Ghost(*node)),
        Node::Blend { layers } => {
            let (mut v, t) = derive_buffers_from_nodes(layers, Ghost(*node));
            v.push(RenderCommand { id: 0, command: BLEND_COMMAND });
            (v, t)
        },
        Node::Circle { radius_bits: _, transform } => {
            let mut v: Vec<RenderCommand> = Vec::new();
            let mut t: Vec<Transform> = Vec::new();
            v.push(RenderCommand { id: 0, command: CIRCLE_COMMAND });
            t.push(*transform);
            (v, t)
        },
    }
}

/// The streams of the children of `parent`, concatenated in order.
fn derive_buffers_from_nodes(nodes: &Vec<Node>, Ghost(parent): Ghost<Node>) -> (r: (
    Vec<RenderCommand>,
    Vec<Transform>,
))
    requires
        parent matches Node::Overwrite { commands } ==> commands == *nodes,
        parent matches Node::Blend { layers } ==> layers == *nodes,
        !(parent is Circle),
    ensures
        r.0@ == nodes_commands(nodes@),
        r.1@ == nodes_transforms(nodes@),
    decreases parent, 0nat,
{
    let mut v: Vec<RenderCommand> = Vec::new();
    let mut t: Vec<Transform> = Vec::new();
    let n: usize = nodes.len();
    for i in 0..n
        invariant
            n == nodes@.len(),
            parent matches Node::Overwrite { commands } ==> commands == *nodes,
            parent matches Node::Blend { layers } ==> layers == *nodes,
            !(parent is Circle),
            v@ == nodes_commands(nodes@.subrange(0, i as int)),
            t@ == nodes_transforms(nodes@.subrange(0, i as int)),
    {
        proof {
            assert(decreases_to!(parent => nodes@[i as int]));
        }
        let (mut a, mut b) = derive_buffers_from_node(&nodes[i]);
        v.append(&mut a);
        t.append(&mut b);
        proof {
            let s = nodes@.subrange(0, i + 1);
            assert(s.subrange(0, s.len() - 1) =~= nodes@.subrange(0, i as int));
        }
    }
    proof {
        assert(nodes@.subrange(0, n as int) =~= nodes@);
    }
    (v, t)
}

/// How many commands of `s` draw a circle.
pub open spec fn circle_command_count(s: Seq<RenderCommand>) -> nat
    decreases s.len(),
{
    if s.len() == 0 {
        0
    } else {
        circle_command_count(s.drop_last()) + if s.last().command == CIRCLE_COMMAND {
            1nat
        } else {
            0nat
        }
    }
}

proof fn lemma_circle_command_count_concat(a: Seq<RenderCommand>, b: Seq<RenderCommand>)
    ensures
        circle_command_count(a + b) == circle_command_count(a) + circle_command_count(b),
    decreases b.len(),
{
    if b.len() > 0 {
        lemma_circle_command_count_concat(a, b.drop_last());
        assert((a + b).drop_last() =~= a + b.drop_last());
    } else {
        assert(a + b =~= a);
    }
}

/// Every circle command of a flattened tree has its own transform: the
/// command stream holds exactly as many circle commands as the transform
/// stream holds transforms, so the shader never reads past the transforms.
pub proof fn lemma_circle_commands_match_transforms(node: Node)
    ensures
        circle_command_count(node_commands(node)) == node_transforms(node).len(),
    decreases node, 1nat,
{
    if node is Circle {
        let p = seq![RenderCommand { id: 0, command: CIRCLE_COMMAND }];
        assert(p.drop_last() =~= Seq::<RenderCommand>::empty());
        assert(circle_command_count(Seq::<RenderCommand>::empty()) == 0);
        assert(circle_command_count(p) == 1);
        assert(node_commands(node) == p);
    } else {
        let c = children(node);
        assert(c.subrange(0, c.len() as int) =~= c);
        lemma_nodes_circle_commands_match_transforms(c, node);
        assert(node_transforms(node) == nodes_transforms(c));
        if node is Blend {
            let s = nodes_commands(c);
            let p = s.push(RenderCommand { id: 0, command: BLEND_COMMAND });
            assert(node_commands(node) == p);
            assert(p.drop_last() =~= s);
        } else {
            assert(node_commands(node) == nodes_commands(c));
        }
    }
}

proof fn lemma_nodes_circle_commands_match_transforms(nodes: Seq<Node>, parent: Node)
    requires
        nodes.len() <= children(parent).len(),
        nodes == children(parent).subrange(0, nodes.len() as int),
    ensures
        circle_command_count(nodes_commands(nodes)) == nodes_transforms(nodes).len(),
    decreases parent, 0nat, nodes.len(),
{
    if nodes.len() > 0 {
        let k: int = nodes.len() - 1;
        let init = nodes.subrange(0, k);
        assert(nodes[k] == children(parent)[k]);
        assert(decreases_to!(parent => children(parent)[k])) by {
            match parent {
                Node::Overwrite { commands } => {
                    assert(decreases_to!(parent => commands@[k]));
                },
                Node::Blend { layers } => {
                    assert(decreases_to!(parent => layers@[k]));
                },
                Node::Circle { .. } => {},
            }
        }
        assert(init =~= children(parent).subrange(0, k));
        lemma_nodes_circle_commands_match_transforms(init, parent);
        lemma_circle_commands_match_transforms(nodes[k]);
        lemma_circle_command_count_concat(nodes_commands(init), node_commands(nodes[k]));
    }
}

/// How many commands of `s` close a blend group.
pub open spec fn blend_command_count(s: Seq<RenderCommand>) -> nat
    decreases s.len(),
{
    if s.len() == 0 {
        0
    } else {
        blend_command_count(s.drop_last()) + if s.last().command == BLEND_COMMAND {
            1nat
        } else {
            0nat
        }
    }
}

proof fn lemma_blend_command_count_concat(a: Seq<RenderCommand>, b: Seq<RenderCommand>)
    ensures
        blend_command_count(a + b) == blend_command_count(a) + blend_command_count(b),
    decreases b.len(),
{
    if b.len() > 0 {
        lemma_blend_command_count_concat(a, b.drop_last());
        assert((a + b).drop_last() =~= a + b.drop_last());
    } else {
        assert(a + b =~= a);
    }
}

/// The number of circle nodes and of blend nodes in a tree, counted over
/// all of its nodes.
pub open spec fn shape_counts(node: Node) -> (nat, nat)
    decreases node,
{
    match node {
        Node::Overwrite { commands } => shapes_counts(commands@),
        Node::Blend { layers } => {
            let c = shapes_counts(layers@);
            (c.0, c.1 + 1)
        },
        Node::Circle { .. } => (1nat, 0nat),
    }
}

/// The circle and blend nodes of a sequence of trees, summed.
pub open spec fn shapes_counts(nodes: Seq<Node>) -> (nat, nat)
    decreases nodes,
{
    if nodes.len() == 0 {
        (0nat, 0nat)
    } else {
        let a = shapes_counts(nodes.subrange(0, nodes.len() - 1));
        let b = shape_counts(nodes[nodes.len() - 1]);
        (a.0 + b.0, a.1 + b.1)
    }
}

/// Flattening loses and invents nothing: the command stream of a tree holds
/// one circle command per circle node and one blend command per blend node
/// of the whole tree, and nothing else; the transform stream holds one
/// transform per circle node.
pub proof fn lemma_flattening_counts(node: Node)
    ensures
        circle_command_count(node_commands(node)) == shape_counts(node).0,
        blend_command_count(node_commands(node)) == shape_counts(node).1,
        node_commands(node).len() == shape_counts(node).0 + shape_counts(node).1,
        node_transforms(node).len() == shape_counts(node).0,
    decreases node, 1nat,
{
    if node is Circle {
        let p = seq![RenderCommand { id: 0, command: CIRCLE_COMMAND }];
        assert(p.drop_last() =~= Seq::<RenderCommand>::empty());
        assert(circle_command_count(Seq::<RenderCommand>::empty()) == 0);
        assert(blend_command_count(Seq::<RenderCommand>::empty()) == 0);
        assert(circle_command_count(p) == 1);
        assert(blend_command_count(p) == 0);
        assert(node_commands(node) == p);
    } else {
        let c = children(node);
        assert(c.subrange(0, c.len() as int) =~= c);
        lemma_nodes_flattening_counts(c, node);
        assert(node_transforms(node) == nodes_transforms(c));
        if node is Blend {
            let s = nodes_commands(c);
            let p = s.push(RenderCommand { id: 0, command: BLEND_COMMAND });
            assert(node_commands(node) == p);
            assert(p.drop_last() =~= s);
            assert(shape_counts(node) == (shapes_counts(c).0, shapes_counts(c).1 + 1));
        } else {
            assert(node_commands(node) == nodes_commands(c));
            assert(shape_counts(node) == shapes_counts(c));
        }
    }
}

proof fn lemma_nodes_flattening_counts(nodes: Seq<Node>, parent: Node)
    requires
        nodes.len() <= children(parent).len(),
        nodes == children(parent).subrange(0, nodes.len() as int),
    ensures
        circle_command_count(nodes_commands(nodes)) == shapes_counts(nodes).0,
        blend_command_count(nodes_commands(nodes)) == shapes_counts(nodes).1,
        nodes_commands(nodes).len() == shapes_counts(nodes).0 + shapes_counts(nodes).1,
        nodes_transforms(nodes).len() == shapes_counts(nodes).0,
    decreases parent, 0nat, nodes.len(),
{
    if nodes.len() > 0 {
        let k: int = nodes.len() - 1;
        let init = nodes.subrange(0, k);
        assert(nodes[k] == children(parent)[k]);
        assert(decreases_to!(parent => children(parent)[k])) by {
            match parent {
                Node::Overwrite { commands } => {
                    assert(decreases_to!(parent => commands@[k]));
                },
                Node::Blend { layers } => {
                    assert(decreases_to!(parent => layers@[k]));
                },
                Node::Circle { .. } => {},
            }
        }
        assert(init =~= children(parent).subrange(0, k));
        lemma_nodes_flattening_counts(init, parent);
        lemma_flattening_counts(nodes[k]);
        lemma_circle_command_count_concat(nodes_commands(init), node_commands(nodes[k]));
        lemma_blend_command_count_concat(nodes_commands(init), node_commands(nodes[k]));
    } else {
        assert(circle_command_count(Seq::<RenderCommand>::empty()) == 0);
        assert(blend_command_count(Seq::<RenderCommand>::empty()) == 0);
    }
}

/// The streams of a sequence of trees are those of its parts, joined: the
/// streams of `a + b` are the streams of `a` followed by those of `b`.
pub proof fn lemma_nodes_streams_concat(a: Seq<Node>, b: Seq<Node>)
    ensures
        nodes_commands(a + b) == nodes_commands(a) + nodes_commands(b),
        nodes_transforms(a + b) == nodes_transforms(a) + nodes_transforms(b),
    decreases b.len(),
{
    if b.len() == 0 {
        assert(a + b =~= a);
        assert(nodes_commands(a) + nodes_commands(b) =~= nodes_commands(a));
        assert(nodes_transforms(a) + nodes_transforms(b) =~= nodes_transforms(a));
    } else {
        let ab = a + b;
        let bi = b.subrange(0, b.len() - 1);
        assert(ab.subrange(0, ab.len() - 1) =~= a + bi);
        assert(ab[ab.len() - 1] == b[b.len() - 1]);
        lemma_nodes_streams_concat(a, bi);
        assert(nodes_commands(a + b) == nodes_commands(a + bi) + node_commands(b[b.len() - 1]));
        assert(nodes_commands(b) == nodes_commands(bi) + node_commands(b[b.len() - 1]));
        assert(nodes_commands(a + b) =~= nodes_commands(a) + nodes_commands(b));
        assert(nodes_transforms(a + b) == nodes_transforms(a + bi) + node_transforms(
            b[b.len() - 1],
        ));
        assert(nodes_transforms(b) == nodes_transforms(bi) + node_transforms(b[b.len() - 1]));
        assert(nodes_transforms(a + b) =~= nodes_transforms(a) + nodes_transforms(b));
    }
}

/// The streams of a one-tree sequence are that tree's streams, and an empty
/// sequence has empty streams.
pub proof fn lemma_nodes_streams_unit(n: Node)
    ensures
        nodes_commands(seq![n]) == node_commands(n),
        nodes_transforms(seq![n]) == node_transforms(n),
        nodes_commands(Seq::<Node>::empty()) == Seq::<RenderCommand>::empty(),
        nodes_transforms(Seq::<Node>::empty()) == Seq::<Transform>::empty(),
{
    let s = seq![n];
    assert(s.subrange(0, 0) =~= Seq::<Node>::empty());
    assert(s[0] == n);
    assert(nodes_commands(s) == nodes_commands(Seq::<Node>::empty()) + node_commands(n));
    assert(nodes_transforms(s) == nodes_transforms(Seq::<Node>::empty()) + node_transforms(n));
    assert(nodes_commands(s) =~= node_commands(n));
    assert(nodes_transforms(s) =~= node_transforms(n));
}

/// The streams of a blend are the streams of every layer, in order,
/// followed by one blend command; an overwrite's streams are those of every
/// child, in order: appending a layer appends exactly its streams.
pub proof fn lemma_layer_appended(layers: Seq<Node>, n: Node)
    ensures
        nodes_commands(layers.push(n)) == nodes_commands(layers) + node_commands(n),
        nodes_transforms(layers.push(n)) == nodes_transforms(layers) + node_transforms(n),
{
    lemma_nodes_streams_concat(layers, seq![n]);
    lemma_nodes_streams_unit(n);
    assert(layers.push(n) =~= layers + seq![n]);
}

/// Every command of a flattened tree concerns element 0.
pub proof fn lemma_command_ids(node: Node)
    ensures
        forall|i: int| 0 <= i < node_commands(node).len() ==> #[trigger] node_commands(node)[i].id == 0,
    decreases node, 1nat,
{
    if !(node is Circle) {
        let c = children(node);
        assert(c.subrange(0, c.len() as int) =~= c);
        lemma_nodes_command_ids(c, node);
        if node is Blend {
            assert(node_commands(node) == nodes_commands(c).push(
                RenderCommand { id: 0, command: BLEND_COMMAND },
            ));
        } else {
            assert(node_commands(node) == nodes_commands(c));
        }
    }
}

proof fn lemma_nodes_command_ids(nodes: Seq<Node>, parent: Node)
    requires
        nodes.len() <= children(parent).len(),
        nodes == children(parent).subrange(0, nodes.len() as int),
    ensures
        forall|i: int| 0 <= i < nodes_commands(nodes).len() ==> #[trigger] nodes_commands(nodes)[i].id == 0,
    decreases parent, 0nat, nodes.len(),
{
    if nodes.len() > 0 {
        let k: int = nodes.len() - 1;
        let init = nodes.subrange(0, k);
        assert(nodes[k] == children(parent)[k]);
        assert(decreases_to!(parent => children(parent)[k])) by {
            match parent {
                Node::Overwrite { commands } => {
                    assert(decreases_to!(parent => commands@[k]));
                },
                Node::Blend { layers } => {
                    assert(decreases_to!(parent => layers@[k]));
                },
                Node::Circle { .. } => {},
            }
        }
        assert(init =~= children(parent).subrange(0, k));
        lemma_nodes_command_ids(init, parent);
        lemma_command_ids(nodes[k]);
        let a = nodes_commands(init);
        let b = node_commands(nodes[k]);
        assert(nodes_commands(nodes) == a + b);
        assert forall|i: int| 0 <= i < (a + b).len() implies #[trigger] (a + b)[i].id == 0 by {
            if i < a.len() {
                assert((a + b)[i] == a[i]);
            } else {
                assert((a + b)[i] == b[i - a.len()]);
            }
        }
    }
}

/// A blend's stream ends with its one blend command, after all of its
/// layers' streams; an overwrite adds nothing to its children's streams; a
/// circle is one circle command with its own transform.
pub proof fn lemma_node_stream_shape(node: Node)
    ensures
        node is Blend ==> {
            &&& node_commands(node).len() >= 1
            &&& node_commands(node).last() == RenderCommand { id: 0, command: BLEND_COMMAND }
            &&& node_commands(node).drop_last() == nodes_commands(children(node))
            &&& node_transforms(node) == nodes_transforms(children(node))
        },
        node is Overwrite ==> node_commands(node) == nodes_commands(children(node))
            && node_transforms(node) == nodes_transforms(children(node)),
        node matches Node::Circle { transform, .. } ==> node_commands(node) == seq![
            RenderCommand { id: 0, command: CIRCLE_COMMAND },
        ] && node_transforms(node) == seq![transform],
{
    if node is Blend {
        let s = nodes_commands(children(node));
        assert(node_commands(node) == s.push(RenderCommand { id: 0, command: BLEND_COMMAND }));
        assert(s.push(RenderCommand { id: 0, command: BLEND_COMMAND }).drop_last() =~= s);
    }
}

/// The children of a node, in order.
pub open spec fn children(node: Node) -> Seq<Node> {
    match node {
        Node::Overwrite { commands } => commands@,
        Node::Blend { layers } => layers@,
        Node::Circle { .. } => Seq::empty(),
    }
}

} // verus!
