use vstd::prelude::*;
use crate::node::{empty_content, ContainerLayout, ContentModel, NodeId, NodePath, SplitDirection, ZoneContent};

verus! {

/// The abstract shape of a layout tree node.
#[verifier::ext_equal]
pub ghost enum NodeModel {
    Zone { id: Seq<char>, content: ContentModel },
    Split {
        id: Seq<char>,
        direction: SplitDirection,
        ratio: u32,
        first: Box<NodeModel>,
        second: Box<NodeModel>,
    },
    Container {
        id: Seq<char>,
        layout: ContainerLayout,
        children: Seq<NodeModel>,
        active_child: Option<usize>,
    },
}

/// A node in the layout tree.
///
/// Split ratios are in thousandths: `500` places the split in the middle.
#[derive(Debug, PartialEq)]
pub enum LayoutNode {
    /// A zone that contains panels.
    Zone { id: NodeId, content: ZoneContent },
    /// A split that divides space between two children.
    Split {
        id: NodeId,
        direction: SplitDirection,
        ratio: u32,
        first: Box<LayoutNode>,
        second: Box<LayoutNode>,
    },
    /// A container that holds several children.
    Container {
        id: NodeId,
        layout: ContainerLayout,
        children: Vec<LayoutNode>,
        active_child: Option<usize>,
    },
}

pub open spec fn model(n: LayoutNode) -> NodeModel
    decreases n,
{
    match n {
        LayoutNode::Zone { id, content } => NodeModel::Zone { id: id@, content: content@ },
        LayoutNode::Split { id, direction, ratio, first, second } => NodeModel::Split {
            id: id@,
            direction,
            ratio,
            first: Box::new(model(*first)),
            second: Box::new(model(*second)),
        },
        LayoutNode::Container { id, layout, children, active_child } => NodeModel::Container {
            id: id@,
            layout,
            children: models(children@),
            active_child,
        },
    }
}

pub open spec fn models(s: Seq<LayoutNode>) -> Seq<NodeModel>
    decreases s,
{
    if s.len() == 0 {
        Seq::empty()
    } else {
        models(s.drop_last()).push(model(s.last()))
    }
}

impl View for LayoutNode {
    type V = NodeModel;

    open spec fn view(&self) -> NodeModel {
        model(*self)
    }
}

pub proof fn lemma_models_index(s: Seq<LayoutNode>)
    ensures
        models(s).len() == s.len(),
        forall|i: int| 0 <= i < s.len() ==> #[trigger] models(s)[i] == model(s[i]),
    decreases s.len(),
{
    if s.len() > 0 {
        lemma_models_index(s.drop_last());
    }
}

pub proof fn lemma_models_update(s: Seq<LayoutNode>, i: int, x: LayoutNode)
    requires
        0 <= i < s.len(),
    ensures
        models(s.update(i, x)) == models(s).update(i, model(x)),
{
    lemma_models_index(s);
    lemma_models_index(s.update(i, x));
    assert(models(s.update(i, x)) =~= models(s).update(i, model(x)));
}

proof fn lemma_update_same(s: Seq<NodeModel>, i: int, x: NodeModel)
    requires
        0 <= i < s.len(),
    ensures
        x == s[i] ==> s.update(i, x) == s,
{
    if x == s[i] {
        assert(s.update(i, x) =~= s);
    }
}

/// The child at `i`, to change in place.
fn child_mut(children: &mut Vec<LayoutNode>, i: usize) -> (r: &mut LayoutNode)
    requires
        i < old(children)@.len(),
    ensures
        *r == old(children)@[i as int],
        models(final(children)@) == models(old(children)@).update(i as int, model(*final(r))),
        model(*final(r)) == model(*r) ==> models(final(children)@) == models(old(children)@),
{
    let r = &mut children[i];
    proof {
        lemma_models_update(old(children)@, i as int, *final(r));
        lemma_models_index(old(children)@);
        lemma_update_same(models(old(children)@), i as int, model(*final(r)));
    }
    r
}

pub proof fn lemma_models_push(s: Seq<LayoutNode>, x: LayoutNode)
    ensures
        models(s.push(x)) == models(s).push(model(x)),
{
    assert(s.push(x).drop_last() =~= s);
}

impl NodeModel {
    pub open spec fn id(self) -> Seq<char> {
        match self {
            NodeModel::Zone { id, .. } => id,
            NodeModel::Split { id, .. } => id,
            NodeModel::Container { id, .. } => id,
        }
    }
}

/// The child reached by index `i`: `0`/`1` in a split, a position in a container.
pub open spec fn child_at(n: NodeModel, i: int) -> Option<NodeModel> {
    match n {
        NodeModel::Split { first, second, .. } => if i == 0 {
            Some(*first)
        } else if i == 1 {
            Some(*second)
        } else {
            None
        },
        NodeModel::Container { children, .. } => if 0 <= i < children.len() {
            Some(children[i])
        } else {
            None
        },
        NodeModel::Zone { .. } => None,
    }
}

/// The node at a path, if the path leads anywhere.
pub open spec fn node_at(n: NodeModel, p: Seq<usize>) -> Option<NodeModel>
    decreases p.len(),
{
    if p.len() == 0 {
        Some(n)
    } else {
        match child_at(n, p[0] as int) {
            Some(c) => node_at(c, p.drop_first()),
            None => None,
        }
    }
}

/// The tree with the node at path `p` replaced by `m`.
pub open spec fn replace_at(n: NodeModel, p: Seq<usize>, m: NodeModel) -> NodeModel
    decreases p.len(),
{
    if p.len() == 0 {
        m
    } else {
        match n {
            NodeModel::Split { id, direction, ratio, first, second } => if p[0] == 0 {
                NodeModel::Split {
                    id,
                    direction,
                    ratio,
                    first: Box::new(replace_at(*first, p.drop_first(), m)),
                    second,
                }
            } else if p[0] == 1 {
                NodeModel::Split {
                    id,
                    direction,
                    ratio,
                    first,
                    second: Box::new(replace_at(*second, p.drop_first(), m)),
                }
            } else {
                n
            },
            NodeModel::Container { id, layout, children, active_child } => if p[0]
                < children.len() {
                NodeModel::Container {
                    id,
                    layout,
                    children: children.update(
                        p[0] as int,
                        replace_at(children[p[0] as int], p.drop_first(), m),
                    ),
                    active_child,
                }
            } else {
                n
            },
            NodeModel::Zone { .. } => n,
        }
    }
}

/// Height: a zone, or an empty container, has height 0.
pub open spec fn height(n: NodeModel) -> nat
    decreases n,
{
    match n {
        NodeModel::Zone { .. } => 0,
        NodeModel::Split { first, second, .. } => {
            let a = height(*first);
            let b = height(*second);
            1 + if a >= b { a } else { b }
        },
        NodeModel::Container { children, .. } => if children.len() == 0 {
            0
        } else {
            1 + heights(children)
        },
    }
}

/// Largest height among a sequence of nodes (0 when empty).
pub open spec fn heights(s: Seq<NodeModel>) -> nat
    decreases s,
{
    if s.len() == 0 {
        0
    } else {
        let a = heights(s.drop_last());
        let b = height(s.last());
        if a >= b { a } else { b }
    }
}

/// Largest height among `s` when the height of `s[i]` is taken to be `h`.
pub open spec fn heights_with(s: Seq<NodeModel>, i: int, h: nat) -> nat
    decreases s.len(),
{
    if s.len() == 0 {
        0
    } else {
        let a = heights_with(s.drop_last(), i, h);
        let b = if i == s.len() - 1 { h } else { height(s.last()) };
        if a >= b { a } else { b }
    }
}

/// Height of the tree after the node at `p` is replaced by one of height `h`.
pub open spec fn height_with(n: NodeModel, p: Seq<usize>, h: nat) -> nat
    decreases p.len(),
{
    if p.len() == 0 {
        h
    } else {
        match n {
            NodeModel::Split { first, second, .. } => {
                let a = if p[0] == 0 { height_with(*first, p.drop_first(), h) } else { height(*first) };
                let b = if p[0] == 1 { height_with(*second, p.drop_first(), h) } else { height(*second) };
                1 + if a >= b { a } else { b }
            },
            NodeModel::Container { children, .. } => if p[0] < children.len() {
                1 + heights_with(children, p[0] as int, height_with(children[p[0] as int], p.drop_first(), h))
            } else {
                height(n)
            },
            NodeModel::Zone { .. } => height(n),
        }
    }
}

pub proof fn lemma_heights_update(s: Seq<NodeModel>, i: int, x: NodeModel)
    requires
        0 <= i < s.len(),
    ensures
        heights(s.update(i, x)) == heights_with(s, i, height(x)),
    decreases s.len(),
{
    let t = s.update(i, x);
    assert(t.last() == if i == s.len() - 1 { x } else { s.last() });
    if i < s.len() - 1 {
        assert(t.drop_last() =~= s.drop_last().update(i, x));
        lemma_heights_update(s.drop_last(), i, x);
    } else {
        assert(t.drop_last() =~= s.drop_last());
        lemma_heights_with_other(s.drop_last(), i, height(x));
    }
    assert(heights(t) == {
        let a = heights(t.drop_last());
        let b = height(t.last());
        if a >= b { a } else { b }
    });
}

pub proof fn lemma_heights_with_other(s: Seq<NodeModel>, i: int, h: nat)
    requires
        i >= s.len(),
    ensures
        heights_with(s, i, h) == heights(s),
    decreases s.len(),
{
    if s.len() > 0 {
        lemma_heights_with_other(s.drop_last(), i, h);
    }
}

pub proof fn lemma_height_replace(n: NodeModel, p: Seq<usize>, x: NodeModel)
    requires
        node_at(n, p) is Some,
    ensures
        height(replace_at(n, p, x)) == height_with(n, p, height(x)),
    decreases p.len(),
{
    if p.len() > 0 {
        match n {
            NodeModel::Split { first, second, .. } => {
                if p[0] == 0 {
                    lemma_height_replace(*first, p.drop_first(), x);
                } else {
                    lemma_height_replace(*second, p.drop_first(), x);
                }
            },
            NodeModel::Container { children, .. } => {
                let i = p[0] as int;
                lemma_height_replace(children[i], p.drop_first(), x);
                lemma_heights_update(children, i, replace_at(children[i], p.drop_first(), x));
            },
            NodeModel::Zone { .. } => {},
        }
    }
}


pub open spec fn opt_model(o: Option<&LayoutNode>) -> Option<NodeModel> {
    match o {
        Some(n) => Some(n@),
        None => None,
    }
}

pub proof fn lemma_node_at_append(n: NodeModel, a: Seq<usize>, b: Seq<usize>)
    ensures
        node_at(n, a + b) == match node_at(n, a) {
            Some(m) => node_at(m, b),
            None => None,
        },
    decreases a.len(),
{
    if a.len() > 0 {
        assert((a + b).drop_first() =~= a.drop_first() + b);
        assert((a + b)[0] == a[0]);
        match child_at(n, a[0] as int) {
            Some(c) => lemma_node_at_append(c, a.drop_first(), b),
            None => {},
        }
    } else {
        assert(a + b =~= b);
    }
}

pub proof fn lemma_node_at_push(n: NodeModel, a: Seq<usize>, i: usize)
    ensures
        node_at(n, a.push(i)) == match node_at(n, a) {
            Some(m) => child_at(m, i as int),
            None => None,
        },
{
    lemma_node_at_append(n, a, seq![i]);
    assert(a + seq![i] =~= a.push(i));
    match node_at(n, a) {
        Some(m) => {
            assert(seq![i].drop_first() =~= Seq::<usize>::empty());
            match child_at(m, i as int) {
                Some(c) => {
                    assert(node_at(c, seq![i].drop_first()) == Some(c));
                },
                None => {},
            }
        },
        None => {},
    }
}

/// The tree after replacing the node at a path twice is the tree after the second replacement.
pub proof fn lemma_replace_twice(n: NodeModel, p: Seq<usize>, x: NodeModel, y: NodeModel)
    requires
        node_at(n, p) is Some,
    ensures
        node_at(replace_at(n, p, x), p) == Some(x),
        replace_at(replace_at(n, p, x), p, y) == replace_at(n, p, y),
    decreases p.len(),
{
    if p.len() > 0 {
        match n {
            NodeModel::Split { first, second, .. } => {
                if p[0] == 0 {
                    lemma_replace_twice(*first, p.drop_first(), x, y);
                } else {
                    lemma_replace_twice(*second, p.drop_first(), x, y);
                }
            },
            NodeModel::Container { id, layout, children, active_child } => {
                let i = p[0] as int;
                lemma_replace_twice(children[i], p.drop_first(), x, y);
                let c1 = children.update(i, replace_at(children[i], p.drop_first(), x));
                assert(c1.update(i, replace_at(c1[i], p.drop_first(), y)) =~= children.update(
                    i,
                    replace_at(children[i], p.drop_first(), y),
                ));
            },
            NodeModel::Zone { .. } => {},
        }
    }
}

/// Replacing a node by itself leaves the tree unchanged.
pub proof fn lemma_replace_same(n: NodeModel, p: Seq<usize>)
    requires
        node_at(n, p) is Some,
    ensures
        replace_at(n, p, node_at(n, p).unwrap()) == n,
    decreases p.len(),
{
    if p.len() > 0 {
        match n {
            NodeModel::Split { first, second, .. } => {
                if p[0] == 0 {
                    lemma_replace_same(*first, p.drop_first());
                } else {
                    lemma_replace_same(*second, p.drop_first());
                }
            },
            NodeModel::Container { id, layout, children, active_child } => {
                let i = p[0] as int;
                lemma_replace_same(children[i], p.drop_first());
                assert(children.update(i, children[i]) =~= children);
            },
            NodeModel::Zone { .. } => {},
        }
    }
}

/// The identifiers of all zones, in pre-order.
pub open spec fn zone_ids(n: NodeModel) -> Seq<Seq<char>>
    decreases n,
{
    match n {
        NodeModel::Zone { id, .. } => seq![id],
        NodeModel::Split { first, second, .. } => zone_ids(*first) + zone_ids(*second),
        NodeModel::Container { children, .. } => zone_ids_seq(children),
    }
}

pub open spec fn zone_ids_seq(s: Seq<NodeModel>) -> Seq<Seq<char>>
    decreases s,
{
    if s.len() == 0 {
        Seq::empty()
    } else {
        zone_ids_seq(s.drop_last()) + zone_ids(s.last())
    }
}

/// Path of the first node (in pre-order) with the given identifier.
pub open spec fn first_path(n: NodeModel, id: Seq<char>) -> Option<Seq<usize>>
    decreases n, 0nat,
{
    if n.id() == id {
        Some(Seq::empty())
    } else {
        match n {
            NodeModel::Zone { .. } => None,
            NodeModel::Split { first, second, .. } => match first_path(*first, id) {
                Some(p) => Some(seq![0usize] + p),
                None => match first_path(*second, id) {
                    Some(p) => Some(seq![1usize] + p),
                    None => None,
                },
            },
            NodeModel::Container { children, .. } => first_path_from(children, id, 0),
        }
    }
}

/// `first_path` over the children from position `i` on.
pub open spec fn first_path_from(s: Seq<NodeModel>, id: Seq<char>, i: nat) -> Option<Seq<usize>>
    decreases s, s.len() - i,
{
    if i >= s.len() {
        None
    } else {
        match first_path(s[i as int], id) {
            Some(p) => Some(seq![i as usize] + p),
            None => first_path_from(s, id, i + 1),
        }
    }
}

/// The first node (in pre-order) with the given identifier.
pub open spec fn find(n: NodeModel, id: Seq<char>) -> Option<NodeModel> {
    match first_path(n, id) {
        Some(p) => node_at(n, p),
        None => None,
    }
}

/// Number of nodes.
pub open spec fn count_nodes(n: NodeModel) -> nat
    decreases n,
{
    match n {
        NodeModel::Zone { .. } => 1,
        NodeModel::Split { first, second, .. } => 1 + count_nodes(*first) + count_nodes(*second),
        NodeModel::Container { children, .. } => 1 + count_nodes_seq(children),
    }
}

pub open spec fn count_nodes_seq(s: Seq<NodeModel>) -> nat
    decreases s,
{
    if s.len() == 0 {
        0
    } else {
        count_nodes_seq(s.drop_last()) + count_nodes(s.last())
    }
}

/// Number of split nodes.
pub open spec fn count_splits(n: NodeModel) -> nat
    decreases n,
{
    match n {
        NodeModel::Zone { .. } => 0,
        NodeModel::Split { first, second, .. } => 1 + count_splits(*first) + count_splits(*second),
        NodeModel::Container { children, .. } => count_splits_seq(children),
    }
}

pub open spec fn count_splits_seq(s: Seq<NodeModel>) -> nat
    decreases s,
{
    if s.len() == 0 {
        0
    } else {
        count_splits_seq(s.drop_last()) + count_splits(s.last())
    }
}

/// Ratio of the first split met: a split's own, or the first found among a container's children.
pub open spec fn first_split_ratio(n: NodeModel) -> Option<u32>
    decreases n, 0nat,
{
    match n {
        NodeModel::Zone { .. } => None,
        NodeModel::Split { ratio, .. } => Some(ratio),
        NodeModel::Container { children, .. } => first_split_ratio_from(children, 0),
    }
}

pub open spec fn first_split_ratio_from(s: Seq<NodeModel>, i: nat) -> Option<u32>
    decreases s, s.len() - i,
{
    if i >= s.len() {
        None
    } else {
        match first_split_ratio(s[i as int]) {
            Some(r) => Some(r),
            None => first_split_ratio_from(s, i + 1),
        }
    }
}

/// The model of `placeholder()`.
pub open spec fn hole() -> NodeModel {
    NodeModel::Zone { id: Seq::empty(), content: empty_content() }
}

/// A zone with an empty identifier and no content, used to fill a hole briefly.
pub fn placeholder() -> (r: LayoutNode)
    ensures
        r@ == hole(),
{
    LayoutNode::Zone { id: NodeId(String::new()), content: ZoneContent::new() }
}

/// Replace the node at `path[k..]` by `new`, handing back the tree and the node taken out.
pub fn swap_at(node: LayoutNode, path: &Vec<usize>, k: usize, new: LayoutNode) -> (r: (
    LayoutNode,
    LayoutNode,
))
    requires
        k <= path@.len(),
        node_at(node@, path@.subrange(k as int, path@.len() as int)) is Some,
    ensures
        r.0@ == replace_at(node@, path@.subrange(k as int, path@.len() as int), new@),
        node_at(node@, path@.subrange(k as int, path@.len() as int)) == Some(r.1@),
    decreases path@.len() - k,
{
    let ghost sub = path@.subrange(k as int, path@.len() as int);
    if k == path.len() {
        assert(sub.len() == 0);
        return (new, node);
    }
    let index = path[k];
    proof {
        assert(sub[0] == index);
        assert(sub.drop_first() =~= path@.subrange(k + 1, path@.len() as int));
    }
    match node {
        LayoutNode::Split { id, direction, ratio, first, second } => {
            if index == 0 {
                let (f2, old) = swap_at(*first, path, k + 1, new);
                (LayoutNode::Split { id, direction, ratio, first: Box::new(f2), second }, old)
            } else {
                let (s2, old) = swap_at(*second, path, k + 1, new);
                (LayoutNode::Split { id, direction, ratio, first, second: Box::new(s2) }, old)
            }
        },
        LayoutNode::Container { id, layout, children, active_child } => {
            let mut children = children;
            let ghost c0 = children@;
            proof {
                lemma_models_index(c0);
            }
            let mut tmp = placeholder();
            children.set_and_swap(index, &mut tmp);
            let (c2, old) = swap_at(tmp, path, k + 1, new);
            let ghost c1 = children@;
            children.set(index, c2);
            proof {
                assert(children@ =~= c0.update(index as int, c2));
                lemma_models_update(c0, index as int, c2);
            }
            (LayoutNode::Container { id, layout, children, active_child }, old)
        },
        LayoutNode::Zone { id, content } => {
            proof {
                assert(false);
            }
            (LayoutNode::Zone { id, content }, new)
        },
    }
}

impl LayoutNode {
    /// The identifier of this node.
    pub fn id(&self) -> (r: &NodeId)
        ensures
            r@ == self@.id(),
    {
        match self {
            LayoutNode::Zone { id, .. } => id,
            LayoutNode::Split { id, .. } => id,
            LayoutNode::Container { id, .. } => id,
        }
    }

    /// Whether this is a zone node.
    pub fn is_zone(&self) -> (r: bool)
        ensures
            r == self@ is Zone,
    {
        match self {
            LayoutNode::Zone { .. } => true,
            _ => false,
        }
    }

    /// Whether this is a split node.
    pub fn is_split(&self) -> (r: bool)
        ensures
            r == self@ is Split,
    {
        match self {
            LayoutNode::Split { .. } => true,
            _ => false,
        }
    }

    /// Whether this is a container node.
    pub fn is_container(&self) -> (r: bool)
        ensures
            r == self@ is Container,
    {
        match self {
            LayoutNode::Container { .. } => true,
            _ => false,
        }
    }

    /// The zone content, if this is a zone.
    pub fn zone_content(&self) -> (r: Option<&ZoneContent>)
        ensures
            match self@ {
                NodeModel::Zone { content, .. } => r matches Some(c) && c@ == content,
                _ => r is None,
            },
    {
        match self {
            LayoutNode::Zone { content, .. } => Some(content),
            _ => None,
        }
    }

    /// The zone content, to change in place, if this is a zone.
    pub fn zone_content_mut(&mut self) -> (r: Option<&mut ZoneContent>)
        ensures
            match old(self)@ {
                NodeModel::Zone { id, content } => r matches Some(c) && c@ == content && final(self)@
                    == NodeModel::Zone { id, content: final(c)@ },
                _ => r is None && final(self)@ == old(self)@,
            },
    {
        match self {
            LayoutNode::Zone { content, .. } => Some(content),
            _ => None,
        }
    }

    /// A deep copy of this node.
    pub fn copy(&self) -> (r: LayoutNode)
        ensures
            r@ == self@,
        decreases self,
    {
        match self {
            LayoutNode::Zone { id, content } => LayoutNode::Zone {
                id: id.copy(),
                content: content.copy(),
            },
            LayoutNode::Split { id, direction, ratio, first, second } => {
                let f = first.copy();
                let s = second.copy();
                LayoutNode::Split {
                    id: id.copy(),
                    direction: *direction,
                    ratio: *ratio,
                    first: Box::new(f),
                    second: Box::new(s),
                }
            },
            LayoutNode::Container { id, layout, children, active_child } => {
                let mut v: Vec<LayoutNode> = Vec::new();
                let mut i: usize = 0;
                proof {
                    lemma_models_index(children@);
                }
                while i < children.len()
                    invariant
                        i <= children@.len(),
                        *self is Container,
                        self->children == *children,
                        models(v@) == models(children@).subrange(0, i as int),
                        models(children@).len() == children@.len(),
                        forall|j: int|
                            0 <= j < children@.len() ==> #[trigger] models(children@)[j] == model(
                                children@[j],
                            ),
                    decreases children@.len() - i,
                {
                    proof {
                        assert(decreases_to!(*self => self->children));
                        assert(decreases_to!(self->children => self->children@));
                        assert(decreases_to!(children@ => children@[i as int]));
                    }
                    let c = children[i].copy();
                    proof {
                        lemma_models_push(v@, c);
                        assert(models(children@).subrange(0, i + 1) =~= models(
                            children@,
                        ).subrange(0, i as int).push(model(children@[i as int])));
                    }
                    v.push(c);
                    i = i + 1;
                }
                proof {
                    assert(models(children@).subrange(0, i as int) =~= models(children@));
                }
                LayoutNode::Container {
                    id: id.copy(),
                    layout: *layout,
                    children: v,
                    active_child: *active_child,
                }
            },
        }
    }

    /// The node at a path.
    pub fn get_at_path(&self, path: &NodePath) -> (r: Option<&LayoutNode>)
        ensures
            opt_model(r) == node_at(self@, path@),
    {
        let mut current: &LayoutNode = self;
        let mut i: usize = 0;
        assert(path@.subrange(0, 0) =~= Seq::<usize>::empty());
        while i < path.0.len()
            invariant
                i <= path@.len(),
                node_at(self@, path@.subrange(0, i as int)) == Some(current@),
            decreases path@.len() - i,
        {
            let index = path.0[i];
            proof {
                lemma_node_at_push(self@, path@.subrange(0, i as int), index);
                assert(path@.subrange(0, i + 1) =~= path@.subrange(0, i as int).push(index));
                lemma_node_at_append(
                    self@,
                    path@.subrange(0, i + 1),
                    path@.subrange(i + 1, path@.len() as int),
                );
                assert(path@.subrange(0, i + 1) + path@.subrange(i + 1, path@.len() as int)
                    =~= path@);
            }
            match current {
                LayoutNode::Split { first, second, .. } => {
                    if index == 0 {
                        current = &**first;
                    } else if index == 1 {
                        current = &**second;
                    } else {
                        return None;
                    }
                },
                LayoutNode::Container { children, .. } => {
                    proof {
                        lemma_models_index(children@);
                    }
                    if index < children.len() {
                        current = &children[index];
                    } else {
                        return None;
                    }
                },
                LayoutNode::Zone { .. } => {
                    return None;
                },
            }
            i = i + 1;
        }
        assert(path@.subrange(0, i as int) =~= path@);
        Some(current)
    }

    /// The node at the part of `path` from position `k` on, to change in place.
    fn at_path_mut_from(&mut self, path: &NodePath, k: usize) -> (r: Option<&mut LayoutNode>)
        requires
            k <= path@.len(),
        ensures
            ({
                let rest = path@.subrange(k as int, path@.len() as int);
                match node_at(old(self)@, rest) {
                    Some(m) => r matches Some(x) && x@ == m && final(self)@ == replace_at(
                        old(self)@,
                        rest,
                        final(x)@,
                    ),
                    None => r is None && final(self)@ == old(self)@,
                }
            }),
        decreases path@.len() - k,
    {
        if k >= path.0.len() {
            return Some(self);
        }
        let index = path.0[k];
        proof {
            let rest = path@.subrange(k as int, path@.len() as int);
            assert(rest.drop_first() =~= path@.subrange(k + 1, path@.len() as int));
        }
        match self {
            LayoutNode::Split { first, second, .. } => {
                if index == 0 {
                    (&mut **first).at_path_mut_from(path, k + 1)
                } else if index == 1 {
                    (&mut **second).at_path_mut_from(path, k + 1)
                } else {
                    None
                }
            },
            LayoutNode::Container { children, .. } => {
                proof {
                    lemma_models_index(children@);
                }
                if index < children.len() {
                    child_mut(children, index).at_path_mut_from(path, k + 1)
                } else {
                    None
                }
            },
            LayoutNode::Zone { .. } => None,
        }
    }

    /// The node at `path`, to change in place.
    pub fn get_at_path_mut(&mut self, path: &NodePath) -> (r: Option<&mut LayoutNode>)
        ensures
            match node_at(old(self)@, path@) {
                Some(m) => r matches Some(x) && x@ == m && final(self)@ == replace_at(
                    old(self)@,
                    path@,
                    final(x)@,
                ),
                None => r is None && final(self)@ == old(self)@,
            },
    {
        assert(path@.subrange(0, path@.len() as int) =~= path@);
        self.at_path_mut_from(path, 0)
    }
}


pub open spec fn ids_view(v: Seq<NodeId>) -> Seq<Seq<char>> {
    v.map_values(|x: NodeId| x@)
}

pub proof fn lemma_heights_ge(s: Seq<NodeModel>, i: int)
    requires
        0 <= i < s.len(),
    ensures
        height(s[i]) <= heights(s),
    decreases s.len(),
{
    if i < s.len() - 1 {
        lemma_heights_ge(s.drop_last(), i);
    }
}

pub proof fn lemma_count_nodes_prefix(s: Seq<NodeModel>, i: int)
    requires
        0 <= i <= s.len(),
    ensures
        count_nodes_seq(s.subrange(0, i)) <= count_nodes_seq(s),
        count_splits_seq(s.subrange(0, i)) <= count_splits_seq(s),
    decreases s.len(),
{
    if i == s.len() {
        assert(s.subrange(0, i) =~= s);
    } else {
        assert(s.subrange(0, i) =~= s.drop_last().subrange(0, i));
        lemma_count_nodes_prefix(s.drop_last(), i);
    }
}

/// A path made of `i` followed by `p`.
fn prepend(i: usize, p: Vec<usize>) -> (r: Vec<usize>)
    ensures
        r@ == seq![i] + p@,
{
    let mut r: Vec<usize> = Vec::new();
    r.push(i);
    let mut j: usize = 0;
    while j < p.len()
        invariant
            j <= p@.len(),
            r@ == seq![i] + p@.subrange(0, j as int),
        decreases p@.len() - j,
    {
        r.push(p[j]);
        assert(p@.subrange(0, j + 1) =~= p@.subrange(0, j as int).push(p@[j as int]));
        assert(seq![i] + p@.subrange(0, j + 1) =~= (seq![i] + p@.subrange(0, j as int)).push(p@[j as int]));
        j = j + 1;
    }
    assert(p@.subrange(0, j as int) =~= p@);
    r
}

impl LayoutNode {
    /// Path of the first node (in pre-order) with the given identifier.
    pub fn find_path(&self, target: &NodeId) -> (r: Option<Vec<usize>>)
        ensures
            match r {
                Some(p) => first_path(self@, target@) == Some(p@),
                None => first_path(self@, target@) is None,
            },
        decreases self,
    {
        if self.id().same(target) {
            let v: Vec<usize> = Vec::new();
            assert(v@ =~= Seq::<usize>::empty());
            return Some(v);
        }
        match self {
            LayoutNode::Zone { .. } => None,
            LayoutNode::Split { first, second, .. } => {
                match first.find_path(target) {
                    Some(p) => Some(prepend(0, p)),
                    None => match second.find_path(target) {
                        Some(p) => Some(prepend(1, p)),
                        None => None,
                    },
                }
            },
            LayoutNode::Container { children, .. } => {
                let ghost ms = models(children@);
                proof {
                    lemma_models_index(children@);
                }
                let mut i: usize = 0;
                assert(first_path(self@, target@) == first_path_from(ms, target@, 0));
                while i < children.len()
                    invariant
                        i <= children@.len(),
                        *self is Container,
                        self->children == *children,
                        ms == models(children@),
                        ms.len() == children@.len(),
                        forall|j: int| 0 <= j < children@.len() ==> #[trigger] ms[j] == model(children@[j]),
                        first_path_from(ms, target@, 0) == first_path_from(ms, target@, i as nat),
                        first_path(self@, target@) == first_path_from(ms, target@, 0),
                    decreases children@.len() - i,
                {
                    proof {
                        assert(decreases_to!(*self => self->children));
                        assert(decreases_to!(self->children => self->children@));
                        assert(decreases_to!(children@ => children@[i as int]));
                    }
                    match children[i].find_path(target) {
                        Some(p) => {
                            assert(first_path_from(ms, target@, i as nat) == Some(seq![i] + p@));
                            return Some(prepend(i, p));
                        },
                        None => {
                            assert(first_path_from(ms, target@, i as nat) == first_path_from(ms, target@, (i + 1) as nat));
                        },
                    }
                    i = i + 1;
                }
                assert(first_path_from(ms, target@, i as nat) is None);
                None
            },
        }
    }

    /// The first node (in pre-order) with the given identifier.
    pub fn find_node(&self, target_id: &NodeId) -> (r: Option<&LayoutNode>)
        ensures
            opt_model(r) == find(self@, target_id@),
    {
        match self.find_path(target_id) {
            Some(p) => self.get_at_path(&NodePath(p)),
            None => None,
        }
    }

    /// The first node (in pre-order) with the given identifier, to change in place.
    pub fn find_node_mut(&mut self, target_id: &NodeId) -> (r: Option<&mut LayoutNode>)
        ensures
            match find(old(self)@, target_id@) {
                Some(m) => r matches Some(x) && x@ == m && final(self)@ == replace_at(
                    old(self)@,
                    first_path(old(self)@, target_id@).unwrap(),
                    final(x)@,
                ),
                None => r is None && final(self)@ == old(self)@,
            },
    {
        match self.find_path(target_id) {
            Some(p) => self.get_at_path_mut(&NodePath(p)),
            None => None,
        }
    }

    /// Number of split nodes in the tree.
    pub fn count_splits(&self) -> (r: u32)
        requires
            count_nodes(self@) <= u32::MAX,
        ensures
            r == count_splits(self@),
        decreases self,
    {
        proof {
            lemma_splits_le_nodes(self@);
        }
        match self {
            LayoutNode::Zone { .. } => 0,
            LayoutNode::Split { first, second, .. } => {
                let a = first.count_splits();
                let b = second.count_splits();
                1 + a + b
            },
            LayoutNode::Container { children, .. } => {
                let ghost ms = models(children@);
                proof {
                    lemma_models_index(children@);
                }
                let mut total: u32 = 0;
                let mut i: usize = 0;
                while i < children.len()
                    invariant
                        i <= children@.len(),
                        *self is Container,
                        self->children == *children,
                        ms == models(children@),
                        ms.len() == children@.len(),
                        forall|j: int| 0 <= j < children@.len() ==> #[trigger] ms[j] == model(children@[j]),
                        count_nodes_seq(ms) < u32::MAX,
                        total == count_splits_seq(ms.subrange(0, i as int)),
                    decreases children@.len() - i,
                {
                    proof {
                        assert(decreases_to!(*self => self->children));
                        assert(decreases_to!(self->children => self->children@));
                        assert(decreases_to!(children@ => children@[i as int]));
                        assert(ms.subrange(0, i + 1).drop_last() =~= ms.subrange(0, i as int));
                        lemma_count_nodes_prefix(ms, i + 1);
                        lemma_splits_le_nodes_seq(ms.subrange(0, i + 1));
                        lemma_count_nodes_prefix(ms, i as int);
                        lemma_count_nodes_seq_ge(ms, i as int);
                    }
                    let c = children[i].count_splits();
                    total = total + c;
                    i = i + 1;
                }
                assert(ms.subrange(0, i as int) =~= ms);
                total
            },
        }
    }

    /// Number of nodes in the tree.
    pub fn count_nodes(&self) -> (r: u32)
        requires
            count_nodes(self@) <= u32::MAX,
        ensures
            r == count_nodes(self@),
        decreases self,
    {
        match self {
            LayoutNode::Zone { .. } => 1,
            LayoutNode::Split { first, second, .. } => {
                let a = first.count_nodes();
                let b = second.count_nodes();
                1 + a + b
            },
            LayoutNode::Container { children, .. } => {
                let ghost ms = models(children@);
                proof {
                    lemma_models_index(children@);
                }
                let mut total: u32 = 0;
                let mut i: usize = 0;
                while i < children.len()
                    invariant
                        i <= children@.len(),
                        *self is Container,
                        self->children == *children,
                        ms == models(children@),
                        ms.len() == children@.len(),
                        forall|j: int| 0 <= j < children@.len() ==> #[trigger] ms[j] == model(children@[j]),
                        count_nodes_seq(ms) < u32::MAX,
                        total == count_nodes_seq(ms.subrange(0, i as int)),
                    decreases children@.len() - i,
                {
                    proof {
                        assert(decreases_to!(*self => self->children));
                        assert(decreases_to!(self->children => self->children@));
                        assert(decreases_to!(children@ => children@[i as int]));
                        assert(ms.subrange(0, i + 1).drop_last() =~= ms.subrange(0, i as int));
                        lemma_count_nodes_prefix(ms, i + 1);
                        lemma_count_nodes_seq_ge(ms, i as int);
                    }
                    let c = children[i].count_nodes();
                    total = total + c;
                    i = i + 1;
                }
                assert(ms.subrange(0, i as int) =~= ms);
                1 + total
            },
        }
    }

    /// Ratio of the first split met (a split's own ratio, or the first found
    /// among a container's children).
    pub fn get_first_split_ratio(&self) -> (r: Option<u32>)
        ensures
            r == first_split_ratio(self@),
        decreases self,
    {
        match self {
            LayoutNode::Zone { .. } => None,
            LayoutNode::Split { ratio, .. } => Some(*ratio),
            LayoutNode::Container { children, .. } => {
                let ghost ms = models(children@);
                proof {
                    lemma_models_index(children@);
                }
                let mut i: usize = 0;
                while i < children.len()
                    invariant
                        i <= children@.len(),
                        *self is Container,
                        self->children == *children,
                        ms == models(children@),
                        ms.len() == children@.len(),
                        forall|j: int| 0 <= j < children@.len() ==> #[trigger] ms[j] == model(children@[j]),
                        first_split_ratio_from(ms, 0) == first_split_ratio_from(ms, i as nat),
                    decreases children@.len() - i,
                {
                    proof {
                        assert(decreases_to!(*self => self->children));
                        assert(decreases_to!(self->children => self->children@));
                        assert(decreases_to!(children@ => children@[i as int]));
                    }
                    match children[i].get_first_split_ratio() {
                        Some(r) => {
                            return Some(r);
                        },
                        None => {},
                    }
                    i = i + 1;
                }
                None
            },
        }
    }

    /// All zone identifiers, in pre-order.
    pub fn collect_zone_ids(&self) -> (r: Vec<NodeId>)
        requires
            height(self@) < 100,
        ensures
            ids_view(r@) == zone_ids(self@),
    {
        let mut ids: Vec<NodeId> = Vec::new();
        self.collect_zone_ids_recursive(&mut ids, 0);
        assert(ids_view(ids@) =~= zone_ids(self@));
        ids
    }

    fn collect_zone_ids_recursive(&self, ids: &mut Vec<NodeId>, depth: u32)
        requires
            depth + height(self@) < 100,
        ensures
            ids_view(final(ids)@) == ids_view(old(ids)@) + zone_ids(self@),
        decreases self,
    {
        match self {
            LayoutNode::Zone { id, .. } => {
                let ghost before = ids@;
                ids.push(id.copy());
                assert(ids_view(ids@) =~= ids_view(before) + seq![id@]);
            },
            LayoutNode::Split { first, second, .. } => {
                let ghost before = ids@;
                first.collect_zone_ids_recursive(ids, depth + 1);
                second.collect_zone_ids_recursive(ids, depth + 1);
                assert(ids_view(ids@) =~= ids_view(before) + zone_ids(self@));
            },
            LayoutNode::Container { children, .. } => {
                let ghost ms = models(children@);
                let ghost before = ids@;
                proof {
                    lemma_models_index(children@);
                }
                let mut i: usize = 0;
                assert(ms.subrange(0, 0) =~= Seq::<NodeModel>::empty());
                assert(ids_view(before) + zone_ids_seq(ms.subrange(0, 0)) =~= ids_view(before));
                while i < children.len()
                    invariant
                        i <= children@.len(),
                        *self is Container,
                        self->children == *children,
                        ms == models(children@),
                        ms.len() == children@.len(),
                        forall|j: int| 0 <= j < children@.len() ==> #[trigger] ms[j] == model(children@[j]),
                        depth + height(self@) < 100,
                        height(self@) == if ms.len() == 0 { 0 } else { 1 + heights(ms) },
                        ids_view(ids@) == ids_view(before) + zone_ids_seq(ms.subrange(0, i as int)),
                    decreases children@.len() - i,
                {
                    proof {
                        assert(decreases_to!(*self => self->children));
                        assert(decreases_to!(self->children => self->children@));
                        assert(decreases_to!(children@ => children@[i as int]));
                        assert(ms.subrange(0, i + 1).drop_last() =~= ms.subrange(0, i as int));
                        lemma_heights_ge(ms, i as int);
                    }
                    children[i].collect_zone_ids_recursive(ids, depth + 1);
                    assert(ids_view(ids@) =~= ids_view(before) + zone_ids_seq(ms.subrange(0, i + 1)));
                    i = i + 1;
                }
                assert(ms.subrange(0, i as int) =~= ms);
            },
        }
    }
}

pub proof fn lemma_count_nodes_seq_ge(s: Seq<NodeModel>, i: int)
    requires
        0 <= i < s.len(),
    ensures
        count_nodes_seq(s.subrange(0, i + 1)) == count_nodes_seq(s.subrange(0, i)) + count_nodes(s[i]),
        count_splits_seq(s.subrange(0, i + 1)) == count_splits_seq(s.subrange(0, i)) + count_splits(s[i]),
{
    assert(s.subrange(0, i + 1).drop_last() =~= s.subrange(0, i));
}

pub proof fn lemma_splits_le_nodes(n: NodeModel)
    ensures
        count_splits(n) < count_nodes(n),
    decreases n,
{
    match n {
        NodeModel::Zone { .. } => {},
        NodeModel::Split { first, second, .. } => {
            lemma_splits_le_nodes(*first);
            lemma_splits_le_nodes(*second);
        },
        NodeModel::Container { children, .. } => {
            lemma_splits_le_nodes_seq(children);
        },
    }
}

pub proof fn lemma_splits_le_nodes_seq(s: Seq<NodeModel>)
    ensures
        count_splits_seq(s) <= count_nodes_seq(s),
    decreases s,
{
    if s.len() > 0 {
        lemma_splits_le_nodes_seq(s.drop_last());
        lemma_splits_le_nodes(s.last());
    }
}

/// The identifiers of the children that are zones, in order.
pub open spec fn zone_children(s: Seq<NodeModel>) -> Seq<Seq<char>>
    decreases s.len(),
{
    if s.len() == 0 {
        Seq::empty()
    } else {
        zone_children(s.drop_last()) + if s.last() is Zone {
            seq![s.last().id()]
        } else {
            Seq::empty()
        }
    }
}

/// Information about a container: its layout, its active child and the
/// identifiers of its children that are zones.
#[derive(Debug, Clone, PartialEq)]
pub struct ContainerInfo {
    pub id: NodeId,
    pub container_layout: ContainerLayout,
    pub active_child: Option<usize>,
    pub child_zones: Vec<NodeId>,
}

impl ContainerInfo {
    /// The information on a container node; `None` for other nodes.
    pub fn of(node: &LayoutNode) -> (r: Option<ContainerInfo>)
        ensures
            match node@ {
                NodeModel::Container { id, layout, children, active_child } => r matches Some(ci)
                    && ci.id@ == id && ci.container_layout == layout && ci.active_child == active_child
                    && ids_view(ci.child_zones@) == zone_children(children),
                _ => r is None,
            },
    {
        match node {
            LayoutNode::Container { id, layout, children, active_child } => {
                let ghost cm = models(children@);
                let mut zones: Vec<NodeId> = Vec::new();
                let mut i: usize = 0;
                proof {
                    lemma_models_index(children@);
                }
                while i < children.len()
                    invariant
                        i <= children@.len(),
                        cm == models(children@),
                        cm.len() == children@.len(),
                        forall|j: int| 0 <= j < children@.len() ==> #[trigger] cm[j] == model(children@[j]),
                        ids_view(zones@) == zone_children(cm.subrange(0, i as int)),
                    decreases children@.len() - i,
                {
                    let ghost before = zones@;
                    assert(cm.subrange(0, i + 1).drop_last() =~= cm.subrange(0, i as int));
                    if children[i].is_zone() {
                        zones.push(children[i].id().copy());
                        assert(ids_view(zones@) =~= ids_view(before).push(cm[i as int].id()));
                        assert(ids_view(zones@) =~= zone_children(cm.subrange(0, i as int)) + seq![cm[i as int].id()]);
                    } else {
                        assert(zone_children(cm.subrange(0, i as int)) + Seq::<Seq<char>>::empty() =~= zone_children(cm.subrange(0, i as int)));
                    }
                    i = i + 1;
                }
                assert(cm.subrange(0, i as int) =~= cm);
                Some(ContainerInfo { id: id.copy(), container_layout: *layout, active_child: *active_child, child_zones: zones })
            },
            _ => None,
        }
    }
}


} // verus!
