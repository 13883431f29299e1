//! The nodes of the graph.

use vstd::prelude::*;
use vstd::slice::slice_subrange;
use crate::transform::{local_factors, Factor, Quaternion, Transform, Vector3, ONE, ZERO};

verus! {

/// A node of the scene graph. Position, rotation and scale are local: they
/// place the node relative to its parent. A node with a model and an
/// instance stands for that instance; a node with neither only groups.
#[derive(Debug)]
pub struct SceneNode {
    pub position: Vector3,
    pub rotation: Quaternion,
    pub scale: u32,
    pub model_id: Option<usize>,
    pub instance_id: Option<usize>,
    pub children: Vec<SceneNode>,
    pub changed: bool,
}

/// The mathematical tree that a `SceneNode` stands for.
#[verifier::ext_equal]
pub ghost struct Node {
    pub position: Vector3,
    pub rotation: Quaternion,
    pub scale: u32,
    pub model_id: Option<usize>,
    pub instance_id: Option<usize>,
    pub children: Seq<Node>,
    pub changed: bool,
}

/// A change to one node.
#[derive(Debug)]
pub enum Edit {
    /// A new last child.
    AddChild(SceneNode),
    /// Takes the child of this index out, where there is one, with
    /// everything below it.
    RemoveChild(usize),
    /// A new rotation.
    Rotation(Quaternion),
    /// A new position.
    Position(Vector3),
    /// A new scale.
    Scale(u32),
}

/// A changed node as a traversal reports it: its model, its instance and
/// its world transform.
pub type Change = (Option<usize>, Option<usize>, Transform);

/// A reported change with the world transform as its factors.
pub type ChangeView = (Option<usize>, Option<usize>, Seq<Factor>);

/// The reported changes with each world transform as its factors.
pub open spec fn changes_view(changes: Seq<Change>) -> Seq<ChangeView> {
    Seq::new(changes.len(), |i: int| (changes[i].0, changes[i].1, changes[i].2@))
}

/// What a traversal of `nodes`, one after the other, reports below a parent
/// with the world transform `world`.
pub open spec fn changes_of(nodes: Seq<Node>, world: Seq<Factor>) -> Seq<ChangeView>
    decreases nodes,
{
    if nodes.len() == 0 {
        Seq::empty()
    } else {
        changes_of(nodes.drop_last(), world) + nodes.last().changes(world)
    }
}

/// The number of nodes in `nodes` and below them.
pub open spec fn size_of(nodes: Seq<Node>) -> nat
    decreases nodes,
{
    if nodes.len() == 0 {
        0
    } else {
        size_of(nodes.drop_last()) + nodes.last().size()
    }
}

impl Node {
    /// The node that a new graph starts from: at the origin, not turned, of
    /// scale one, with no model, no instance and no children. Like every
    /// new node it is marked as changed, so that the first traversal reports
    /// it.
    pub open spec fn root() -> Node {
        Node {
            position: Vector3::spec_zero(),
            rotation: Quaternion::spec_identity(),
            scale: ONE,
            model_id: None,
            instance_id: None,
            children: Seq::empty(),
            changed: true,
        }
    }

    /// The node that stands for an instance when it enters the graph: one
    /// unit along x, not turned, of scale one, changed.
    pub open spec fn instance(model_id: usize, instance_id: usize) -> Node {
        Node {
            position: Vector3 { x: ONE, y: ZERO, z: ZERO },
            rotation: Quaternion::spec_identity(),
            scale: ONE,
            model_id: Some(model_id),
            instance_id: Some(instance_id),
            children: Seq::empty(),
            changed: true,
        }
    }

    /// A node has a model exactly if it has an instance, here and below.
    pub open spec fn well_formed(self) -> bool
        decreases self,
    {
        &&& self.model_id.is_some() == self.instance_id.is_some()
        &&& forall|i: int|
            0 <= i < self.children.len() ==> (#[trigger] self.children[i]).well_formed()
    }

    /// Every model named here or below is one of the first `n`.
    pub open spec fn models_below(self, n: nat) -> bool
        decreases self,
    {
        &&& self.model_id matches Some(m) ==> m < n
        &&& forall|i: int|
            0 <= i < self.children.len() ==> (#[trigger] self.children[i]).models_below(n)
    }

    /// The number of nodes here and below.
    pub open spec fn size(self) -> nat
        decreases self,
    {
        1 + size_of(self.children)
    }

    /// The local transform: rotation, then translation, then scale.
    pub open spec fn local(self) -> Seq<Factor> {
        local_factors(self.rotation, self.position, self.scale)
    }

    /// The node with `child` as its new last child.
    pub open spec fn with_child(self, child: Node) -> Node {
        Node { children: self.children.push(child), ..self }
    }

    /// The node without its child `id` and without anything below that
    /// child; the node itself where it has no such child.
    pub open spec fn without_child(self, id: int) -> Node {
        if 0 <= id < self.children.len() {
            Node { children: self.children.remove(id), ..self }
        } else {
            self
        }
    }

    /// The node with itself and every node below it marked as changed.
    pub open spec fn mark_subtree(self) -> Node
        decreases self,
    {
        Node {
            changed: true,
            children: Seq::new(
                self.children.len(),
                |i: int|
                    if 0 <= i < self.children.len() {
                        self.children[i].mark_subtree()
                    } else {
                        self
                    },
            ),
            ..self
        }
    }

    /// The node with itself and every node below it marked as clean.
    pub open spec fn cleaned(self) -> Node
        decreases self,
    {
        Node {
            changed: false,
            children: Seq::new(
                self.children.len(),
                |i: int|
                    if 0 <= i < self.children.len() {
                        self.children[i].cleaned()
                    } else {
                        self
                    },
            ),
            ..self
        }
    }

    /// The node turned to `rotation`.
    pub open spec fn rotated(self, rotation: Quaternion) -> Node {
        (Node { rotation, ..self }).mark_subtree()
    }

    /// The node moved to `position`.
    pub open spec fn translated(self, position: Vector3) -> Node {
        (Node { position, ..self }).mark_subtree()
    }

    /// The node brought to `scale`.
    pub open spec fn scaled(self, scale: u32) -> Node {
        (Node { scale, ..self }).mark_subtree()
    }

    /// The node after `edit`. A new rotation, position or scale marks the
    /// node and every node below it as changed.
    pub open spec fn edited(self, edit: Edit) -> Node {
        match edit {
            Edit::AddChild(child) => self.with_child(child@),
            Edit::RemoveChild(id) => self.without_child(id as int),
            Edit::Rotation(rotation) => self.rotated(rotation),
            Edit::Position(position) => self.translated(position),
            Edit::Scale(scale) => self.scaled(scale),
        }
    }

    /// What a traversal reports: parent before children, children in their
    /// order, a node only where it is changed, each with the product of the
    /// local transforms from the top down to it, `parent` first.
    pub open spec fn changes(self, parent: Seq<Factor>) -> Seq<ChangeView>
        decreases self,
    {
        let world = parent + self.local();
        let own = if self.changed {
            seq![(self.model_id, self.instance_id, world)]
        } else {
            Seq::empty()
        };
        own + changes_of(self.children, world)
    }

    /// The two nodes are the same but for what is below them.
    pub open spec fn same_node(self, other: Node) -> bool {
        &&& self.position == other.position
        &&& self.rotation == other.rotation
        &&& self.scale == other.scale
        &&& self.model_id == other.model_id
        &&& self.instance_id == other.instance_id
        &&& self.changed == other.changed
    }

    /// The world transform of the node that `path` leads to, below a
    /// parent with the world transform `parent`: the product of `parent`
    /// and the local transforms from this node down to that one.
    pub open spec fn world_at(self, parent: Seq<Factor>, path: Seq<usize>) -> Seq<Factor>
        decreases path.len(),
    {
        if path.len() == 0 {
            parent + self.local()
        } else {
            self.children[path[0] as int].world_at(parent + self.local(), path.drop_first())
        }
    }

    /// `path` leads from this node to a node: each entry picks a child.
    pub open spec fn has_path(self, path: Seq<usize>) -> bool
        decreases path.len(),
    {
        path.len() == 0 || (path[0] < self.children.len() && self.children[path[0] as int].has_path(
            path.drop_first(),
        ))
    }

    /// The node that `path` leads to.
    pub open spec fn at(self, path: Seq<usize>) -> Node
        decreases path.len(),
    {
        if path.len() == 0 {
            self
        } else {
            self.children[path[0] as int].at(path.drop_first())
        }
    }

    /// The tree with `node` in place of the node that `path` leads to.
    pub open spec fn replace_at(self, path: Seq<usize>, node: Node) -> Node
        decreases path.len(),
    {
        if path.len() == 0 {
            node
        } else if path[0] < self.children.len() {
            Node {
                children: self.children.update(
                    path[0] as int,
                    self.children[path[0] as int].replace_at(path.drop_first(), node),
                ),
                ..self
            }
        } else {
            self
        }
    }
}

impl View for SceneNode {
    type V = Node;

    open spec fn view(&self) -> Node {
        self.tree()
    }
}

impl SceneNode {
    /// The tree that this node and the nodes below it stand for.
    pub open spec fn tree(&self) -> Node
        decreases self,
    {
        Node {
            position: self.position,
            rotation: self.rotation,
            scale: self.scale,
            model_id: self.model_id,
            instance_id: self.instance_id,
            children: Seq::new(
                self.children@.len(),
                |i: int|
                    if 0 <= i < self.children@.len() {
                        self.children@[i].tree()
                    } else {
                        arbitrary()
                    },
            ),
            changed: self.changed,
        }
    }

    /// A node to start a graph from.
    pub fn new_root() -> (r: Self)
        ensures
            r@ == Node::root(),
    {
        let r = SceneNode {
            position: Vector3::zero(),
            rotation: Quaternion::identity(),
            scale: ONE,
            model_id: None,
            instance_id: None,
            children: Vec::new(),
            changed: true,
        };
        proof {
            assert(r@.children =~= Node::root().children);
        }
        r
    }

    /// A node that stands for instance `instance_id` of model `model_id`.
    pub fn new_instance_node(model_id: usize, instance_id: usize) -> (r: Self)
        ensures
            r@ == Node::instance(model_id, instance_id),
    {
        let r = SceneNode {
            position: Vector3::new(ONE, ZERO, ZERO),
            rotation: Quaternion::identity(),
            scale: ONE,
            model_id: Some(model_id),
            instance_id: Some(instance_id),
            children: Vec::new(),
            changed: true,
        };
        proof {
            assert(r@.children =~= Node::instance(model_id, instance_id).children);
        }
        r
    }

    /// Whether every model named here or below is one of the first `n`.
    pub fn names_models_below(&self, n: usize) -> (r: bool)
        ensures
            r == self@.models_below(n as nat),
        decreases self@,
    {
        if let Some(model_id) = self.model_id {
            if model_id >= n {
                return false;
            }
        }
        let count: usize = self.children.len();
        let mut i: usize = 0;
        while i < count
            invariant
                i <= count,
                count == self.children@.len(),
                forall|j: int| 0 <= j < i ==> (#[trigger] self@.children[j]).models_below(n as nat),
            decreases count - i,
        {
            proof {
                assert(self.children@[i as int]@ == self@.children[i as int]);
            }
            if !self.children[i].names_models_below(n) {
                return false;
            }
            i += 1;
        }
        true
    }

    /// Whether every node here and below has a model exactly if it has an
    /// instance.
    pub fn is_well_formed(&self) -> (r: bool)
        ensures
            r == self@.well_formed(),
        decreases self@,
    {
        if self.model_id.is_some() != self.instance_id.is_some() {
            return false;
        }
        let count: usize = self.children.len();
        let mut i: usize = 0;
        while i < count
            invariant
                i <= count,
                count == self.children@.len(),
                forall|j: int| 0 <= j < i ==> (#[trigger] self@.children[j]).well_formed(),
            decreases count - i,
        {
            proof {
                assert(self.children@[i as int]@ == self@.children[i as int]);
            }
            if !self.children[i].is_well_formed() {
                return false;
            }
            i += 1;
        }
        true
    }

    /// A copy of this node and of every node below it.
    pub fn duplicate(&self) -> (r: Self)
        ensures
            r@ == self@,
        decreases self@,
    {
        let mut children: Vec<SceneNode> = Vec::new();
        let n: usize = self.children.len();
        let mut i: usize = 0;
        while i < n
            invariant
                i <= n,
                n == self.children@.len(),
                children@.len() == i,
                forall|j: int| 0 <= j < i ==> (#[trigger] children@[j])@ == self.children@[j]@,
            decreases n - i,
        {
            proof {
                assert(self.children@[i as int]@ == self@.children[i as int]);
            }
            children.push(self.children[i].duplicate());
            i += 1;
        }
        let r = SceneNode {
            position: self.position,
            rotation: self.rotation,
            scale: self.scale,
            model_id: self.model_id,
            instance_id: self.instance_id,
            children,
            changed: self.changed,
        };
        proof {
            assert(r@.children =~= self@.children);
        }
        r
    }

    /// Takes child `id` out, where there is one. Everything below the child
    /// goes with it.
    pub fn remove_child(&mut self, id: usize)
        ensures
            final(self)@ == old(self)@.without_child(id as int),
    {
        if id < self.children.len() {
            let _ = self.children.remove(id);
            proof {
                assert(self@.children =~= old(self)@.without_child(id as int).children);
            }
        }
    }

    /// Makes `child` the last child of this node.
    pub fn add_child(&mut self, child: SceneNode)
        ensures
            final(self)@ == old(self)@.with_child(child@),
    {
        self.children.push(child);
        proof {
            assert(self@.children =~= old(self)@.with_child(child@).children);
        }
    }

    /// Makes this node the last child of `other`.
    pub fn set_parent(self, other: &mut SceneNode)
        ensures
            final(other)@ == old(other)@.with_child(self@),
    {
        other.add_child(self);
    }

    /// Marks this node and every node below it as changed. Positions,
    /// rotations, scales, models, instances and the shape of the tree stay.
    pub fn update_children(&mut self)
        ensures
            final(self)@ == old(self)@.mark_subtree(),
        decreases old(self)@,
    {
        let n: usize = self.children.len();
        let mut i: usize = 0;
        while i < n
            invariant
                i <= n,
                n == old(self).children@.len(),
                self.children@.len() == n,
                self.position == old(self).position,
                self.rotation == old(self).rotation,
                self.scale == old(self).scale,
                self.model_id == old(self).model_id,
                self.instance_id == old(self).instance_id,
                self.changed == old(self).changed,
                forall|j: int|
                    0 <= j < i ==> (#[trigger] self.children@[j])@ == old(
                        self,
                    ).children@[j]@.mark_subtree(),
                forall|j: int| i <= j < n ==> (#[trigger] self.children@[j]) == old(self).children@[j],
            decreases n - i,
        {
            proof {
                assert(self.children@[i as int]@ == old(self)@.children[i as int]);
            }
            let child = &mut self.children[i];
            child.update_children();
            i += 1;
        }
        self.changed = true;
        proof {
            assert(self@.children =~= old(self)@.mark_subtree().children);
        }
    }

    /// Marks this node and every node below it as changed: `update_children`
    /// under the name of what it does.
    pub fn mark_subtree_dirty(&mut self)
        ensures
            final(self)@ == old(self)@.mark_subtree(),
    {
        self.update_children();
    }

    /// Reports the changed nodes here and below, each with its world
    /// transform, and marks them all as clean. `parent_mat` is the world
    /// transform of the parent. A clean node is passed over, not its
    /// children.
    pub fn collect_changed(&mut self, parent_mat: &Transform) -> (result: Vec<Change>)
        ensures
            changes_view(result@) == old(self)@.changes(parent_mat@),
            final(self)@ == old(self)@.cleaned(),
        decreases old(self)@,
    {
        let mut result: Vec<Change> = Vec::new();
        let accumulated_mat = parent_mat.then_local(self.rotation, self.position, self.scale);
        if self.changed {
            result.push((self.model_id, self.instance_id, accumulated_mat.duplicate()));
            self.changed = false;
        }
        let ghost world = accumulated_mat@;
        let ghost own = changes_view(result@);
        proof {
            assert(world == parent_mat@ + old(self)@.local());
            assert(own =~= if old(self).changed {
                seq![(old(self).model_id, old(self).instance_id, world)]
            } else {
                Seq::<ChangeView>::empty()
            });
        }
        let n: usize = self.children.len();
        let mut i: usize = 0;
        while i < n
            invariant
                i <= n,
                n == old(self).children@.len(),
                self.children@.len() == n,
                self.position == old(self).position,
                self.rotation == old(self).rotation,
                self.scale == old(self).scale,
                self.model_id == old(self).model_id,
                self.instance_id == old(self).instance_id,
                !self.changed,
                accumulated_mat@ == world,
                changes_view(result@) == own + changes_of(
                    old(self)@.children.subrange(0, i as int),
                    world,
                ),
                forall|j: int|
                    0 <= j < i ==> (#[trigger] self.children@[j])@ == old(
                        self,
                    ).children@[j]@.cleaned(),
                forall|j: int| i <= j < n ==> (#[trigger] self.children@[j]) == old(self).children@[j],
            decreases n - i,
        {
            let ghost before = self.children@[i as int]@;
            let ghost reported = result@;
            proof {
                assert(before == old(self)@.children[i as int]);
            }
            let child = &mut self.children[i];
            let mut below = child.collect_changed(&accumulated_mat);
            let ghost found = below@;
            result.append(&mut below);
            proof {
                let done = old(self)@.children.subrange(0, i as int);
                let next = old(self)@.children.subrange(0, i + 1);
                assert(next.drop_last() =~= done);
                assert(next.last() == before);
                assert(changes_view(reported + found) =~= changes_view(reported) + changes_view(
                    found,
                ));
            }
            i += 1;
        }
        proof {
            assert(old(self)@.children.subrange(0, n as int) =~= old(self)@.children);
            assert(self@.children =~= old(self)@.cleaned().children);
        }
        result
    }

    /// The node that `path` leads to, for reading.
    pub fn node_at(&self, path: &[usize]) -> (r: Option<&SceneNode>)
        ensures
            self@.has_path(path@) == r.is_some(),
            r matches Some(node) ==> node@ == self@.at(path@),
        decreases path@.len(),
    {
        if path.len() == 0 {
            Some(self)
        } else {
            let i: usize = path[0];
            if i < self.children.len() {
                self.children[i].node_at(slice_subrange(path, 1, path.len()))
            } else {
                None
            }
        }
    }

    /// Applies `edit` to this node.
    pub fn edit(&mut self, edit: Edit)
        ensures
            final(self)@ == old(self)@.edited(edit),
    {
        match edit {
            Edit::AddChild(child) => self.add_child(child),
            Edit::RemoveChild(id) => self.remove_child(id),
            Edit::Rotation(rotation) => self.set_rotation(rotation),
            Edit::Position(position) => self.set_position(position),
            Edit::Scale(scale) => self.set_scale(scale),
        }
    }

    /// Applies `edit` to the node that `path` leads to. No other node is
    /// touched but those below that node.
    pub fn edit_at(&mut self, path: &[usize], edit: Edit)
        requires
            old(self)@.has_path(path@),
        ensures
            final(self)@ == old(self)@.replace_at(path@, old(self)@.at(path@).edited(edit)),
        decreases path@.len(),
    {
        if path.len() == 0 {
            self.edit(edit);
        } else {
            let i: usize = path[0];
            let child = &mut self.children[i];
            child.edit_at(slice_subrange(path, 1, path.len()), edit);
            proof {
                assert(self@.children =~= old(self)@.replace_at(
                    path@,
                    old(self)@.at(path@).edited(edit),
                ).children);
            }
        }
    }

    /// Sets the rotation, and marks this node and every node below it as
    /// changed.
    pub fn set_rotation(&mut self, rotation: Quaternion)
        ensures
            final(self)@ == old(self)@.rotated(rotation),
    {
        self.rotation = rotation;
        self.mark_subtree_dirty();
    }

    /// Sets the position, and marks this node and every node below it as
    /// changed.
    pub fn set_position(&mut self, position: Vector3)
        ensures
            final(self)@ == old(self)@.translated(position),
    {
        self.position = position;
        self.mark_subtree_dirty();
    }

    /// Turns the node further by `rotation`: `compose` multiplies the
    /// rotation that the node has by it. This node and every node below it
    /// are marked as changed.
    pub fn rotate<C: Fn(Quaternion, Quaternion) -> Quaternion>(
        &mut self,
        rotation: Quaternion,
        compose: &C,
    )
        requires
            call_requires(*compose, (old(self).rotation, rotation)),
        ensures
            call_ensures(*compose, (old(self).rotation, rotation), final(self).rotation),
            final(self)@ == old(self)@.rotated(final(self).rotation),
    {
        let turned = compose(self.rotation, rotation);
        self.set_rotation(turned);
    }

    /// Moves the node by `x`, `y` and `z`: `sum` adds each to the coordinate
    /// that the node has. This node and every node below it are marked as
    /// changed.
    pub fn translate<A: Fn(u32, u32) -> u32>(&mut self, x: u32, y: u32, z: u32, sum: &A)
        requires
            call_requires(*sum, (old(self).position.x, x)),
            call_requires(*sum, (old(self).position.y, y)),
            call_requires(*sum, (old(self).position.z, z)),
        ensures
            call_ensures(*sum, (old(self).position.x, x), final(self).position.x),
            call_ensures(*sum, (old(self).position.y, y), final(self).position.y),
            call_ensures(*sum, (old(self).position.z, z), final(self).position.z),
            final(self)@ == old(self)@.translated(final(self).position),
    {
        let moved = Vector3 {
            x: sum(self.position.x, x),
            y: sum(self.position.y, y),
            z: sum(self.position.z, z),
        };
        self.set_position(moved);
    }

    /// Sets the scale, and marks this node and every node below it as
    /// changed.
    pub fn set_scale(&mut self, scale: u32)
        ensures
            final(self)@ == old(self)@.scaled(scale),
    {
        self.scale = scale;
        self.mark_subtree_dirty();
    }
}

impl Clone for SceneNode {
    /// A copy of this node and of every node below it: `duplicate`.
    fn clone(&self) -> (r: Self)
        ensures
            r@ == self@,
    {
        self.duplicate()
    }
}

impl Default for SceneNode {
    /// A node that only groups: the same as `new_root`.
    fn default() -> (r: Self)
        ensures
            r@ == Node::root(),
    {
        SceneNode::new_root()
    }
}

} // verus!
