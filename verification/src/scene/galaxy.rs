//! The graph of a sun, a planet and a moon, and one step of its motion.

use vstd::prelude::*;
use crate::scene::scenenode::Node;
use crate::transform::{Quaternion, Vector3, FIVE, TEN, THREE_QUARTERS, TWO, ZERO};

verus! {

/// `compose` accepts every pair of rotations.
pub open spec fn composer<C: Fn(Quaternion, Quaternion) -> Quaternion>(compose: &C) -> bool {
    forall|a: Quaternion, b: Quaternion| #[trigger] call_requires(*compose, (a, b))
}

/// A node for instance `instance_id` of the first model, at the place of
/// its parent, of the given scale.
pub open spec fn body(instance_id: usize, scale: u32) -> Node {
    Node { model_id: Some(0usize), instance_id: Some(instance_id), scale, ..Node::root() }
}

/// A node that only groups, at `x` along the x axis from its parent, with
/// the given children.
pub open spec fn orbit(x: u32, children: Seq<Node>) -> Node {
    Node { position: Vector3 { x, y: ZERO, z: ZERO }, children, ..Node::root() }
}

/// A sun, a planet two units from it, and a moon three quarters of a unit
/// from the planet, of scales ten, five and two: the graph that
/// `make_galaxy` builds for these three instances of the first model.
pub open spec fn galaxy(sun: usize, earth: usize, moon: usize) -> Node {
    orbit(
        ZERO,
        seq![
            body(sun, TEN),
            orbit(TWO, seq![body(earth, FIVE), orbit(THREE_QUARTERS, seq![body(moon, TWO)])]),
        ],
    )
}

/// The graph after the node that `path` leads to has been turned to
/// `rotation`.
pub open spec fn turned(graph: Node, path: Seq<usize>, rotation: Quaternion) -> Node {
    graph.replace_at(path, graph.at(path).rotated(rotation))
}

/// The graph after one step of the galaxy has turned the planet's orbit to
/// `p`, then the sun to `s`, then the moon's orbit to `m`.
pub open spec fn animated(graph: Node, p: Quaternion, s: Quaternion, m: Quaternion) -> Node {
    turned(turned(turned(graph, seq![1usize], p), seq![0usize], s), seq![1usize, 1usize], m)
}

/// `p`, `s` and `m` are what `compose` may return for the rotations that
/// the planet's orbit, the sun and the moon's orbit have when their turn
/// comes, and the rotations `planet`, `sun` and `moon` to turn them by.
pub open spec fn animates<C: Fn(Quaternion, Quaternion) -> Quaternion>(
    compose: &C,
    graph: Node,
    planet: Quaternion,
    sun: Quaternion,
    moon: Quaternion,
    p: Quaternion,
    s: Quaternion,
    m: Quaternion,
) -> bool {
    let first = turned(graph, seq![1usize], p);
    let second = turned(first, seq![0usize], s);
    &&& call_ensures(*compose, (graph.at(seq![1usize]).rotation, planet), p)
    &&& call_ensures(*compose, (first.at(seq![0usize]).rotation, sun), s)
    &&& call_ensures(*compose, (second.at(seq![1usize, 1usize]).rotation, moon), m)
}

} // verus!
