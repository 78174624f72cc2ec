use vstd::prelude::*;

use crate::text::text_equals;

verus! {

/// The built-in scenes.
#[derive(PartialEq, Eq, Structural, Clone, Copy, Debug)]
pub enum SceneKind {
    /// A red sphere on a plane.
    Sphere,
    /// A blue cube on a plane, under dimmer light.
    PlaneCube,
    /// A plane, a sphere, a cube and a cylinder.
    AllObjects,
    /// The same objects seen from another camera position.
    AllObjectsAlt,
}

/// The scene that the name `name` selects: `plane-cube`, `all-objects` and
/// `all-objects-alt` select those scenes, and every other name selects the
/// sphere scene.
pub open spec fn scene_of_name(name: Seq<char>) -> SceneKind {
    if name == "plane-cube"@ {
        SceneKind::PlaneCube
    } else if name == "all-objects"@ {
        SceneKind::AllObjects
    } else if name == "all-objects-alt"@ {
        SceneKind::AllObjectsAlt
    } else {
        SceneKind::Sphere
    }
}

/// Selects the scene that `name` names, falling back to the sphere scene.
pub fn select_scene(name: &str) -> (k: SceneKind)
    ensures
        k == scene_of_name(name@),
{
    if text_equals(name, "plane-cube") {
        SceneKind::PlaneCube
    } else if text_equals(name, "all-objects") {
        SceneKind::AllObjects
    } else if text_equals(name, "all-objects-alt") {
        SceneKind::AllObjectsAlt
    } else {
        SceneKind::Sphere
    }
}

} // verus!
