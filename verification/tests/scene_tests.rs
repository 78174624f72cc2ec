use rt::scene::{select_scene, SceneKind};

#[test]
fn the_named_scenes_are_selected() {
    assert_eq!(select_scene("sphere"), SceneKind::Sphere);
    assert_eq!(select_scene("plane-cube"), SceneKind::PlaneCube);
    assert_eq!(select_scene("all-objects"), SceneKind::AllObjects);
    assert_eq!(select_scene("all-objects-alt"), SceneKind::AllObjectsAlt);
}

#[test]
fn other_names_fall_back_to_the_sphere() {
    assert_eq!(select_scene(""), SceneKind::Sphere);
    assert_eq!(select_scene("cube"), SceneKind::Sphere);
    assert_eq!(select_scene("Plane-Cube"), SceneKind::Sphere);
    assert_eq!(select_scene("all-objects-alt "), SceneKind::Sphere);
}
