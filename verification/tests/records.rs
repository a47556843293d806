use collision_grid::AiDestination;
use collision_grid::AiPath;
use collision_grid::Camera;
use collision_grid::Collision;
use collision_grid::Comp;
use collision_grid::Direction;
use collision_grid::NavigationPath;
use collision_grid::Point;
use collision_grid::SpriteIndex;

#[test]
fn point_holds_its_coordinates() {
    let point = Point::new(-3, 8);
    assert_eq!(point.x, -3);
    assert_eq!(point.y, 8);
    assert_eq!(point, Point { x: -3, y: 8 });
    assert_ne!(point, Point { x: 8, y: -3 });
}

#[test]
fn comp_wraps_any_value() {
    let comp = Comp::new(41u8);
    assert_eq!(comp.0, 41);
    let text = Comp::new(String::from("door"));
    assert_eq!(text.0, "door");
}

#[test]
fn new_navigation_path_is_empty() {
    let path = NavigationPath::new();
    assert_eq!(path.destination, 0);
    assert!(!path.success);
    assert!(path.steps.is_empty());
}

#[test]
fn ai_path_holds_the_path() {
    let mut path = NavigationPath::new();
    path.destination = 9;
    path.success = true;
    path.steps = vec![1, 5, 9];
    let record = AiPath::new(path);
    assert_eq!(record.path.destination, 9);
    assert!(record.path.success);
    assert_eq!(record.path.steps, vec![1, 5, 9]);
}

#[test]
fn ai_destination_holds_the_target() {
    let record = AiDestination::new(Point::new(4, 2));
    assert_eq!(record.target, Point::new(4, 2));
}

#[test]
fn camera_holds_position_and_size() {
    let camera = Camera::new(Point::new(10, 20), Point::new(80, 50));
    assert_eq!(camera.position, Point::new(10, 20));
    assert_eq!(camera.size, Point::new(80, 50));
}

#[test]
fn sprite_index_and_markers_are_plain_values() {
    let index = SpriteIndex(7);
    assert_eq!(index.0, 7);
    let _ = Collision;
    let direction = Direction::South;
    let copy = direction;
    assert!(matches!(direction, Direction::South));
    assert!(matches!(copy, Direction::South));
    assert_eq!(format!("{:?}", Direction::Up), "Up");
}
