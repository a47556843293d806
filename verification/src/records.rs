//! Plain data records that game logic attaches to entities. They carry no
//! behaviour: whatever reads them decides what they mean.

use vstd::prelude::*;

verus! {

/// A position or an extent on the tile grid.
#[derive(Clone, Copy, Debug, PartialEq, Eq, Structural)]
pub struct Point {
    pub x: i32,
    pub y: i32,
}

impl Point {
    /// The point with the given coordinates.
    pub fn new(x: i32, y: i32) -> (point: Self)
        ensures
            point.x == x,
            point.y == y,
    {
        Point { x, y }
    }
}

/// The outcome of a path search: the linear indices of the cells to walk
/// through, in order, towards `destination`.
#[derive(Debug)]
pub struct NavigationPath {
    pub destination: usize,
    pub success: bool,
    pub steps: Vec<usize>,
}

impl NavigationPath {
    /// A path without steps that has not reached anything.
    pub fn new() -> (path: Self)
        ensures
            path.destination == 0,
            !path.success,
            path.steps@ == Seq::<usize>::empty(),
    {
        NavigationPath { destination: 0, success: false, steps: Vec::new() }
    }
}

/// Makes any value attachable to an entity.
pub struct Comp<T>(pub T);

impl<T> Comp<T> {
    /// Wraps `value`.
    pub fn new(value: T) -> (comp: Self)
        ensures
            comp.0 == value,
    {
        Comp(value)
    }
}

/// The index of a sprite within its sprite sheet.
pub struct SpriteIndex(pub usize);

/// The path that a mover follows. Storing a new one replaces the old one.
pub struct AiPath {
    pub path: NavigationPath,
}

impl AiPath {
    /// The record that holds `path`.
    pub fn new(path: NavigationPath) -> (record: Self)
        ensures
            record.path == path,
    {
        AiPath { path }
    }
}

/// Asks for a path from the mover's position to `target`.
pub struct AiDestination {
    pub target: Point,
}

impl AiDestination {
    /// The request to find a path to `target`.
    pub fn new(target: Point) -> (record: Self)
        ensures
            record.target == target,
    {
        AiDestination { target }
    }
}

/// Marks an entity that blocks the single tile it stands on.
pub struct Collision;

/// The part of the world that is shown on screen.
pub struct Camera {
    pub position: Point,
    pub size: Point,
}

impl Camera {
    /// The camera that shows the area of extent `size` at `position`.
    pub fn new(position: Point, size: Point) -> (camera: Self)
        ensures
            camera.position == position,
            camera.size == size,
    {
        Camera { position, size }
    }
}

/// A direction along one of the three axes.
#[derive(Debug, Clone, Copy)]
pub enum Direction {
    North,
    East,
    South,
    West,
    Up,
    Down,
}

} // verus!
