pub mod geometry;
pub mod quadtree;
pub mod steering;
pub mod agents;
pub mod simulation;
