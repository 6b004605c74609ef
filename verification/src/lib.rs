//! Core data model of a property graph: identifiable, labeled elements
//! (vertices and edges) carrying key/value properties, edges connecting
//! exactly two vertices with an explicit direction, and the direction
//! algebra (`Out`, `In`, `Both`) used to select edge endpoints.

pub mod direction;
pub mod edge;
pub mod element;
pub mod errors;
pub mod property;
mod text;
