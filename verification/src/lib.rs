//! Categories, functors, natural transformations and a hierarchy of levels
//! built from them, with every operation specified and proved.

pub mod category;
pub mod features;
pub mod hierarchy;
pub mod laws;
pub mod levelmap;
pub mod lift;
pub mod model;
pub mod natural;
pub mod process;
pub mod strmap;
pub mod text;
