//! The scene's geometric primitives and their aggregate.

pub mod hittable_list;
pub mod sphere;

pub use hittable_list::HittableList;
pub use sphere::Sphere;
