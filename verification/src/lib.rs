pub mod dates;
pub mod layout;
pub mod store;
pub mod todo;
pub mod vec2;
