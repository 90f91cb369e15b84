pub mod args;
pub mod compose;
pub mod layout;
pub mod select;
