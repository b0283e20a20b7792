//! The graphical browser: drawing primitives, page layout and the browser's state machine.
pub mod paint;
pub mod layers;
pub mod layout;


pub mod browser;
pub mod page;
pub mod paged;
pub mod fits;
pub mod flatten;
