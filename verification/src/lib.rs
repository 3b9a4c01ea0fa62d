//! Full-screen, scrollable and searchable view of a text graph whose lines may
//! carry ANSI colors.
//!
//! The modules split the viewer's logic from the terminal: `text` handles
//! strings, `width` the columns a character takes, `ansi` escape sequences and
//! visible text, `window` the horizontal cut of a line and padding, `search`
//! pattern matching, and `viewer` and `render` the state of the view and what
//! is shown on screen.
pub mod text;
pub mod width;
pub mod ansi;
pub mod window;
pub mod search;
pub mod viewer;
pub mod render;
