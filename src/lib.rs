//! Builds an HTML page that previews one character in a list of font
//! families, and holds the small web server that serves that page.

pub mod escape;
pub mod page;
pub mod server;
