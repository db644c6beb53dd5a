//! The server-side rendering interface: the data a page render consumes and
//! the renderer trait a template engine implements.

use vstd::prelude::*;

verus! {

/// Rendering failed.
#[derive(Debug)]
pub struct Error(pub String);

/// A page renderer, implemented over some template engine by the embedding
/// application; nothing is promised of the rendered text.
pub trait Renderer: Sized {
    /// Renders one page.
    fn render(&self, data: Data) -> Result<String, Error>;
}

/// The data a page render consumes.
#[derive(Debug)]
pub struct Data {
    pub base_url: String,
    pub title: String,
    pub description: String,
    pub content: String,
}

} // verus!
