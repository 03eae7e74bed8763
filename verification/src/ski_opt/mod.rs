//! SkiOpt: the first SkiLang, over pictures of rectangles.
//!
//! A picture is a list of draw commands (rectangles, layers and restores).
//! SkiOpt turns it into a SkiLang expression of source-over compositions,
//! simplifies that expression with an e-graph, and writes the result back
//! as draw commands.
pub mod ski_lang;
pub mod skpicture;
