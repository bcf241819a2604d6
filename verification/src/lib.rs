//! A face-attribution engine for a text editor: a registry of named visual
//! styles with stable handles, a per-character style grid kept in lockstep
//! with the buffer text, a syntax-aware overlay driven by a structural
//! parse, and a run-length coalescer that turns the grid into minimal
//! drawing instructions.

pub mod faces;
pub mod grid;
pub mod highlight;
pub mod segment;
pub mod text_mode;

pub use faces::Face;
pub use faces::FaceColor;
pub use faces::Faces;
pub use grid::TextContent;
pub use highlight::RustMode;
pub use text_mode::Global;
pub use text_mode::TextMinorMode;
pub use text_mode::TextMode;
