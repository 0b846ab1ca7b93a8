//! Parsers and writers for the micro-syntaxes of SVG attribute values,
//! with path data at their centre.
pub mod error;
pub mod stream;
pub mod segment;
pub mod path_parser;
pub mod path_writer;
pub mod converter;
pub mod round_trip;
pub mod options;
pub mod relative_position;
pub mod iri;
pub mod escape;
pub mod style;
pub mod aspect_ratio;
pub mod color;
pub mod line_cap_join;

pub use crate::error::Error;
pub use crate::stream::Stream;
pub use crate::segment::{PathCommand, PathSegment};
pub use crate::path_parser::PathParser;
pub use crate::options::{ListSeparator, WriteOptions};
pub use crate::relative_position::RelativePosition;
pub use crate::style::StyleParser;
pub use crate::escape::escape_string;
pub use crate::path_parser::parse_path;
pub use crate::path_writer::write_path;
pub use crate::aspect_ratio::{Align, AspectRatio};
pub use crate::color::Color;
pub use crate::line_cap_join::{LineCap, LineJoin};
