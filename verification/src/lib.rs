//! A tagged-value store.
//!
//! Values are held under identifiers and addressed by tags. A tag names an
//! entry, as in `sensor`, or one element or a run of elements of an entry
//! that is a sequence, as in `sensor[3]`, `buffer[10-20]` and `buffer[5-]`.
//!
//! - [`tag`] holds the tags, their text grammar and its inverse;
//! - [`tag_map`] holds the store and what reading, writing and deleting
//!   through a tag mean;
//! - [`tag_table`] holds the ordered table that the store keeps its entries
//!   in;
//! - [`sequence`] holds the reads and rewrites of parts of a sequence;
//! - [`laws`] states what holds of all of these whatever the inputs.
//!
//! Every function is specified over mathematical views: a tag as a
//! [`TagView`], a value as a [`ValueView`], a store as a map from
//! [`TagIdView`] to [`ValueView`].

pub mod error;
pub mod laws;
pub mod range;
pub mod sequence;
pub mod tag;
pub mod tag_id;
pub mod tag_map;
pub mod tag_table;
pub mod text;
pub mod value;

pub use error::{Error, ErrorKind};
pub use range::{Range, RangeView};
pub use tag::{Tag, TagView};
pub use tag_id::{Order, TagId, TagIdView};
pub use tag_map::TagMap;
pub use tag_table::TagTable;
pub use value::{Value, ValueView};
