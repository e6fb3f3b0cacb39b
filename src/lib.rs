//! OMG-WTF-8: a byte encoding of 16-bit code-unit sequences (with unpaired
//! surrogates) that coincides with UTF-8 on valid text and can be sliced at
//! any 16-bit boundary, including inside a supplementary code point.
pub mod tbs;
pub mod encoding;
pub mod string;
pub mod conv;
pub mod cmp;
pub mod slice;
pub mod pattern;
pub mod matching;
pub mod elem;
pub mod lemmas;
pub mod canon;
pub mod cuts;
pub mod equiv;
pub mod laws;

pub use conv::EncodeWide;
pub use elem::SliceElemSearcher;
pub use matching::Split;
pub use pattern::{OmgWtf8Searcher, SearchError};
pub use string::OmgWtf8;
