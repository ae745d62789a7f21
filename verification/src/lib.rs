//! Reading and writing macOS `.webloc` files: property-list documents that
//! store exactly one URL, in either the binary (`bplist00`) or the XML form
//! of the Apple property-list format.

pub mod bytes;
pub mod error;
pub mod bplist;
pub mod urlval;
pub mod xmlplist;
pub mod release;
pub mod webloc;

pub use crate::error::WeblocError;
pub use crate::urlval::Url;
pub use crate::webloc::decode;
pub use crate::webloc::decode_binary;
pub use crate::webloc::decode_xml;
pub use crate::webloc::encode_binary;
pub use crate::webloc::encode_xml;
pub use crate::webloc::Webloc;
