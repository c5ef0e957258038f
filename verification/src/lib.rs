//! Streaming codec for `multipart/form-data` bodies.
//!
//! An outgoing [`Multipart`] collects named entries and encodes them into one
//! boundary-delimited byte stream; an incoming one decodes such a stream back
//! into its entries. The [`Decoder`] underneath is an incremental state
//! machine: it accepts the stream in chunks of any size and its result depends
//! only on the bytes, never on how they were cut.
pub mod error;
pub mod boundary;
pub mod quoting;
pub mod scan;
pub mod body;
pub mod entry;
pub mod text;
pub mod header;
pub mod wire;
pub mod machine;
pub mod encoder;
pub mod decoder;
pub mod multipart;
pub mod chunking;
pub mod scanning;
pub mod reading;
pub mod roundtrip;

pub use body::Body;
pub use boundary::Boundary;
pub use decoder::{Decoder, Phase};
pub use encoder::Encoder;
pub use entry::Entry;
pub use multipart::Multipart;
pub use error::{Error, ErrorKind};
