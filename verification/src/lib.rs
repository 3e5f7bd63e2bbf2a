//! A verified implementation of a binary wire format with a split
//! fixed/heap layout, relative offsets and a strict canonical form.
use vstd::prelude::*;

pub mod api;
pub mod bytes;
pub mod check;
pub mod dec;
pub mod enc;
pub mod err;
pub mod invite;
pub mod laws;
pub mod pack;
pub mod list;
pub mod package;
pub mod roundtrip;
pub mod sdec;
pub mod size;
pub mod sound;
pub mod ty;
pub mod utf8;
pub mod util;
pub mod value;

pub use api::unpack;
pub use api::verify;
pub use err::Error;
pub use pack::pack;
pub use size::pack_checked;
pub use ty::Ty;
pub use value::Value;
