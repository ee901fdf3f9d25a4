//! The shared encodings: object identifiers, octet strings, contexts, search
//! ranges, values and variable bindings.
pub mod context;
pub mod dotted;
pub mod id;
pub mod octetstring;
pub mod searchrange;
pub mod value;

pub use context::Context;
pub use id::ID;
pub use octetstring::OctetString;
pub use searchrange::{SearchRange, SearchRangeList};
pub use value::{Value, VarBind, VarBindList};
