//! Protocol data units: a fixed header, an optional context, and a payload
//! whose layout depends on the kind of PDU.
pub mod header;
pub mod requests;
pub mod response;
pub mod session;
pub mod truncation;

pub use header::{
    CloseReason, Header, ResError, Type, ANY_INDEX, INSTANCE_REGISTRATION, NETWORK_BYTE_ORDER, NEW_INDEX,
    NON_DEFAULT_CONTEXT,
};
pub use requests::{
    CleanupSet, CommitSet, Get, GetBulk, GetNext, IndexAllocate, IndexDeallocate, Notify, TestSet, UndoSet,
};
pub use response::Response;
pub use session::{AddAgentCaps, Close, Open, Ping, Register, RemoveAgentCaps, Unregister};
