//! What holds of the protocol as a whole.

pub mod calls;
pub mod shares;
pub mod authority;
pub mod books;
pub mod solvency;
pub mod claims;
pub mod markets;
pub mod history;
pub mod notices;
pub mod storage;
pub mod records;
pub mod vocabulary;
pub mod terms;
pub mod payments;
