//! A suspicious-activity reporting ledger with role-gated access.
//!
//! Any account may file a report against another account. Reports get a
//! deterministic 256-bit identifier, submitters are rate-limited by a
//! 24-hour cooldown, and the ledger keeps at most a fixed number of
//! reports, evicting the oldest when full. A single root legal authority
//! manages a set of delegates; delegates manage a set of law-enforcement
//! entities; delegates and entities may read the ledger, delegates may
//! also read the roster of privileged accounts.
//!
//! The hosting environment supplies the caller's verified identity and a
//! monotonically non-decreasing logical timestamp with every call; both
//! enter the library as plain arguments.

pub mod account;
pub mod assoc;
pub mod digest;
pub mod laws;
pub mod storage;
pub mod types;
