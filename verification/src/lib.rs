//! Live attendance tracking for an event: guests check in and out, the most
//! recent actions can be undone, bulk records are merged in, and guests and
//! hosts can be searched.
//!
//! The library works on a [`store::GuestStore`] held in memory. Whatever it
//! does to the store is defined by a function on the store's model, and the
//! executable code is proved to compute that function:
//!
//! - [`checkin`], [`toggle`], [`undo`]: the attendance machine and its undo
//!   stack; [`laws`] states what holds of them together.
//! - [`import`], [`names`], [`merge`]: reading bulk records and merging them
//!   into the store.
//! - [`search`], [`members`], [`stats`], [`export`]: listings of the store,
//!   ordered by [`rank`].
//! - [`load`]: building a store from records kept elsewhere.
//! - [`clock`], [`text`]: times of day and character sequences.
//!
//! Reading the clock, parsing free-form times, regular expressions and the
//! CSV encoding are left to the crates that do them; each call stands in a
//! small function whose contract is believed, not proved, and whose
//! documentation says what it claims.

pub mod checkin;
pub mod clock;
pub mod export;
pub mod import;
pub mod laws;
pub mod load;
pub mod members;
pub mod merge;
pub mod names;
pub mod rank;
pub mod search;
pub mod stats;
pub mod store;
pub mod text;
pub mod toggle;
pub mod undo;
