//! A small discounted-cash-flow calculator service core.
//!
//! The library covers the computation-and-push pipeline of the service:
//! decoding client-supplied signals, laying out the valuation table,
//! rendering markup fragments, and planning the ordered, cancellable
//! emission of those fragments over a push channel. Transport, routing
//! and the floating-point arithmetic itself live outside the library.

pub mod calculator;
pub mod fragment;
pub mod home;
pub mod numeral;
pub mod rounding;
pub mod signals;
pub mod stream;

pub use fragment::render_literal;
pub use fragment::Fragment;
pub use numeral::parse_u64;
pub use numeral::u64_to_string;
