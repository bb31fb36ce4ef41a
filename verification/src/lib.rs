//! Core of a timetable service: session-based authentication, a role
//! authorization gate, a recurring weekly schedule store and a date-scoped
//! override engine with lazy expiry, together with the plain reference-data
//! stores around them.
//!
//! Every store is modelled as explicit in-process state; the clock and the
//! calendar date are passed in by the caller, so expiry behaviour is fully
//! specified and testable.

pub mod auth;
pub mod calendar;
pub mod changes;
pub mod directory;
pub mod errors;
pub mod groups;
pub mod links;
pub mod models;
pub mod schedule;
pub mod subjects;
pub mod seq_util;
pub mod session;

pub use errors::AppError;
pub use errors::ErrorResponse;
