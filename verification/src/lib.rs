//! Core of an online-judge service: admission of submissions into contests,
//! job lifecycle tracking, and ranklist computation, with machine-checked
//! contracts over an in-memory model of the persisted state.

pub mod admission;
pub mod error;
pub mod ids;
pub mod jobs;
pub mod model;
pub mod ranklist;
pub mod store;
pub mod timestamp;
