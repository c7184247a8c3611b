//! Request-scoped error localization: locale negotiation, message resource
//! stores, template rendering, and a closed error taxonomy mapped to stable
//! codes and HTTP statuses.

pub mod backend;
pub mod config;
pub mod context;
pub mod diff;
pub mod dto;
pub mod error;
pub mod locale;
pub mod message;
pub mod negotiate;
pub mod renderer;
pub mod response;
pub mod store;
pub mod template;
pub mod text;
