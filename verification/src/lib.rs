//! Verified core of a small web service for users and chat rooms: form and
//! cookie handling, login throttling, request metrics, room and invitation
//! rules, and the end-to-end key exchange checks.
pub mod text;
pub mod error;
pub mod models;
pub mod users;
pub mod auth;
pub mod rate_limit;
pub mod metrics;
pub mod config;
pub mod context;
pub mod chat;
pub mod crypto;
pub mod views;
