//! A desktop-automation agent core: the perception–decision–actuation loop of
//! an LLM-driven computer-use agent, with the decision and translation logic
//! verified. OS input synthesis, screen capture and HTTP transport are left to
//! the embedding program; this crate computes exactly what they must do.

pub mod a11y;
pub mod action;
pub mod agent;
pub mod capture;
pub mod editor;
pub mod error;
pub mod history;
pub mod json;
pub mod jsonparse;
pub mod keyboard;
pub mod mouse;
pub mod msg;
pub mod shell;
pub mod state;
pub mod text;
pub mod tools;
pub mod window;
pub mod wire;
