//! Request and response shapes, one module per operation, with the verified
//! `InternalRouter` entry point for each.

pub mod remove;
pub mod remove_service;
pub mod set;
pub mod set_service;
pub mod show;
pub mod show_overlay;
pub mod show_service;
