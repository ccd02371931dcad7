//! The control panel's settings and the choices it offers.
pub mod overrides;
pub mod panel;
