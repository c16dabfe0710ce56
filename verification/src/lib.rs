//! Verified core of the kiorg file manager: visit history encoding,
//! selection and marking rules of a tab, and the decisions of the
//! application and of its file chooser portal.
pub mod app;
pub mod paths;
pub mod portal;
pub mod tab;
pub mod text;
pub mod visit_history;
