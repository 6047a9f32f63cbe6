//! The forward-auth sidecar: signed session cookies, password records,
//! URL/form handling and the decisions behind each route.
pub mod encoding;
pub mod cookie;
pub mod users;
pub mod form;
pub mod pages;
pub mod gate;
