//! Verified core of the home inventory: request planning, answer reading
//! and device mapping for each sync source, Node-RED snapshot masking and
//! ordering, the HTML device view, secret lists, git publish plans and
//! firmware-snapshot rules, the inventory server's user and routes, and the
//! forward-auth sidecar's cookies, password records and request decisions.
pub mod text;
pub mod authgate;
pub mod types;
pub mod views;
pub mod secrets;
pub mod git_publish;
pub mod auth;
pub mod http;
pub mod db;
pub mod sync;
