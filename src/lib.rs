//! Record/replay HTTP mocking: route matching, fixture path derivation,
//! file-to-directory promotion planning and the recording decisions.
pub mod config;
pub mod dispatch;
pub mod record;
pub mod storage;
pub mod text;
