//! A local-first task tracker's core: a versioned store brought up to date by an
//! ordered catalog of schema migrations, a task table, and a lifecycle manager
//! that derives notification and haptic requests from task state changes.
pub mod ledger;
pub mod schema;
pub mod migration;
pub mod task;
pub mod store;
pub mod lifecycle;
pub mod dispatch;
