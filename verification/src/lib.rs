//! The logic of a daemon that caches what providers know of a machine and its
//! projects, and answers clients from the cache.
//!
//! A request names a key, which [`query`] turns into a plan. [`get`] and [`watch`]
//! carry plans out in steps: whoever runs them tells the scheduler, runs sources and
//! sends responses, and hands the outcome back. [`server`] handles every other
//! request, and [`report`] and [`status`] write what the daemon says of itself.
//! The other modules hold the laws that span these: [`course`] and [`runs`] those of
//! reads and of the sources that run for them, [`storage`] those of stored data,
//! [`handling`] those of the calls that change a server, and [`account`] those of its
//! reports.

pub mod account;
pub mod cache;
pub mod course;
pub mod get;
pub mod handling;
pub mod protocol;
pub mod provider;
pub mod query;
pub mod read;
pub mod report;
pub mod runs;
pub mod server;
pub mod status;
pub mod storage;
pub mod text;
pub mod value;
pub mod watch;
pub mod watcher;
