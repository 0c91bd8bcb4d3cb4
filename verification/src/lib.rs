//! Verified core of a build-host monitor: request routing, metric histories,
//! log handling and the labels the dashboard shows.
pub mod build_target;
pub mod clock;
pub mod collector;
pub mod format;
pub mod http;
pub mod interfaces;
pub mod leadership;
pub mod logs;
pub mod metrics_doc;
pub mod net_history;
pub mod sparkline;
pub mod text;
