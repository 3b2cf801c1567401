//! An in-memory publish/subscribe message broker.
//!
//! Producers publish payloads into named topics; consumers pull them through
//! named subscriptions and acknowledge what they have processed. A message that
//! is not acknowledged within its subscription's deadline is delivered again.
//! Messages, subscriptions and topics can each carry a time to live.

pub mod time;
pub mod commit_log;
pub mod message;
pub mod topic;
pub mod subscription;
pub mod names;
pub mod registry;
pub mod metrics;
pub mod http_protocol;

pub use crate::message::Message;
pub use crate::metrics::{Metrics, SubscriptionMetrics, TopicMetrics};
pub use crate::registry::Registry;
pub use crate::subscription::{Subscription, SubscriptionMeta};
pub use crate::time::{Duration, Timestamp};
pub use crate::topic::{Topic, TopicMeta};
