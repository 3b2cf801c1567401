//! The settings of the service and the state its handlers work on.

use crate::registry::Registry;
use crate::time::Duration;
use vstd::prelude::*;

verus! {

/// The settings of the service.
#[derive(Debug, PartialEq, Eq)]
pub struct Config {
    /// An IP address or host the service listens on.
    pub host: String,
    /// A port number to listen on.
    pub port: u16,
    /// Time to live of a topic that is created without one.
    pub default_topic_ttl: Duration,
    /// Time to live of a subscription that is created without one.
    pub default_subscription_ttl: Duration,
    /// Time to live of the messages of a topic that is created without one.
    pub default_message_ttl: Duration,
    /// Ack deadline of a subscription that is created without one.
    pub default_ack_deadline: Duration,
    /// The most messages a pull hands out that does not say how many it wants.
    pub default_max_messages: usize,
    /// The time between two cleanups.
    pub cleanup_interval: Duration,
}

impl Clone for Config {
    fn clone(&self) -> (c: Self)
        ensures
            c == *self,
    {
        Config {
            host: self.host.clone(),
            port: self.port,
            default_topic_ttl: self.default_topic_ttl,
            default_subscription_ttl: self.default_subscription_ttl,
            default_message_ttl: self.default_message_ttl,
            default_ack_deadline: self.default_ack_deadline,
            default_max_messages: self.default_max_messages,
            cleanup_interval: self.cleanup_interval,
        }
    }
}

/// What the handlers work on: the registry and the settings.
#[derive(Debug)]
pub struct HttpState {
    pub registry: Registry,
    pub config: Config,
}

impl HttpState {
    /// The state of a service that has `registry` and is set up by `config`.
    pub fn new(registry: Registry, config: &Config) -> (state: Self)
        ensures
            state.registry == registry,
            state.config == *config,
    {
        HttpState { registry, config: config.clone() }
    }
}

} // verus!
