//! The answers to requests about subscriptions.

use crate::http_protocol::state::{Config, HttpState};
use crate::http_protocol::types::{
    optional_seconds, optional_span, MessageIdList, MessageList, PullConfig, SubscriptionCreateConfig,
    SubscriptionList, SubscriptionUpdateConfig,
};
use crate::http_protocol::Status;
use crate::message::{fresh_id, id_text, uuid_text};
use crate::registry::Registry;
use crate::subscription::{SubscriptionMeta, SubscriptionMetaView};
use vstd::prelude::*;

verus! {

/// Creates the subscription `name` with the settings of `config`, where it
/// gives them, and those of `cfg`, where it does not. Answers None if the
/// topic does not exist; otherwise the status tells a subscription that was
/// created from one that was there already.
pub fn create(name: &str, config: &SubscriptionCreateConfig, reg: &mut Registry, cfg: &Config) -> (r: Option<
    (Status, SubscriptionMeta),
>)
    requires
        old(reg).wf(),
    ensures
        final(reg).wf(),
        r is Some == old(reg)@.has_topic(config.topic@),
        r is None ==> final(reg)@ == old(reg)@,
        r matches Some((status, meta)) ==> {
            &&& status == Status::creation(!old(reg)@.has_subscription(name@))
            &&& final(reg)@ == old(reg)@.create_subscription(
                name@,
                config.topic@,
                config.resolved(*cfg).ack_deadline,
                config.resolved(*cfg).ttl,
                config.resolved(*cfg).historical,
                meta@.created,
            )
            &&& final(reg)@.has_subscription(name@)
            &&& meta@ == SubscriptionMetaView::of(final(reg)@.subscription(name@).subscription)
        },
{
    let settings = config.resolve(cfg);
    match reg.create_subscription(
        name,
        settings.topic.as_str(),
        settings.ack_deadline,
        settings.ttl,
        settings.historical,
    ) {
        Some((created, subscription)) => {
            let status = if created {
                Status::Created
            } else {
                Status::Conflict
            };
            Some((status, subscription))
        },
        None => None,
    }
}

/// Answers a request to create the subscription `name`.
pub fn create_with_name(name: &str, config: &SubscriptionCreateConfig, state: &mut HttpState) -> (r: Option<
    (Status, SubscriptionMeta),
>)
    requires
        old(state).registry.wf(),
    ensures
        final(state).registry.wf(),
        final(state).config == old(state).config,
        r is Some == old(state).registry@.has_topic(config.topic@),
        r is None ==> final(state).registry@ == old(state).registry@,
        r matches Some((status, meta)) ==> {
            &&& status == Status::creation(!old(state).registry@.has_subscription(name@))
            &&& final(state).registry@ == old(state).registry@.create_subscription(
                name@,
                config.topic@,
                config.resolved(old(state).config).ack_deadline,
                config.resolved(old(state).config).ttl,
                config.resolved(old(state).config).historical,
                meta@.created,
            )
            &&& final(state).registry@.has_subscription(name@)
            &&& meta@ == SubscriptionMetaView::of(final(state).registry@.subscription(name@).subscription)
        },
{
    create(name, config, &mut state.registry, &state.config)
}

/// Answers a request to create a subscription that gives no name: the
/// subscription gets the text of a fresh UUID for its name.
pub fn create_without_name(config: &SubscriptionCreateConfig, state: &mut HttpState) -> (r: Option<
    (Status, SubscriptionMeta),
>)
    requires
        old(state).registry.wf(),
    ensures
        final(state).registry.wf(),
        final(state).config == old(state).config,
        r is Some == old(state).registry@.has_topic(config.topic@),
        r is None ==> final(state).registry@ == old(state).registry@,
        r matches Some((status, meta)) ==> {
            &&& exists|id: u128| meta@.name == #[trigger] uuid_text(id)
            &&& meta@.name.len() == 36
            &&& status == Status::creation(!old(state).registry@.has_subscription(meta@.name))
            &&& final(state).registry@ == old(state).registry@.create_subscription(
                meta@.name,
                config.topic@,
                config.resolved(old(state).config).ack_deadline,
                config.resolved(old(state).config).ttl,
                config.resolved(old(state).config).historical,
                meta@.created,
            )
            &&& final(state).registry@.has_subscription(meta@.name)
            &&& meta@ == SubscriptionMetaView::of(
                final(state).registry@.subscription(meta@.name).subscription,
            )
        },
{
    let name = id_text(fresh_id());
    create(name.as_str(), config, &mut state.registry, &state.config)
}

/// Answers a request to update the subscription `name`: its description
/// after the update, or None if there is no such subscription.
pub fn update(name: &str, config: &SubscriptionUpdateConfig, state: &mut HttpState) -> (r: Option<
    SubscriptionMeta,
>)
    requires
        old(state).registry.wf(),
    ensures
        final(state).registry.wf(),
        final(state).config == old(state).config,
        r is Some == old(state).registry@.has_subscription(name@),
        r is None ==> final(state).registry@ == old(state).registry@,
        r matches Some(meta) ==> {
            &&& final(state).registry@ == old(state).registry@.update_subscription(
                name@,
                optional_span(config.ack_deadline),
                optional_span(config.ttl),
                meta@.updated,
            )
            &&& meta@ == SubscriptionMetaView::of(final(state).registry@.subscription(name@).subscription)
        },
{
    let ack_deadline = optional_seconds(config.ack_deadline);
    let ttl = optional_seconds(config.ttl);
    state.registry.update_subscription(name, ack_deadline, ttl)
}

/// Answers a request to delete the subscription `name`.
pub fn delete(name: &str, state: &mut HttpState) -> (r: Status)
    requires
        old(state).registry.wf(),
    ensures
        final(state).registry.wf(),
        final(state).config == old(state).config,
        r == Status::deletion(old(state).registry@.has_subscription(name@)),
        final(state).registry@ == old(state).registry@.delete_subscription(name@),
{
    if state.registry.delete_subscription(name) {
        Status::Success
    } else {
        Status::NotFound
    }
}

/// Answers a request for the subscription `name`: its description, or None
/// if there is no such subscription.
pub fn get(name: &str, state: &HttpState) -> (r: Option<SubscriptionMeta>)
    requires
        state.registry.wf(),
    ensures
        r is Some == state.registry@.has_subscription(name@),
        r matches Some(meta) ==> meta@ == SubscriptionMetaView::of(
            state.registry@.subscription(name@).subscription,
        ),
{
    state.registry.get_subscription(name)
}

/// Answers a request for all subscriptions.
pub fn list(state: &HttpState) -> (r: SubscriptionList)
    ensures
        r.subscriptions@.len() == state.registry@.subscriptions.len(),
        forall|s: int|
            0 <= s < r.subscriptions@.len() ==> (#[trigger] r.subscriptions@[s])@ == SubscriptionMetaView::of(
                state.registry@.subscriptions[s].subscription,
            ),
{
    SubscriptionList::new(state.registry.list_subscriptions())
}

/// Answers a request to pull from the subscription `name`: up to as many
/// messages as `config` asks for, or as the settings allow if it does not
/// say; None if there is no such subscription.
pub fn pull(name: &str, config: &PullConfig, state: &mut HttpState) -> (r: Option<MessageList>)
    requires
        old(state).registry.wf(),
    ensures
        final(state).registry.wf(),
        final(state).config == old(state).config,
        r is Some == old(state).registry@.has_subscription(name@),
        r is None ==> final(state).registry@ == old(state).registry@,
        r matches Some(list) ==> {
            let max = config.resolved(old(state).config);
            &&& final(state).registry@.has_subscription(name@)
            &&& max == 0 ==> list.messages@.len() == 0 && final(state).registry@ == old(state).registry@
            &&& max > 0 ==> {
                let now = final(state).registry@.subscription(name@).subscription.updated;
                &&& list.messages@ == old(state).registry@.pulled(name@, max as nat, now)
                &&& final(state).registry@ == old(state).registry@.pull(name@, max as nat, now)
            }
        },
{
    let max = match config.max_messages {
        Some(max) => max,
        None => state.config.default_max_messages,
    };
    match state.registry.pull(name, max) {
        Some(messages) => Some(MessageList::new(messages)),
        None => None,
    }
}

/// Answers a request to ack `ids` to the subscription `name`: the ids that
/// were accepted, or None if there is no such subscription.
pub fn ack(name: &str, ids: &MessageIdList, state: &mut HttpState) -> (r: Option<MessageIdList>)
    requires
        old(state).registry.wf(),
    ensures
        final(state).registry.wf(),
        final(state).config == old(state).config,
        r is Some == old(state).registry@.has_subscription(name@),
        r is None ==> final(state).registry@ == old(state).registry@,
        r matches Some(acked) ==> {
            &&& final(state).registry@.has_subscription(name@)
            &&& ids.message_ids@.len() == 0 ==> acked.message_ids@.len() == 0 && final(state).registry@ == old(
                state,
            ).registry@
            &&& ids.message_ids@.len() > 0 ==> {
                let now = final(state).registry@.subscription(name@).subscription.updated;
                &&& acked.message_ids@ == old(state).registry@.acked(name@, ids.message_ids@, now)
                &&& final(state).registry@ == old(state).registry@.ack(name@, ids.message_ids@, now)
            }
        },
{
    match state.registry.ack(name, ids.message_ids.as_slice()) {
        Some(acked) => Some(MessageIdList::new(acked)),
        None => None,
    }
}

} // verus!
