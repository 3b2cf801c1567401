//! The answers to requests about topics.

use crate::http_protocol::state::{Config, HttpState};
use crate::http_protocol::types::{
    optional_seconds, optional_span, MessageIdList, RawMessageList, SubscriptionNameList, TopicCreateConfig,
    TopicList, TopicUpdateConfig,
};
use crate::http_protocol::Status;
use crate::message::{fresh_id, id_text, uuid_text};
use crate::names;
use crate::registry::Registry;
use crate::time::Timestamp;
use crate::topic::{TopicMeta, TopicMetaView};
use vstd::prelude::*;

verus! {

/// Creates the topic `name` with the settings of `config`, where it gives
/// them, and those of `cfg`, where it does not. The status tells a topic that
/// was created from one that was there already.
pub fn create(name: &str, config: &TopicCreateConfig, reg: &mut Registry, cfg: &Config) -> (r: (
    Status,
    TopicMeta,
))
    requires
        old(reg).wf(),
    ensures
        final(reg).wf(),
        r.0 == Status::creation(!old(reg)@.has_topic(name@)),
        final(reg)@ == old(reg)@.create_topic(
            name@,
            config.resolved(*cfg).message_ttl,
            config.resolved(*cfg).ttl,
            r.1@.created,
        ),
        final(reg)@.has_topic(name@),
        r.1@ == TopicMetaView::of(final(reg)@.topic(name@).topic),
{
    let settings = config.resolve(cfg);
    let (created, topic) = reg.create_topic(name, settings.message_ttl, settings.ttl);
    let status = if created {
        Status::Created
    } else {
        Status::Conflict
    };
    (status, topic)
}

/// Answers a request to create the topic `name`.
pub fn create_with_name(name: &str, config: &TopicCreateConfig, state: &mut HttpState) -> (r: (
    Status,
    TopicMeta,
))
    requires
        old(state).registry.wf(),
    ensures
        final(state).registry.wf(),
        final(state).config == old(state).config,
        r.0 == Status::creation(!old(state).registry@.has_topic(name@)),
        final(state).registry@ == old(state).registry@.create_topic(
            name@,
            config.resolved(old(state).config).message_ttl,
            config.resolved(old(state).config).ttl,
            r.1@.created,
        ),
        final(state).registry@.has_topic(name@),
        r.1@ == TopicMetaView::of(final(state).registry@.topic(name@).topic),
{
    create(name, config, &mut state.registry, &state.config)
}

/// Answers a request to create a topic that gives no name: the topic gets
/// the text of a fresh UUID for its name.
pub fn create_without_name(config: &TopicCreateConfig, state: &mut HttpState) -> (r: (Status, TopicMeta))
    requires
        old(state).registry.wf(),
    ensures
        final(state).registry.wf(),
        final(state).config == old(state).config,
        exists|id: u128| r.1@.name == #[trigger] uuid_text(id),
        r.1@.name.len() == 36,
        r.0 == Status::creation(!old(state).registry@.has_topic(r.1@.name)),
        final(state).registry@ == old(state).registry@.create_topic(
            r.1@.name,
            config.resolved(old(state).config).message_ttl,
            config.resolved(old(state).config).ttl,
            r.1@.created,
        ),
        final(state).registry@.has_topic(r.1@.name),
        r.1@ == TopicMetaView::of(final(state).registry@.topic(r.1@.name).topic),
{
    let name = id_text(fresh_id());
    create(name.as_str(), config, &mut state.registry, &state.config)
}

/// Answers a request to update the topic `name`: its description after the
/// update, or None if there is no such topic.
pub fn update(name: &str, config: &TopicUpdateConfig, state: &mut HttpState) -> (r: Option<TopicMeta>)
    requires
        old(state).registry.wf(),
    ensures
        final(state).registry.wf(),
        final(state).config == old(state).config,
        r is Some == old(state).registry@.has_topic(name@),
        r is None ==> final(state).registry@ == old(state).registry@,
        r matches Some(meta) ==> {
            &&& final(state).registry@ == old(state).registry@.update_topic(
                name@,
                optional_span(config.message_ttl),
                optional_span(config.ttl),
                meta@.updated,
            )
            &&& meta@ == TopicMetaView::of(final(state).registry@.topic(name@).topic)
        },
{
    let message_ttl = optional_seconds(config.message_ttl);
    let ttl = optional_seconds(config.ttl);
    state.registry.update_topic(name, message_ttl, ttl)
}

/// Answers a request to delete the topic `name`; every subscription linked
/// to the topic goes with it.
pub fn delete(name: &str, state: &mut HttpState) -> (r: Status)
    requires
        old(state).registry.wf(),
    ensures
        final(state).registry.wf(),
        final(state).config == old(state).config,
        r == Status::deletion(old(state).registry@.has_topic(name@)),
        final(state).registry@ == old(state).registry@.delete_topic(name@),
{
    if state.registry.delete_topic(name) {
        Status::Success
    } else {
        Status::NotFound
    }
}

/// Answers a request for the topic `name`: its description, or None if there
/// is no such topic.
pub fn get(name: &str, state: &HttpState) -> (r: Option<TopicMeta>)
    requires
        state.registry.wf(),
    ensures
        r is Some == state.registry@.has_topic(name@),
        r matches Some(meta) ==> meta@ == TopicMetaView::of(state.registry@.topic(name@).topic),
{
    state.registry.get_topic(name)
}

/// Answers a request for all topics.
pub fn list(state: &HttpState) -> (r: TopicList)
    ensures
        r.topics@.len() == state.registry@.topics.len(),
        forall|t: int|
            0 <= t < r.topics@.len() ==> (#[trigger] r.topics@[t])@ == TopicMetaView::of(
                state.registry@.topics[t].topic,
            ),
{
    TopicList::new(state.registry.list_topics())
}

/// Answers a request for the names of the subscriptions linked to the topic
/// `name`, or None if there is no such topic.
pub fn subscriptions(name: &str, state: &HttpState) -> (r: Option<SubscriptionNameList>)
    requires
        state.registry.wf(),
    ensures
        r is Some == state.registry@.has_topic(name@),
        r matches Some(list) ==> names::views(list.subscription_names@) == state.registry@.topic(
            name@,
        ).subscriptions,
{
    match state.registry.list_topic_subscriptions(name) {
        Some(list) => Some(SubscriptionNameList::new(list)),
        None => None,
    }
}

/// Answers a request to publish `messages` to the topic `name`: the ids of
/// the messages, in the order of the payloads, or None if there is no such
/// topic.
pub fn publish(name: &str, messages: RawMessageList, state: &mut HttpState) -> (r: Option<MessageIdList>)
    requires
        old(state).registry.wf(),
        old(state).registry@.can_publish(name@, messages.raw_messages@.len()),
    ensures
        final(state).registry.wf(),
        final(state).config == old(state).config,
        r is Some == old(state).registry@.has_topic(name@),
        r is None ==> final(state).registry@ == old(state).registry@,
        r matches Some(ids) ==> {
            &&& ids.message_ids@.len() == messages.raw_messages@.len()
            &&& exists|times: Seq<Timestamp>|
                times.len() == messages.raw_messages@.len() && final(state).registry@ == #[trigger] old(
                    state,
                ).registry@.publish(name@, ids.message_ids@, times, messages.payloads())
        },
{
    let data = messages.into_data();
    match state.registry.publish(name, data) {
        Some(ids) => Some(MessageIdList::new(ids)),
        None => None,
    }
}

} // verus!
