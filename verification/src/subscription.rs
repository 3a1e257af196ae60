//! Relay subscriptions and the events that arrive under them.

use vstd::prelude::*;

use crate::json::{Json, JsonView};

verus! {

/// A live subscription request: a filter under a caller-stable id.
///
/// The id is the relay's subscription id too, so that subscribing again after
/// a reconnect replaces the subscription and does not duplicate it.
#[derive(Debug)]
pub struct Subscription {
    pub id: String,
    pub filter: Json,
}

pub struct SubscriptionView {
    pub id: Seq<char>,
    pub filter: JsonView,
}

impl View for Subscription {
    type V = SubscriptionView;

    open spec fn view(&self) -> SubscriptionView {
        SubscriptionView { id: self.id@, filter: self.filter@ }
    }
}

impl Clone for Subscription {
    fn clone(&self) -> (copy: Subscription)
        ensures
            copy@ == self@,
    {
        Subscription { id: self.id.clone(), filter: self.filter.clone() }
    }
}

/// An event delivered to the session's owner, tagged with the subscription
/// that matched it. The event is held as its JSON text.
#[derive(Debug)]
pub struct MatchedEvent {
    pub subscription_id: String,
    pub event: String,
}

pub struct MatchedEventView {
    pub subscription_id: Seq<char>,
    pub event: Seq<char>,
}

impl View for MatchedEvent {
    type V = MatchedEventView;

    open spec fn view(&self) -> MatchedEventView {
        MatchedEventView { subscription_id: self.subscription_id@, event: self.event@ }
    }
}

impl Clone for MatchedEvent {
    fn clone(&self) -> (copy: MatchedEvent)
        ensures
            copy@ == self@,
    {
        MatchedEvent { subscription_id: self.subscription_id.clone(), event: self.event.clone() }
    }
}

} // verus!
