//! What the archive stores and exchanges: saved rows, scopes and candidates.

use vstd::prelude::*;

verus! {

/// What ties an event to an archive row: the tag the relay filters on.
#[derive(Clone, Copy, Debug, PartialEq, Eq, Structural)]
pub enum ScopeType {
    /// Events tagged with a channel.
    ChannelH,
    /// Events that mention the owner.
    OwnerP,
    /// Events that refer to another event.
    ReferencedE,
}

impl ScopeType {
    /// The name a scope type is stored under.
    pub open spec fn name(self) -> Seq<char> {
        match self {
            ScopeType::ChannelH => "channel_h"@,
            ScopeType::OwnerP => "owner_p"@,
            ScopeType::ReferencedE => "referenced_e"@,
        }
    }

    /// The name a scope type is stored under.
    pub fn as_str(&self) -> (name: &'static str)
        ensures
            name@ == self.name(),
    {
        match self {
            ScopeType::ChannelH => "channel_h",
            ScopeType::OwnerP => "owner_p",
            ScopeType::ReferencedE => "referenced_e",
        }
    }
}

/// A saved archive row, as the store keeps it.
#[derive(Debug)]
pub struct SaveSubscription {
    pub identity_pubkey: String,
    pub relay_url: String,
    pub scope_type: String,
    pub scope_value: String,
    /// A JSON list of event kinds.
    pub kinds: String,
    pub created_at: i64,
}

pub struct SaveSubscriptionView {
    pub identity_pubkey: Seq<char>,
    pub relay_url: Seq<char>,
    pub scope_type: Seq<char>,
    pub scope_value: Seq<char>,
    pub kinds: Seq<char>,
    pub created_at: i64,
}

impl View for SaveSubscription {
    type V = SaveSubscriptionView;

    open spec fn view(&self) -> SaveSubscriptionView {
        SaveSubscriptionView {
            identity_pubkey: self.identity_pubkey@,
            relay_url: self.relay_url@,
            scope_type: self.scope_type@,
            scope_value: self.scope_value@,
            kinds: self.kinds@,
            created_at: self.created_at,
        }
    }
}

impl Clone for SaveSubscription {
    fn clone(&self) -> (copy: SaveSubscription)
        ensures
            copy@ == self@,
    {
        SaveSubscription {
            identity_pubkey: self.identity_pubkey.clone(),
            relay_url: self.relay_url.clone(),
            scope_type: self.scope_type.clone(),
            scope_value: self.scope_value.clone(),
            kinds: self.kinds.clone(),
            created_at: self.created_at,
        }
    }
}

/// A sample row: saved by `owner` for the relay `wss://relay.test`, at time
/// zero.
pub fn saved(scope_type: &str, scope_value: &str, kinds: &str) -> (row: SaveSubscription)
    ensures
        row@ == (SaveSubscriptionView {
            identity_pubkey: "owner"@,
            relay_url: "wss://relay.test"@,
            scope_type: scope_type@,
            scope_value: scope_value@,
            kinds: kinds@,
            created_at: 0,
        }),
{
    SaveSubscription {
        identity_pubkey: "owner".to_owned(),
        relay_url: "wss://relay.test".to_owned(),
        scope_type: scope_type.to_owned(),
        scope_value: scope_value.to_owned(),
        kinds: kinds.to_owned(),
        created_at: 0,
    }
}

/// The scope that an event was matched by.
#[derive(Debug)]
pub struct MatchedScope {
    pub scope_type: ScopeType,
    pub scope_value: String,
}

pub struct MatchedScopeView {
    pub scope_type: ScopeType,
    pub scope_value: Seq<char>,
}

impl View for MatchedScope {
    type V = MatchedScopeView;

    open spec fn view(&self) -> MatchedScopeView {
        MatchedScopeView { scope_type: self.scope_type, scope_value: self.scope_value@ }
    }
}

impl Clone for MatchedScope {
    fn clone(&self) -> (copy: MatchedScope)
        ensures
            copy@ == self@,
    {
        MatchedScope { scope_type: self.scope_type, scope_value: self.scope_value.clone() }
    }
}

/// An event to archive: its JSON text and the scope that is claimed for it.
#[derive(Debug)]
pub struct ArchiveCandidate {
    pub raw_event_json: String,
    pub matched_scope: MatchedScope,
}

pub struct ArchiveCandidateView {
    pub raw_event_json: Seq<char>,
    pub matched_scope: MatchedScopeView,
}

impl View for ArchiveCandidate {
    type V = ArchiveCandidateView;

    open spec fn view(&self) -> ArchiveCandidateView {
        ArchiveCandidateView {
            raw_event_json: self.raw_event_json@,
            matched_scope: self.matched_scope@,
        }
    }
}

impl Clone for ArchiveCandidate {
    fn clone(&self) -> (copy: ArchiveCandidate)
        ensures
            copy@ == self@,
    {
        ArchiveCandidate {
            raw_event_json: self.raw_event_json.clone(),
            matched_scope: self.matched_scope.clone(),
        }
    }
}

/// What the archive did with a batch.
#[derive(Clone, Copy, Debug)]
pub struct ArchiveBatchResult {
    pub persisted: u32,
    pub persisted_agent_metrics: u32,
    pub dropped: u32,
}

} // verus!
