//! The rows of the relay graph and the registry that holds them.

use vstd::prelude::*;

verus! {

/// A server the bot has seen.
#[derive(Clone, Debug, PartialEq, Eq)]
pub struct Guild {
    pub id: u64,
    pub name: String,
}

/// A guild as contracts see it.
pub struct GuildView {
    pub id: u64,
    pub name: Seq<char>,
}

impl View for Guild {
    type V = GuildView;

    open spec fn view(&self) -> GuildView {
        GuildView { id: self.id, name: self.name@ }
    }
}

/// A text channel of a known guild. Its name carries a leading `#`.
#[derive(Clone, Debug, PartialEq, Eq)]
pub struct Channel {
    pub id: u64,
    pub name: String,
    pub guild_id: u64,
    pub webhook: Option<u64>,
}

/// A channel as contracts see it.
pub struct ChannelView {
    pub id: u64,
    pub name: Seq<char>,
    pub guild_id: u64,
    pub webhook: Option<u64>,
}

impl View for Channel {
    type V = ChannelView;

    open spec fn view(&self) -> ChannelView {
        ChannelView { id: self.id, name: self.name@, guild_id: self.guild_id, webhook: self.webhook }
    }
}

/// Messages that `owner` posts in `source` are relayed to `target` through `webhook`.
#[derive(Clone, Copy, Debug, PartialEq, Eq, Structural)]
pub struct Connection {
    pub source: u64,
    pub target: u64,
    pub owner: u64,
    pub webhook: u64,
}

/// Text that `owner` has put on top of what is relayed into `target`, from
/// one source or, without a source, from all of them.
#[derive(Clone, Debug, PartialEq, Eq)]
pub struct MentionRule {
    pub source: Option<u64>,
    pub target: u64,
    pub text: String,
    pub owner: u64,
}

/// A mention rule as contracts see it.
pub struct RuleView {
    pub source: Option<u64>,
    pub target: u64,
    pub text: Seq<char>,
    pub owner: u64,
}

impl View for MentionRule {
    type V = RuleView;

    open spec fn view(&self) -> RuleView {
        RuleView { source: self.source, target: self.target, text: self.text@, owner: self.owner }
    }
}

/// The delivery handle that `owner` uses for `target`.
#[derive(Clone, Copy, Debug, PartialEq, Eq, Structural)]
pub struct Webhook {
    pub id: u64,
    pub target: u64,
    pub owner: u64,
}

/// The five tables as contracts see them, each in retrieval order.
pub struct RegistryView {
    pub guilds: Seq<GuildView>,
    pub channels: Seq<ChannelView>,
    pub connections: Seq<Connection>,
    pub rules: Seq<RuleView>,
    pub webhooks: Seq<Webhook>,
}

impl RegistryView {
    /// Whether a guild with this id has been seen.
    pub open spec fn knows_guild(self, id: u64) -> bool {
        exists|i: int| 0 <= i < self.guilds.len() && (#[trigger] self.guilds[i]).id == id
    }

    /// The guild with this id.
    pub open spec fn guild(self, id: u64) -> Option<GuildView> {
        if self.knows_guild(id) {
            Some(
                self.guilds[choose|i: int|
                    0 <= i < self.guilds.len() && (#[trigger] self.guilds[i]).id == id],
            )
        } else {
            None
        }
    }

    /// Whether a channel with this id has been seen.
    pub open spec fn knows_channel(self, id: u64) -> bool {
        exists|i: int| 0 <= i < self.channels.len() && (#[trigger] self.channels[i]).id == id
    }

    /// The channel with this id.
    pub open spec fn channel(self, id: u64) -> Option<ChannelView> {
        if self.knows_channel(id) {
            Some(
                self.channels[choose|i: int|
                    0 <= i < self.channels.len() && (#[trigger] self.channels[i]).id == id],
            )
        } else {
            None
        }
    }

    /// The name of the guild with this id.
    pub open spec fn guild_name(self, id: u64) -> Option<Seq<char>> {
        match self.guild(id) {
            Some(g) => Some(g.name),
            None => None,
        }
    }

    /// The name of the guild that a channel belongs to.
    pub open spec fn guild_name_of(self, channel: u64) -> Option<Seq<char>> {
        match self.channel(channel) {
            Some(c) => self.guild_name(c.guild_id),
            None => None,
        }
    }

    /// Whether a channel belongs to a guild of this name.
    pub open spec fn in_guild_named(self, channel: u64, name: Seq<char>) -> bool {
        self.guild_name_of(channel) == Some(name)
    }

    /// Whether `owner` has connected `source` to `target`.
    pub open spec fn has_connection(self, source: u64, target: u64, owner: u64) -> bool {
        exists|i: int|
            0 <= i < self.connections.len() && connects(
                #[trigger] self.connections[i],
                source,
                target,
                owner,
            )
    }

    /// The delivery handle that `owner` holds for `target`.
    pub open spec fn webhook_of(self, owner: u64, target: u64) -> Option<u64> {
        if self.has_webhook(owner, target) {
            Some(
                self.webhooks[choose|i: int|
                    0 <= i < self.webhooks.len() && delivers(
                        #[trigger] self.webhooks[i],
                        owner,
                        target,
                    )].id,
            )
        } else {
            None
        }
    }

    /// Whether `owner` holds a delivery handle for `target`.
    pub open spec fn has_webhook(self, owner: u64, target: u64) -> bool {
        exists|i: int|
            0 <= i < self.webhooks.len() && delivers(#[trigger] self.webhooks[i], owner, target)
    }

    /// Whether this very rule is held.
    pub open spec fn has_rule(self, rule: RuleView) -> bool {
        exists|i: int| 0 <= i < self.rules.len() && #[trigger] self.rules[i] == rule
    }

    /// No two guilds share an id, and no two channels.
    pub open spec fn ids_unique(self) -> bool {
        &&& forall|i: int, j: int|
            0 <= i < j < self.guilds.len() ==> (#[trigger] self.guilds[i]).id != (
            #[trigger] self.guilds[j]).id
        &&& forall|i: int, j: int|
            0 <= i < j < self.channels.len() ==> (#[trigger] self.channels[i]).id != (
            #[trigger] self.channels[j]).id
    }

    /// Every channel belongs to a known guild, and every connection joins known channels.
    pub open spec fn references_known(self) -> bool {
        &&& forall|i: int|
            0 <= i < self.channels.len() ==> self.knows_guild((#[trigger] self.channels[i]).guild_id)
        &&& forall|i: int|
            0 <= i < self.connections.len() ==> self.knows_channel(
                (#[trigger] self.connections[i]).source,
            ) && self.knows_channel(self.connections[i].target)
    }

    /// At most one connection per source, target and owner; no rule twice;
    /// at most one delivery handle per owner and target.
    pub open spec fn keys_unique(self) -> bool {
        &&& forall|i: int, j: int|
            0 <= i < j < self.connections.len() ==> !connects(
                #[trigger] self.connections[i],
                (#[trigger] self.connections[j]).source,
                self.connections[j].target,
                self.connections[j].owner,
            )
        &&& forall|i: int, j: int|
            0 <= i < j < self.rules.len() ==> #[trigger] self.rules[i] != #[trigger] self.rules[j]
        &&& forall|i: int, j: int|
            0 <= i < j < self.webhooks.len() ==> !delivers(
                #[trigger] self.webhooks[i],
                (#[trigger] self.webhooks[j]).owner,
                self.webhooks[j].target,
            )
    }

    /// The invariant of the registry.
    pub open spec fn wf(self) -> bool {
        &&& self.ids_unique()
        &&& self.references_known()
        &&& self.keys_unique()
    }

    /// In a registry without two guilds of one id, the guild at a position is
    /// the guild of its id.
    pub proof fn lemma_guild_at(self, i: int)
        requires
            self.ids_unique(),
            0 <= i < self.guilds.len(),
        ensures
            self.guild(self.guilds[i].id) == Some(self.guilds[i]),
    {
    }

    /// In a registry without two channels of one id, the channel at a position
    /// is the channel of its id.
    pub proof fn lemma_channel_at(self, i: int)
        requires
            self.ids_unique(),
            0 <= i < self.channels.len(),
        ensures
            self.channel(self.channels[i].id) == Some(self.channels[i]),
    {
    }

    /// With at most one delivery handle per owner and target, the handle at a
    /// position is the handle of its owner and target.
    pub proof fn lemma_webhook_at(self, i: int)
        requires
            self.keys_unique(),
            0 <= i < self.webhooks.len(),
        ensures
            self.webhook_of(self.webhooks[i].owner, self.webhooks[i].target) == Some(
                self.webhooks[i].id,
            ),
    {
    }
}

/// Whether a connection is the one of this source, target and owner.
pub open spec fn connects(c: Connection, source: u64, target: u64, owner: u64) -> bool {
    c.source == source && c.target == target && c.owner == owner
}

/// Whether a delivery handle is the one of this owner and target.
pub open spec fn delivers(w: Webhook, owner: u64, target: u64) -> bool {
    w.owner == owner && w.target == target
}

/// The views of a vector of guilds.
pub open spec fn guild_views(v: Seq<Guild>) -> Seq<GuildView> {
    v.map_values(|g: Guild| g@)
}

/// The views of a vector of channels.
pub open spec fn channel_views(v: Seq<Channel>) -> Seq<ChannelView> {
    v.map_values(|c: Channel| c@)
}

/// The views of a vector of mention rules.
pub open spec fn rule_views(v: Seq<MentionRule>) -> Seq<RuleView> {
    v.map_values(|r: MentionRule| r@)
}

/// The relay graph of all owners: guilds, channels, connections, mention
/// rules and delivery handles.
pub struct Registry {
    pub(crate) guilds: Vec<Guild>,
    pub(crate) channels: Vec<Channel>,
    pub(crate) connections: Vec<Connection>,
    pub(crate) rules: Vec<MentionRule>,
    pub(crate) webhooks: Vec<Webhook>,
}

impl Registry {
    /// The tables as contracts see them.
    pub open(crate) spec fn view(&self) -> RegistryView {
        RegistryView {
            guilds: guild_views(self.guilds@),
            channels: channel_views(self.channels@),
            connections: self.connections@,
            rules: rule_views(self.rules@),
            webhooks: self.webhooks@,
        }
    }

    /// The invariant that every operation keeps.
    pub open spec fn wf(&self) -> bool {
        self@.wf()
    }

    /// A registry that has seen nothing.
    pub fn new() -> (r: Registry)
        ensures
            r.wf(),
            r@.guilds.len() == 0,
            r@.channels.len() == 0,
            r@.connections.len() == 0,
            r@.rules.len() == 0,
            r@.webhooks.len() == 0,
    {
        Registry {
            guilds: Vec::new(),
            channels: Vec::new(),
            connections: Vec::new(),
            rules: Vec::new(),
            webhooks: Vec::new(),
        }
    }

    /// The position of the guild with this id.
    pub(crate) fn find_guild(&self, id: u64) -> (r: Option<usize>)
        ensures
            match r {
                Some(i) => i < self@.guilds.len() && self@.guilds[i as int].id == id,
                None => !self@.knows_guild(id),
            },
    {
        let n: usize = self.guilds.len();
        let mut i: usize = 0;
        while i < n
            invariant
                n == self.guilds@.len(),
                i <= n,
                forall|k: int| 0 <= k < i ==> (#[trigger] self@.guilds[k]).id != id,
            decreases n - i,
        {
            if self.guilds[i].id == id {
                return Some(i);
            }
            i += 1;
        }
        None
    }

    /// The position of the channel with this id.
    pub(crate) fn find_channel(&self, id: u64) -> (r: Option<usize>)
        ensures
            match r {
                Some(i) => i < self@.channels.len() && self@.channels[i as int].id == id,
                None => !self@.knows_channel(id),
            },
    {
        let n: usize = self.channels.len();
        let mut i: usize = 0;
        while i < n
            invariant
                n == self.channels@.len(),
                i <= n,
                forall|k: int| 0 <= k < i ==> (#[trigger] self@.channels[k]).id != id,
            decreases n - i,
        {
            if self.channels[i].id == id {
                return Some(i);
            }
            i += 1;
        }
        None
    }

    /// Whether a channel with this id has been seen.
    pub fn knows_channel(&self, id: u64) -> (r: bool)
        ensures
            r == self@.knows_channel(id),
    {
        self.find_channel(id).is_some()
    }

    /// Whether a guild with this id has been seen.
    pub fn knows_guild(&self, id: u64) -> (r: bool)
        ensures
            r == self@.knows_guild(id),
    {
        self.find_guild(id).is_some()
    }

    /// The guilds, in retrieval order.
    pub fn guilds(&self) -> (r: &Vec<Guild>)
        ensures
            guild_views(r@) == self@.guilds,
    {
        &self.guilds
    }

    /// The channels, in retrieval order.
    pub fn channels(&self) -> (r: &Vec<Channel>)
        ensures
            channel_views(r@) == self@.channels,
    {
        &self.channels
    }

    /// The connections of all owners, in retrieval order.
    pub fn connections(&self) -> (r: &Vec<Connection>)
        ensures
            r@ == self@.connections,
    {
        &self.connections
    }

    /// The mention rules of all owners, in retrieval order.
    pub fn rules(&self) -> (r: &Vec<MentionRule>)
        ensures
            rule_views(r@) == self@.rules,
    {
        &self.rules
    }

    /// The delivery handles of all owners, in retrieval order.
    pub fn webhooks(&self) -> (r: &Vec<Webhook>)
        ensures
            r@ == self@.webhooks,
    {
        &self.webhooks
    }
}

} // verus!
