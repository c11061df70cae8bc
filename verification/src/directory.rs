//! The guilds and channels that the bot has seen, and lookups by name.

use vstd::prelude::*;
use crate::error::RelayError;
use crate::model::Channel;
use crate::model::ChannelView;
use crate::model::Guild;
use crate::model::GuildView;
use crate::model::Registry;
use crate::model::RegistryView;
use crate::seqs::lemma_filter_take_next;
use crate::text::str_eq;
use crate::text::texts_of;

verus! {

/// A channel as the chat platform reports it for a guild.
#[derive(Clone, Debug, PartialEq, Eq)]
pub struct ChannelSeen {
    pub id: u64,
    /// The bare name, without the leading `#`.
    pub name: String,
    pub is_text: bool,
    pub webhook: Option<u64>,
}

/// A reported channel as contracts see it.
pub struct SeenView {
    pub id: u64,
    pub name: Seq<char>,
    pub is_text: bool,
    pub webhook: Option<u64>,
}

impl View for ChannelSeen {
    type V = SeenView;

    open spec fn view(&self) -> SeenView {
        SeenView { id: self.id, name: self.name@, is_text: self.is_text, webhook: self.webhook }
    }
}

/// The views of a vector of reported channels.
pub open spec fn seen_views(v: Seq<ChannelSeen>) -> Seq<SeenView> {
    v.map_values(|c: ChannelSeen| c@)
}

/// The row that a reported channel of guild `guild_id` is stored as: its
/// name gets the leading `#`.
pub open spec fn row_of(seen: SeenView, guild_id: u64) -> ChannelView {
    ChannelView { id: seen.id, name: seq!['#'] + seen.name, guild_id, webhook: seen.webhook }
}

/// The channels of a guild of this name.
pub open spec fn in_guild(
    reg: RegistryView,
    guild_name: Seq<char>,
) -> spec_fn(ChannelView) -> bool {
    |c: ChannelView| reg.guild_name(c.guild_id) == Some(guild_name)
}

/// The channels of this name in a guild of this name.
pub open spec fn named(
    reg: RegistryView,
    guild_name: Seq<char>,
    channel_name: Seq<char>,
) -> spec_fn(
    ChannelView,
) -> bool {
    |c: ChannelView| c.name == channel_name && reg.guild_name(c.guild_id) == Some(guild_name)
}

/// The name of a guild.
pub open spec fn guild_name_at() -> spec_fn(GuildView) -> Seq<char> {
    |g: GuildView| g.name
}

/// The name of a channel.
pub open spec fn channel_name_at() -> spec_fn(ChannelView) -> Seq<char> {
    |c: ChannelView| c.name
}

/// Whether position `i` holds the first channel that satisfies `p`.
pub open spec fn first_match(
    channels: Seq<ChannelView>,
    p: spec_fn(ChannelView) -> bool, i: int,
) -> bool {
    &&& 0 <= i < channels.len()
    &&& p(channels[i])
    &&& forall|k: int| 0 <= k < i ==> !p(#[trigger] channels[k])
}

/// There is one first channel that satisfies `p` at most.
pub proof fn lemma_first_match_unique(
    channels: Seq<ChannelView>,
    p: spec_fn(ChannelView) -> bool, i: int, j: int,
)
    requires
        first_match(channels, p, i),
        first_match(channels, p, j),
    ensures
        i == j,
{
    if i < j {
        assert(!p(channels[i]));
    } else if j < i {
        assert(!p(channels[j]));
    }
}

impl RegistryView {
    /// The first channel of this name in a guild of this name.
    pub open spec fn named_channel(
        self,
        guild_name: Seq<char>,
        channel_name: Seq<char>,
    ) -> Option<ChannelView> {
        let p = named(self, guild_name, channel_name);
        if exists|i: int| first_match(self.channels, p, i) {
            Some(self.channels[choose|i: int| first_match(self.channels, p, i)])
        } else {
            None
        }
    }

    /// The ids of the guild and the channel that go by these names.
    pub open spec fn name_to_ids(
        self,
        guild_name: Seq<char>,
        channel_name: Seq<char>,
    ) -> Result<(u64, u64), RelayError> {
        match self.named_channel(guild_name, channel_name) {
            Some(c) => Ok((c.guild_id, c.id)),
            None => Err(RelayError::NotFound),
        }
    }

    /// The tables after a guild was reported: its row replaces the one of the
    /// same id, or is added.
    pub open spec fn upsert_guild(self, g: GuildView) -> RegistryView {
        if self.knows_guild(g.id) {
            let i = choose|i: int| 0 <= i < self.guilds.len() && (#[trigger] self.guilds[i]).id == g.id;
            RegistryView { guilds: self.guilds.update(i, g), ..self }
        } else {
            RegistryView { guilds: self.guilds.push(g), ..self }
        }
    }

    /// The tables after a channel of a known guild was reported: its row
    /// replaces the one of the same id, or is added.
    pub open spec fn upsert_channel(self, c: ChannelView) -> RegistryView {
        if !self.knows_guild(c.guild_id) {
            self
        } else if self.knows_channel(c.id) {
            let i = choose|i: int| 0 <= i < self.channels.len() && (#[trigger] self.channels[i]).id == c.id;
            RegistryView { channels: self.channels.update(i, c), ..self }
        } else {
            RegistryView { channels: self.channels.push(c), ..self }
        }
    }

    /// The tables after a guild was reported with its channels: the guild is
    /// stored, then each text channel in turn.
    pub open spec fn observe_guild(self, g: GuildView, seen: Seq<SeenView>) -> RegistryView
        decreases seen.len(),
    {
        if seen.len() == 0 {
            self.upsert_guild(g)
        } else {
            let before = self.observe_guild(g, seen.drop_last());
            if seen.last().is_text {
                before.upsert_channel(row_of(seen.last(), g.id))
            } else {
                before
            }
        }
    }
}

/// Reporting a guild again changes nothing.
pub proof fn lemma_upsert_guild_idempotent(reg: RegistryView, g: GuildView)
    requires
        reg.ids_unique(),
    ensures
        reg.upsert_guild(g).upsert_guild(g) == reg.upsert_guild(g),
{
    let once = reg.upsert_guild(g);
    if reg.knows_guild(g.id) {
        let i = choose|i: int| 0 <= i < reg.guilds.len() && (#[trigger] reg.guilds[i]).id == g.id;
        assert(once.guilds[i].id == g.id);
        let j = choose|j: int| 0 <= j < once.guilds.len() && (#[trigger] once.guilds[j]).id == g.id;
        if i != j {
            assert(reg.guilds[j].id == g.id);
            if i < j {
                assert(reg.guilds[i].id != reg.guilds[j].id);
            } else {
                assert(reg.guilds[j].id != reg.guilds[i].id);
            }
        }
        assert(once.guilds.update(j, g) =~= once.guilds);
    } else {
        let at = reg.guilds.len() as int;
        assert(once.guilds[at].id == g.id);
        let j = choose|j: int| 0 <= j < once.guilds.len() && (#[trigger] once.guilds[j]).id == g.id;
        if j < at {
            assert(reg.guilds[j].id == g.id);
        }
        assert(once.guilds.update(j, g) =~= once.guilds);
    }
}

/// Reporting a channel again changes nothing.
pub proof fn lemma_upsert_channel_idempotent(reg: RegistryView, c: ChannelView)
    requires
        reg.ids_unique(),
    ensures
        reg.upsert_channel(c).upsert_channel(c) == reg.upsert_channel(c),
{
    let once = reg.upsert_channel(c);
    if reg.knows_guild(c.guild_id) {
        assert(once.guilds == reg.guilds);
        if reg.knows_channel(c.id) {
            let i = choose|i: int| 0 <= i < reg.channels.len() && (#[trigger] reg.channels[i]).id == c.id;
            assert(once.channels[i].id == c.id);
            let j = choose|j: int| 0 <= j < once.channels.len() && (#[trigger] once.channels[j]).id == c.id;
            if i != j {
                assert(reg.channels[j].id == c.id);
                if i < j {
                    assert(reg.channels[i].id != reg.channels[j].id);
                } else {
                    assert(reg.channels[j].id != reg.channels[i].id);
                }
            }
            assert(once.channels.update(j, c) =~= once.channels);
        } else {
            let at = reg.channels.len() as int;
            assert(once.channels[at].id == c.id);
            let j = choose|j: int| 0 <= j < once.channels.len() && (#[trigger] once.channels[j]).id == c.id;
            if j < at {
                assert(reg.channels[j].id == c.id);
            }
            assert(once.channels.update(j, c) =~= once.channels);
        }
    }
}

impl Registry {
    /// Stores a guild under its id, in place of the row that was there, if any.
    pub fn upsert_guild(&mut self, guild: Guild)
        requires
            old(self).wf(),
        ensures
            final(self).wf(),
            final(self)@ == old(self)@.upsert_guild(guild@),
            final(self)@.guild(guild.id) == Some(guild@),
            forall|id: u64| old(self)@.knows_guild(id) ==> final(self)@.knows_guild(id),
    {
        let ghost g = guild@;
        match self.find_guild(guild.id) {
            Some(i) => {
                proof {
                    self@.lemma_guild_at(i as int);
                }
                self.guilds[i] = guild;
                proof {
                    let before = old(self)@;
                    let after = self@;
                    assert(after.guilds =~= before.guilds.update(i as int, g));
                    assert(after.channels == before.channels);
                    assert(after.connections == before.connections);
                    assert(after.rules == before.rules);
                    assert(after.webhooks == before.webhooks);
                    assert forall|p: int, q: int| 0 <= p < q < after.guilds.len() implies (
                    #[trigger] after.guilds[p]).id != (#[trigger] after.guilds[q]).id by {
                        assert(before.guilds[p].id != before.guilds[q].id);
                    }
                    assert forall|id: u64| before.knows_guild(id) implies after.knows_guild(id) by {
                        let k = choose|k: int| 0 <= k < before.guilds.len() && (#[trigger] before.guilds[k]).id == id;
                        assert(after.guilds[k].id == id);
                    }
                    after.lemma_guild_at(i as int);
                }
            },
            None => {
                self.guilds.push(guild);
                proof {
                    let before = old(self)@;
                    let after = self@;
                    assert(after.guilds =~= before.guilds.push(g));
                    assert(after.channels == before.channels);
                    assert(after.connections == before.connections);
                    assert(after.rules == before.rules);
                    assert(after.webhooks == before.webhooks);
                    assert forall|p: int, q: int| 0 <= p < q < after.guilds.len() implies (
                    #[trigger] after.guilds[p]).id != (#[trigger] after.guilds[q]).id by {
                        if q < before.guilds.len() {
                            assert(before.guilds[p].id != before.guilds[q].id);
                        } else {
                            assert(before.guilds[p].id != g.id);
                        }
                    }
                    assert forall|id: u64| before.knows_guild(id) implies after.knows_guild(id) by {
                        let k = choose|k: int| 0 <= k < before.guilds.len() && (#[trigger] before.guilds[k]).id == id;
                        assert(after.guilds[k].id == id);
                    }
                    after.lemma_guild_at(before.guilds.len() as int);
                }
            },
        }
    }

    /// Stores a channel under its id, in place of the row that was there, if
    /// any. Fails with `NotFound`, and stores nothing, if its guild is unknown.
    pub fn upsert_channel(&mut self, channel: Channel) -> (r: Result<(), RelayError>)
        requires
            old(self).wf(),
        ensures
            final(self).wf(),
            final(self)@ == old(self)@.upsert_channel(channel@),
            r is Ok <==> old(self)@.knows_guild(channel.guild_id),
            r is Err ==> r == Err::<(), RelayError>(RelayError::NotFound),
            r is Ok ==> final(self)@.channel(channel.id) == Some(channel@),
            forall|id: u64| old(self)@.knows_channel(id) ==> final(self)@.knows_channel(id),
    {
        if !self.knows_guild(channel.guild_id) {
            return Err(RelayError::NotFound);
        }
        let ghost c = channel@;
        match self.find_channel(channel.id) {
            Some(i) => {
                proof {
                    self@.lemma_channel_at(i as int);
                }
                self.channels[i] = channel;
                proof {
                    let before = old(self)@;
                    let after = self@;
                    assert(after.channels =~= before.channels.update(i as int, c));
                    assert(after.guilds == before.guilds);
                    assert(after.connections == before.connections);
                    assert(after.rules == before.rules);
                    assert(after.webhooks == before.webhooks);
                    assert forall|p: int, q: int| 0 <= p < q < after.channels.len() implies (
                    #[trigger] after.channels[p]).id != (#[trigger] after.channels[q]).id by {
                        assert(before.channels[p].id != before.channels[q].id);
                    }
                    assert forall|id: u64| before.knows_channel(id) implies after.knows_channel(id) by {
                        let k = choose|k: int| 0 <= k < before.channels.len() && (#[trigger] before.channels[k]).id == id;
                        assert(after.channels[k].id == id);
                    }
                    assert forall|k: int| 0 <= k < after.channels.len() implies after.knows_guild(
                        (#[trigger] after.channels[k]).guild_id,
                    ) by {
                        if k != i {
                            assert(before.knows_guild(before.channels[k].guild_id));
                        }
                    }
                    after.lemma_channel_at(i as int);
                }
            },
            None => {
                self.channels.push(channel);
                proof {
                    let before = old(self)@;
                    let after = self@;
                    assert(after.channels =~= before.channels.push(c));
                    assert(after.guilds == before.guilds);
                    assert(after.connections == before.connections);
                    assert(after.rules == before.rules);
                    assert(after.webhooks == before.webhooks);
                    assert forall|p: int, q: int| 0 <= p < q < after.channels.len() implies (
                    #[trigger] after.channels[p]).id != (#[trigger] after.channels[q]).id by {
                        if q < before.channels.len() {
                            assert(before.channels[p].id != before.channels[q].id);
                        } else {
                            assert(before.channels[p].id != c.id);
                        }
                    }
                    assert forall|id: u64| before.knows_channel(id) implies after.knows_channel(id) by {
                        let k = choose|k: int| 0 <= k < before.channels.len() && (#[trigger] before.channels[k]).id == id;
                        assert(after.channels[k].id == id);
                    }
                    assert forall|k: int| 0 <= k < after.channels.len() implies after.knows_guild(
                        (#[trigger] after.channels[k]).guild_id,
                    ) by {
                        if k < before.channels.len() {
                            assert(before.knows_guild(before.channels[k].guild_id));
                        }
                    }
                    after.lemma_channel_at(before.channels.len() as int);
                }
            },
        }
        Ok(())
    }

    /// Stores a guild that the chat platform reported, and its text channels,
    /// each under its name with a leading `#`. Channels that are not text
    /// channels are passed over.
    pub fn observe_guild(&mut self, id: u64, name: String, channels: &Vec<ChannelSeen>)
        requires
            old(self).wf(),
        ensures
            final(self).wf(),
            final(self)@ == old(self)@.observe_guild(
                GuildView { id, name: name@ },
                seen_views(channels@),
            ),
    {
        let ghost g = GuildView { id, name: name@ };
        let ghost seen = seen_views(channels@);
        self.upsert_guild(Guild { id, name });
        assert(self@.knows_guild(id));
        let n: usize = channels.len();
        let mut i: usize = 0;
        assert(seen.take(0) =~= Seq::<SeenView>::empty());
        while i < n
            invariant
                n == channels@.len(),
                seen == seen_views(channels@),
                i <= n,
                g.id == id,
                self.wf(),
                self@.knows_guild(id),
                self@ == old(self)@.observe_guild(g, seen.take(i as int)),
            decreases n - i,
        {
            proof {
                assert(seen.take(i + 1).drop_last() =~= seen.take(i as int));
                assert(seen.take(i + 1).last() == seen[i as int]);
            }
            if channels[i].is_text {
                let mut shown = String::from_str("#");
                shown.append(channels[i].name.as_str());
                proof {
                    reveal_strlit("#");
                    assert(shown@ =~= seq!['#'] + channels[i as int].name@);
                }
                let row = Channel { id: channels[i].id, name: shown, guild_id: id, webhook: channels[i].webhook };
                assert(row@ == row_of(seen[i as int], id));
                let _ = self.upsert_channel(row);
            }
            i += 1;
        }
        assert(seen.take(n as int) =~= seen);
    }

    /// Whether the guild with this id has this name.
    pub(crate) fn guild_named(&self, guild_id: u64, name: &str) -> (r: bool)
        requires
            self.wf(),
        ensures
            r == (self@.guild_name(guild_id) == Some(name@)),
    {
        match self.find_guild(guild_id) {
            Some(j) => {
                proof {
                    self@.lemma_guild_at(j as int);
                }
                str_eq(self.guilds[j].name.as_str(), name)
            },
            None => false,
        }
    }

    /// The name of the guild that a channel belongs to, if the channel is known.
    pub fn guild_name_of(&self, channel: u64) -> (r: Option<String>)
        requires
            self.wf(),
        ensures
            match r {
                Some(name) => self@.guild_name_of(channel) == Some(name@),
                None => self@.guild_name_of(channel) is None,
            },
            r is Some <==> self@.knows_channel(channel),
    {
        match self.find_channel(channel) {
            Some(i) => {
                proof {
                    self@.lemma_channel_at(i as int);
                }
                match self.find_guild(self.channels[i].guild_id) {
                    Some(j) => {
                        proof {
                            self@.lemma_guild_at(j as int);
                        }
                        Some(self.guilds[j].name.clone())
                    },
                    None => {
                        assert(self@.knows_guild(self@.channels[i as int].guild_id));
                        None
                    },
                }
            },
            None => None,
        }
    }

    /// Whether a channel belongs to a guild of this name.
    pub fn in_guild_named(&self, channel: u64, name: &str) -> (r: bool)
        requires
            self.wf(),
        ensures
            r == self@.in_guild_named(channel, name@),
    {
        match self.find_channel(channel) {
            Some(i) => {
                proof {
                    self@.lemma_channel_at(i as int);
                }
                self.guild_named(self.channels[i].guild_id, name)
            },
            None => false,
        }
    }

    /// The names of all guilds, in retrieval order.
    pub fn get_guild_names(&self) -> (out: Vec<String>)
        ensures
            texts_of(out@) == self@.guilds.map_values(guild_name_at()),
    {
        let n: usize = self.guilds.len();
        let mut out: Vec<String> = Vec::new();
        let mut i: usize = 0;
        while i < n
            invariant
                n == self.guilds@.len(),
                i <= n,
                texts_of(out@) =~= self@.guilds.take(i as int).map_values(guild_name_at()),
            decreases n - i,
        {
            let ghost prev = out@;
            out.push(self.guilds[i].name.clone());
            proof {
                assert(self@.guilds.take(i + 1) =~= self@.guilds.take(i as int).push(self@.guilds[i as int]));
                assert(texts_of(out@) =~= texts_of(prev).push(self@.guilds[i as int].name));
            }
            i += 1;
        }
        assert(self@.guilds.take(n as int) =~= self@.guilds);
        out
    }

    /// The names of the channels of the guilds of this name, in retrieval order.
    pub fn get_channel_names(&self, server_name: &str) -> (out: Vec<String>)
        requires
            self.wf(),
        ensures
            texts_of(out@) == self@.channels.filter(in_guild(self@, server_name@)).map_values(
                channel_name_at(),
            ),
    {
        let n: usize = self.channels.len();
        let mut out: Vec<String> = Vec::new();
        let mut i: usize = 0;
        let ghost p = in_guild(self@, server_name@);
        proof {
            reveal(Seq::filter);
            assert(texts_of(out@) =~= self@.channels.take(0).filter(p).map_values(channel_name_at()));
        }
        while i < n
            invariant
                n == self.channels@.len(),
                i <= n,
                self.wf(),
                p == in_guild(self@, server_name@),
                texts_of(out@) == self@.channels.take(i as int).filter(p).map_values(channel_name_at()),
            decreases n - i,
        {
            proof {
                lemma_filter_take_next(self@.channels, p, i as int);
            }
            if self.guild_named(self.channels[i].guild_id, server_name) {
                let ghost prev = out@;
                let ghost kept = self@.channels.take(i as int).filter(p);
                out.push(self.channels[i].name.clone());
                proof {
                    let c = self@.channels[i as int];
                    assert(texts_of(out@) =~= texts_of(prev).push(c.name));
                    assert(kept.push(c).map_values(channel_name_at()) =~= kept.map_values(channel_name_at()).push(c.name));
                }
            }
            i += 1;
        }
        assert(self@.channels.take(n as int) =~= self@.channels);
        out
    }

    /// The ids of the guild and the channel that go by these names: those of
    /// the first channel of this name in a guild of this name. Fails with
    /// `NotFound` if there is none.
    pub fn name_to_ids(
        &self,
        server_name: &str,
        channel_name: &str,
    ) -> (r: Result<(u64, u64), RelayError>)
        requires
            self.wf(),
        ensures
            r == self@.name_to_ids(server_name@, channel_name@),
            r is Ok ==> self@.knows_channel(r->Ok_0.1),
            r is Err <==> forall|i: int|
                0 <= i < self@.channels.len() ==> !named(self@, server_name@, channel_name@)(
                    #[trigger] self@.channels[i],
                ),
    {
        let n: usize = self.channels.len();
        let mut i: usize = 0;
        let ghost p = named(self@, server_name@, channel_name@);
        while i < n
            invariant
                n == self.channels@.len(),
                i <= n,
                self.wf(),
                p == named(self@, server_name@, channel_name@),
                forall|k: int| 0 <= k < i ==> !p(#[trigger] self@.channels[k]),
            decreases n - i,
        {
            if str_eq(self.channels[i].name.as_str(), channel_name) && self.guild_named(
                self.channels[i].guild_id,
                server_name,
            ) {
                proof {
                    assert(first_match(self@.channels, p, i as int));
                    let j = choose|j: int| first_match(self@.channels, p, j);
                    lemma_first_match_unique(self@.channels, p, i as int, j);
                }
                return Ok((self.channels[i].guild_id, self.channels[i].id));
            }
            i += 1;
        }
        proof {
            assert forall|j: int| !first_match(self@.channels, p, j) by {
                if 0 <= j < self@.channels.len() {
                    assert(!p(self@.channels[j]));
                }
            }
        }
        Err(RelayError::NotFound)
    }
}

} // verus!
