//! The relay graph: which source is relayed to which targets, owner by owner.

use vstd::prelude::*;
use crate::error::RelayError;
use crate::model::Connection;
use crate::model::connects;
use crate::model::Registry;
use crate::model::RegistryView;
use crate::seqs::lemma_filter_keeps;
use crate::seqs::lemma_filter_keeps_all;
use crate::seqs::lemma_filter_keeps_pairwise;
use crate::seqs::lemma_filter_member;
use crate::seqs::lemma_filter_none;
use crate::seqs::lemma_filter_push_refused;
use crate::seqs::lemma_filter_take_next;
use crate::seqs::lemma_filter_twice;

verus! {

/// How an attempt to create ended.
#[derive(Clone, Copy, Debug, PartialEq, Eq, Structural)]
pub enum Creation {
    /// A new row was stored.
    Created,
    /// The row was there already; nothing changed.
    AlreadyExists,
}

/// How an attempt to delete ended.
#[derive(Clone, Copy, Debug, PartialEq, Eq, Structural)]
pub enum Deletion {
    /// The row was removed.
    Deleted,
    /// There was no such row; nothing changed.
    NotFound,
}

/// A target of a source, with the delivery handle to reach it.
#[derive(Clone, Copy, Debug, PartialEq, Eq, Structural)]
pub struct Route {
    pub target: u64,
    pub webhook: u64,
}

/// The connections that `owner` has made from `source`.
pub open spec fn from_source(source: u64, owner: u64) -> spec_fn(Connection) -> bool {
    |c: Connection| c.source == source && c.owner == owner
}

/// All connections but those that `owner` has made from `source`.
pub open spec fn not_from_source(source: u64, owner: u64) -> spec_fn(Connection) -> bool {
    |c: Connection| !(c.source == source && c.owner == owner)
}

/// All connections but the one of this source, target and owner.
pub open spec fn other_than(source: u64, target: u64, owner: u64) -> spec_fn(Connection) -> bool {
    |c: Connection| !connects(c, source, target, owner)
}

/// The route that a connection stands for.
pub open spec fn route_of() -> spec_fn(Connection) -> Route {
    |c: Connection| Route { target: c.target, webhook: c.webhook }
}

impl RegistryView {
    /// The same tables with other connections.
    pub open spec fn with_connections(self, connections: Seq<Connection>) -> RegistryView {
        RegistryView { connections, ..self }
    }

    /// Where the messages that `owner` posts in `source` go.
    pub open spec fn routes_of(self, source: u64, owner: u64) -> Seq<Route> {
        self.connections.filter(from_source(source, owner)).map_values(route_of())
    }

    /// Whether one end of a connection lies in a guild of this name.
    pub open spec fn touches(self, c: Connection, guild_name: Seq<char>) -> bool {
        self.in_guild_named(c.source, guild_name) || self.in_guild_named(c.target, guild_name)
    }

    /// All connections but those of `owner` that touch a guild of this name.
    pub open spec fn untouched_by(self, guild_name: Seq<char>, owner: u64) -> spec_fn(
        Connection,
    ) -> bool {
        |c: Connection| !(c.owner == owner && self.touches(c, guild_name))
    }

    /// What storing a connection returns and leaves behind: both channels
    /// have to be known, and a connection of the same source, target and
    /// owner is never stored twice.
    pub open spec fn add_connection(
        self,
        c: Connection,
    ) -> (Result<Creation, RelayError>, RegistryView) {
        if !self.knows_channel(c.source) || !self.knows_channel(c.target) {
            (Err(RelayError::NotFound), self)
        } else if self.has_connection(c.source, c.target, c.owner) {
            (Ok(Creation::AlreadyExists), self)
        } else {
            (Ok(Creation::Created), self.with_connections(self.connections.push(c)))
        }
    }

    /// What creating a connection returns and leaves behind, given what the
    /// chat platform answered if it was asked for a delivery handle.
    pub open spec fn create_connection(
        self,
        source: u64,
        target: u64,
        owner: u64,
        issued: Option<u64>,
    ) -> (Result<Creation, RelayError>, RegistryView) {
        if !self.knows_channel(source) || !self.knows_channel(target) {
            (Err(RelayError::NotFound), self)
        } else if self.has_connection(source, target, owner) {
            (Ok(Creation::AlreadyExists), self)
        } else {
            match self.resolve(owner, target, issued) {
                (Ok(webhook), resolved) => resolved.add_connection(
                    Connection { source, target, owner, webhook },
                ),
                (Err(e), _) => (Err(e), self),
            }
        }
    }

    /// Keeping only some connections keeps the invariant.
    pub proof fn lemma_fewer_connections_wf(self, keep: spec_fn(Connection) -> bool)
        requires
            self.wf(),
        ensures
            self.with_connections(self.connections.filter(keep)).wf(),
    {
        let after = self.with_connections(self.connections.filter(keep));
        let known = |c: Connection| self.knows_channel(c.source) && self.knows_channel(c.target);
        let apart = |a: Connection, b: Connection| !connects(a, b.source, b.target, b.owner);
        lemma_filter_keeps_all(self.connections, keep, known);
        lemma_filter_keeps_pairwise(self.connections, keep, apart);
        assert forall|i: int| 0 <= i < after.connections.len() implies after.knows_channel(
            (#[trigger] after.connections[i]).source,
        ) && after.knows_channel(after.connections[i].target) by {
            assert(known(after.connections[i]));
        }
        assert forall|i: int, j: int| 0 <= i < j < after.connections.len() implies !connects(
            #[trigger] after.connections[i],
            (#[trigger] after.connections[j]).source,
            after.connections[j].target,
            after.connections[j].owner,
        ) by {
            assert(apart(after.connections[i], after.connections[j]));
        }
        assert(after.guilds == self.guilds);
        assert(after.channels == self.channels);
        assert(after.rules == self.rules);
        assert(after.webhooks == self.webhooks);
    }
}

/// Owners do not see each other's connections: what `creator` creates
/// changes nothing in where the messages of another owner go, from whatever
/// source.
pub proof fn lemma_ownership_isolation(
    reg: RegistryView,
    source: u64,
    target: u64,
    creator: u64,
    issued: Option<u64>,
    observed: u64,
    other: u64,
)
    requires
        creator != other,
    ensures
        reg.create_connection(source, target, creator, issued).1.routes_of(observed, other)
            == reg.routes_of(observed, other),
{
    let after = reg.create_connection(source, target, creator, issued).1;
    if after.connections != reg.connections {
        let c = after.connections.last();
        assert(c.owner == creator);
        lemma_filter_push_refused(reg.connections, from_source(observed, other), c);
    }
}

/// Creating a connection and creating it again gives `Created` and then
/// `AlreadyExists`, and the second attempt changes nothing.
pub proof fn lemma_create_twice(
    reg: RegistryView,
    source: u64,
    target: u64,
    owner: u64,
    first: Option<u64>,
    second: Option<u64>,
)
    requires
        reg.create_connection(source, target, owner, first).0 == Ok::<Creation, RelayError>(
            Creation::Created,
        ),
    ensures
        ({
            let created = reg.create_connection(source, target, owner, first).1;
            created.create_connection(source, target, owner, second) == (
                Ok::<Creation, RelayError>(Creation::AlreadyExists),
                created,
            )
        }),
{
    let created = reg.create_connection(source, target, owner, first).1;
    let at = created.connections.len() - 1;
    assert(connects(created.connections[at], source, target, owner));
    assert(created.channels == reg.channels);
    assert(created.knows_channel(source) && created.knows_channel(target)) by {
        let i = choose|i: int| 0 <= i < reg.channels.len() && (#[trigger] reg.channels[i]).id == source;
        assert(created.channels[i].id == source);
        let j = choose|j: int| 0 <= j < reg.channels.len() && (#[trigger] reg.channels[j]).id == target;
        assert(created.channels[j].id == target);
    }
}

/// A registry never holds two connections of one source, target and owner.
pub proof fn lemma_one_row_per_key(reg: RegistryView, i: int, j: int)
    requires
        reg.wf(),
        0 <= i < reg.connections.len(),
        0 <= j < reg.connections.len(),
        reg.connections[i].source == reg.connections[j].source,
        reg.connections[i].target == reg.connections[j].target,
        reg.connections[i].owner == reg.connections[j].owner,
    ensures
        i == j,
{
    if i < j {
        assert(!connects(reg.connections[i], reg.connections[j].source, reg.connections[j].target, reg.connections[j].owner));
    } else if j < i {
        assert(!connects(reg.connections[j], reg.connections[i].source, reg.connections[i].target, reg.connections[i].owner));
    }
}

/// Deleting all connections that `owner` has made from `source` leaves none
/// of them, and leaves the connections from every other source and of every
/// other owner as they were, in their order.
pub proof fn lemma_delete_all_spares_others(
    reg: RegistryView,
    source: u64,
    owner: u64,
    other_source: u64,
    other_owner: u64,
)
    ensures
        ({
            let after = reg.with_connections(reg.connections.filter(not_from_source(source, owner)));
            &&& after.routes_of(source, owner).len() == 0
            &&& forall|i: int| 0 <= i < after.connections.len() ==> !from_source(source, owner)(#[trigger] after.connections[i])
            &&& (other_source != source || other_owner != owner) ==> after.connections.filter(from_source(other_source, other_owner))
                == reg.connections.filter(from_source(other_source, other_owner))
            &&& (other_source != source || other_owner != owner) ==> after.routes_of(other_source, other_owner)
                == reg.routes_of(other_source, other_owner)
        }),
{
    let keep = not_from_source(source, owner);
    let after = reg.with_connections(reg.connections.filter(keep));
    assert forall|i: int| 0 <= i < after.connections.len() implies !from_source(source, owner)(#[trigger] after.connections[i]) by {
        lemma_filter_member(reg.connections, keep, i);
    }
    lemma_filter_none(after.connections, from_source(source, owner));
    if other_source != source || other_owner != owner {
        lemma_filter_twice(reg.connections, keep, from_source(other_source, other_owner));
    }
}

/// Wiping what touches a guild removes the connections of `owner` whose
/// source lies in it, wherever the target lies, and those whose target lies
/// in it, wherever the source lies; every other connection stays.
pub proof fn lemma_wipe_either_end(
    reg: RegistryView,
    guild_name: Seq<char>,
    owner: u64,
    c: Connection,
)
    requires
        reg.connections.contains(c),
    ensures
        ({
            let after = reg.connections.filter(reg.untouched_by(guild_name, owner));
            &&& c.owner == owner && reg.in_guild_named(c.source, guild_name) ==> !after.contains(c)
            &&& c.owner == owner && reg.in_guild_named(c.target, guild_name) ==> !after.contains(c)
            &&& c.owner != owner ==> after.contains(c)
            &&& !reg.in_guild_named(c.source, guild_name) && !reg.in_guild_named(c.target, guild_name)
                ==> after.contains(c)
        }),
{
    let keep = reg.untouched_by(guild_name, owner);
    let after = reg.connections.filter(keep);
    if after.contains(c) {
        let a = choose|a: int| 0 <= a < after.len() && after[a] == c;
        lemma_filter_member(reg.connections, keep, a);
    }
    if keep(c) {
        let k = choose|k: int| 0 <= k < reg.connections.len() && reg.connections[k] == c;
        lemma_filter_keeps(reg.connections, keep, k);
    }
}

/// Keeps the connections that are marked.
fn keep_marked(
    rows: &Vec<Connection>,
    marks: &Vec<bool>,
    Ghost(keep): Ghost<spec_fn(Connection) -> bool>,
) -> (out: Vec<Connection>)
    requires
        marks@.len() == rows@.len(),
        forall|i: int| 0 <= i < rows@.len() ==> #[trigger] marks@[i] == keep(rows@[i]),
    ensures
        out@ == rows@.filter(keep),
{
    let n: usize = rows.len();
    let mut out: Vec<Connection> = Vec::new();
    let mut i: usize = 0;
    proof {
        reveal(Seq::filter);
        assert(rows@.take(0).filter(keep) =~= out@);
    }
    while i < n
        invariant
            n == rows@.len(),
            marks@.len() == rows@.len(),
            i <= n,
            forall|k: int| 0 <= k < rows@.len() ==> #[trigger] marks@[k] == keep(rows@[k]),
            out@ == rows@.take(i as int).filter(keep),
        decreases n - i,
    {
        proof {
            lemma_filter_take_next(rows@, keep, i as int);
        }
        if marks[i] {
            out.push(rows[i]);
        }
        i += 1;
    }
    assert(rows@.take(n as int) =~= rows@);
    out
}

impl Registry {
    /// Whether `owner` has connected `source` to `target`.
    pub fn connection_exists(&self, source: u64, target: u64, owner: u64) -> (r: bool)
        ensures
            r == self@.has_connection(source, target, owner),
    {
        let n: usize = self.connections.len();
        let mut i: usize = 0;
        while i < n
            invariant
                n == self.connections@.len(),
                i <= n,
                forall|k: int| 0 <= k < i ==> !connects(#[trigger] self@.connections[k], source, target, owner),
            decreases n - i,
        {
            let c = self.connections[i];
            if c.source == source && c.target == target && c.owner == owner {
                assert(connects(self@.connections[i as int], source, target, owner));
                return true;
            }
            i += 1;
        }
        false
    }

    /// Stores a connection with the delivery handle it is to use, unless one
    /// of the same source, target and owner is there. Fails with `NotFound`
    /// if either channel is unknown.
    pub fn maybe_add_connection(
        &mut self,
        source: u64,
        target: u64,
        owner: u64,
        webhook: u64,
    ) -> (r: Result<Creation, RelayError>)
        requires
            old(self).wf(),
        ensures
            final(self).wf(),
            r == old(self)@.add_connection(Connection { source, target, owner, webhook }).0,
            final(self)@ == old(self)@.add_connection(Connection { source, target, owner, webhook }).1,
            r is Ok ==> final(self)@.has_connection(source, target, owner),
    {
        if !self.knows_channel(source) || !self.knows_channel(target) {
            return Err(RelayError::NotFound);
        }
        if self.connection_exists(source, target, owner) {
            return Ok(Creation::AlreadyExists);
        }
        let c = Connection { source, target, owner, webhook };
        self.connections.push(c);
        assert(connects(self@.connections[self@.connections.len() - 1], source, target, owner));
        proof {
            let before = old(self)@;
            let after = self@;
            assert(after.connections =~= before.connections.push(c));
            assert(after.guilds == before.guilds);
            assert(after.channels == before.channels);
            assert(after.rules == before.rules);
            assert(after.webhooks == before.webhooks);
            assert forall|i: int| 0 <= i < after.connections.len() implies after.knows_channel(
                (#[trigger] after.connections[i]).source,
            ) && after.knows_channel(after.connections[i].target) by {
                if i < before.connections.len() {
                    assert(before.knows_channel(before.connections[i].source));
                }
            }
            assert forall|i: int, j: int| 0 <= i < j < after.connections.len() implies !connects(
                #[trigger] after.connections[i],
                (#[trigger] after.connections[j]).source,
                after.connections[j].target,
                after.connections[j].owner,
            ) by {
                if j < before.connections.len() {
                    assert(!connects(before.connections[i], before.connections[j].source, before.connections[j].target, before.connections[j].owner));
                } else {
                    assert(!connects(before.connections[i], source, target, owner));
                }
            }
            assert(after == before.with_connections(before.connections.push(c)));
        }
        Ok(Creation::Created)
    }

    /// Connects `source` to `target` for `owner`. Fails with `NotFound` if
    /// either channel is unknown. A connection that exists is left as it is.
    /// Otherwise the delivery handle of owner and target is resolved, with
    /// `issued` as the chat platform's answer where a handle had to be
    /// created, and the connection is stored with it.
    pub fn create_connection(
        &mut self,
        source: u64,
        target: u64,
        owner: u64,
        issued: Option<u64>,
    ) -> (r: Result<Creation, RelayError>)
        requires
            old(self).wf(),
        ensures
            final(self).wf(),
            r == old(self)@.create_connection(source, target, owner, issued).0,
            final(self)@ == old(self)@.create_connection(source, target, owner, issued).1,
            r is Ok ==> final(self)@.has_connection(source, target, owner),
    {
        if !self.knows_channel(source) || !self.knows_channel(target) {
            return Err(RelayError::NotFound);
        }
        if self.connection_exists(source, target, owner) {
            return Ok(Creation::AlreadyExists);
        }
        match self.resolve(owner, target, issued) {
            Ok(webhook) => self.maybe_add_connection(source, target, owner, webhook),
            Err(e) => Err(e),
        }
    }

    /// Removes the connection of this source, target and owner.
    pub fn delete_connection(&mut self, source: u64, target: u64, owner: u64) -> (r: Deletion)
        requires
            old(self).wf(),
        ensures
            final(self).wf(),
            r == (if old(self)@.has_connection(source, target, owner) {
                Deletion::Deleted
            } else {
                Deletion::NotFound
            }),
            final(self)@ == old(self)@.with_connections(
                old(self)@.connections.filter(other_than(source, target, owner)),
            ),
            !final(self)@.has_connection(source, target, owner),
    {
        let found = self.connection_exists(source, target, owner);
        let n: usize = self.connections.len();
        let mut marks: Vec<bool> = Vec::new();
        let mut i: usize = 0;
        while i < n
            invariant
                n == self.connections@.len(),
                i <= n,
                marks@.len() == i,
                forall|k: int| 0 <= k < i ==> #[trigger] marks@[k] == other_than(source, target, owner)(self.connections@[k]),
            decreases n - i,
        {
            let c = self.connections[i];
            marks.push(!(c.source == source && c.target == target && c.owner == owner));
            i += 1;
        }
        let kept = keep_marked(&self.connections, &marks, Ghost(other_than(source, target, owner)));
        self.connections = kept;
        proof {
            old(self)@.lemma_fewer_connections_wf(other_than(source, target, owner));
            assert(self@ == old(self)@.with_connections(old(self)@.connections.filter(other_than(source, target, owner))));
            assert forall|i: int| 0 <= i < self@.connections.len() implies !connects(#[trigger] self@.connections[i], source, target, owner) by {
                lemma_filter_member(old(self)@.connections, other_than(source, target, owner), i);
            }
        }
        if found {
            Deletion::Deleted
        } else {
            Deletion::NotFound
        }
    }

    /// Removes every connection that `owner` has made from `source`, and
    /// says how many there were.
    pub fn delete_all_connections_from(&mut self, source: u64, owner: u64) -> (count: usize)
        requires
            old(self).wf(),
        ensures
            final(self).wf(),
            final(self)@ == old(self)@.with_connections(
                old(self)@.connections.filter(not_from_source(source, owner)),
            ),
            count == old(self)@.connections.len() - final(self)@.connections.len(),
    {
        let n: usize = self.connections.len();
        let mut marks: Vec<bool> = Vec::new();
        let mut i: usize = 0;
        while i < n
            invariant
                n == self.connections@.len(),
                i <= n,
                marks@.len() == i,
                forall|k: int| 0 <= k < i ==> #[trigger] marks@[k] == not_from_source(source, owner)(self.connections@[k]),
            decreases n - i,
        {
            let c = self.connections[i];
            marks.push(!(c.source == source && c.owner == owner));
            i += 1;
        }
        let kept = keep_marked(&self.connections, &marks, Ghost(not_from_source(source, owner)));
        proof {
            self@.connections.lemma_filter_len(not_from_source(source, owner));
        }
        let count: usize = n - kept.len();
        self.connections = kept;
        proof {
            old(self)@.lemma_fewer_connections_wf(not_from_source(source, owner));
            assert(self@ == old(self)@.with_connections(old(self)@.connections.filter(not_from_source(source, owner))));
        }
        count
    }

    /// Where the messages that `owner` posts in `source` go: each target with
    /// its delivery handle, in retrieval order.
    pub fn connections_for(&self, source: u64, owner: u64) -> (out: Vec<Route>)
        ensures
            out@ == self@.routes_of(source, owner),
    {
        let n: usize = self.connections.len();
        let mut out: Vec<Route> = Vec::new();
        let mut i: usize = 0;
        proof {
            reveal(Seq::filter);
            assert(self@.connections.take(0).filter(from_source(source, owner)).map_values(route_of()) =~= out@);
        }
        while i < n
            invariant
                n == self.connections@.len(),
                i <= n,
                out@ == self@.connections.take(i as int).filter(from_source(source, owner)).map_values(route_of()),
            decreases n - i,
        {
            let c = self.connections[i];
            proof {
                lemma_filter_take_next(self@.connections, from_source(source, owner), i as int);
            }
            if c.source == source && c.owner == owner {
                let ghost prev = self@.connections.take(i as int).filter(from_source(source, owner));
                out.push(Route { target: c.target, webhook: c.webhook });
                assert(prev.push(c).map_values(route_of()) =~= prev.map_values(route_of()).push(route_of()(c)));
            }
            i += 1;
        }
        assert(self@.connections.take(n as int) =~= self@.connections);
        out
    }

    /// Removes every connection of `owner` of which either end lies in a
    /// guild of this name, and says how many there were.
    pub fn wipe_connections_touching(&mut self, guild_name: &str, owner: u64) -> (count: usize)
        requires
            old(self).wf(),
        ensures
            final(self).wf(),
            final(self)@ == old(self)@.with_connections(
                old(self)@.connections.filter(old(self)@.untouched_by(guild_name@, owner)),
            ),
            count == old(self)@.connections.len() - final(self)@.connections.len(),
    {
        let ghost keep = self@.untouched_by(guild_name@, owner);
        let n: usize = self.connections.len();
        let mut marks: Vec<bool> = Vec::new();
        let mut i: usize = 0;
        while i < n
            invariant
                n == self.connections@.len(),
                i <= n,
                self.wf(),
                keep == self@.untouched_by(guild_name@, owner),
                marks@.len() == i,
                forall|k: int| 0 <= k < i ==> #[trigger] marks@[k] == keep(self.connections@[k]),
            decreases n - i,
        {
            let c = self.connections[i];
            let touched = c.owner == owner && (self.in_guild_named(c.source, guild_name)
                || self.in_guild_named(c.target, guild_name));
            marks.push(!touched);
            i += 1;
        }
        let kept = keep_marked(&self.connections, &marks, Ghost(keep));
        proof {
            self@.connections.lemma_filter_len(keep);
        }
        let count: usize = n - kept.len();
        self.connections = kept;
        proof {
            old(self)@.lemma_fewer_connections_wf(keep);
            assert(self@ == old(self)@.with_connections(old(self)@.connections.filter(keep)));
        }
        count
    }
}

} // verus!
