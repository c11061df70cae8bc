//! Lists the connections of an owner, grouped by the guild of their source.

use vstd::prelude::*;
use crate::model::Connection;
use crate::model::Registry;
use crate::model::RegistryView;
use crate::seqs::lemma_filter_keeps;
use crate::seqs::lemma_filter_take_next;
use crate::text::str_eq;
use crate::text::texts_of;

verus! {

/// One connection of a listing: from `source` to `target`, which lies in the
/// guild `target_guild`.
#[derive(Clone, Debug, PartialEq, Eq)]
pub struct ConnectionLine {
    pub source: u64,
    pub target: u64,
    pub target_guild: String,
}

/// A line as contracts see it.
pub struct LineView {
    pub source: u64,
    pub target: u64,
    pub target_guild: Seq<char>,
}

impl View for ConnectionLine {
    type V = LineView;

    open spec fn view(&self) -> LineView {
        LineView { source: self.source, target: self.target, target_guild: self.target_guild@ }
    }
}

/// The connections whose source lies in the guild `guild`.
#[derive(Clone, Debug, PartialEq, Eq)]
pub struct ConnectionGroup {
    pub guild: String,
    pub lines: Vec<ConnectionLine>,
}

/// A group as contracts see it.
pub struct GroupView {
    pub guild: Seq<char>,
    pub lines: Seq<LineView>,
}

/// The views of a vector of lines.
pub open spec fn line_views(v: Seq<ConnectionLine>) -> Seq<LineView> {
    v.map_values(|l: ConnectionLine| l@)
}

impl View for ConnectionGroup {
    type V = GroupView;

    open spec fn view(&self) -> GroupView {
        GroupView { guild: self.guild@, lines: line_views(self.lines@) }
    }
}

/// The views of a vector of groups.
pub open spec fn group_views(v: Seq<ConnectionGroup>) -> Seq<GroupView> {
    v.map_values(|g: ConnectionGroup| g@)
}

/// The connections of `owner` whose source lies in a guild of this name.
pub open spec fn sourced_in(
    reg: RegistryView,
    owner: u64,
    guild: Seq<char>,
) -> spec_fn(Connection) -> bool {
    |c: Connection| c.owner == owner && reg.guild_name_of(c.source) == Some(guild)
}

/// Whether one of the first `upto` connections is one of `owner` with its
/// source in a guild of this name.
pub open spec fn has_source_in(reg: RegistryView, owner: u64, guild: Seq<char>, upto: int) -> bool {
    exists|k: int| 0 <= k < upto && k < reg.connections.len() && sourced_in(reg, owner, guild)(#[trigger] reg.connections[k])
}

/// What is among the first connections is among the first and more.
pub proof fn lemma_has_source_in_more(reg: RegistryView, owner: u64, guild: Seq<char>, upto: int)
    requires
        has_source_in(reg, owner, guild, upto),
    ensures
        has_source_in(reg, owner, guild, upto + 1),
{
    let k = choose|k: int| 0 <= k < upto && k < reg.connections.len() && sourced_in(reg, owner, guild)(#[trigger] reg.connections[k]);
    assert(sourced_in(reg, owner, guild)(reg.connections[k]));
}

/// The line that a connection is listed as.
pub open spec fn line_at(reg: RegistryView) -> spec_fn(Connection) -> LineView {
    |c: Connection|
        LineView {
            source: c.source,
            target: c.target,
            target_guild: match reg.guild_name_of(c.target) {
                Some(name) => name,
                None => Seq::empty(),
            },
        }
}

impl RegistryView {
    /// The lines of the connections of `owner` whose source lies in a guild
    /// of this name, in retrieval order.
    pub open spec fn lines_in(self, owner: u64, guild: Seq<char>) -> Seq<LineView> {
        self.connections.filter(sourced_in(self, owner, guild)).map_values(line_at(self))
    }

    /// Whether `groups` lists the connections of `owner`: no guild twice, no
    /// group empty, each group with all the lines of its guild in retrieval
    /// order, and every connection of the owner under the guild of its source.
    pub open spec fn is_listing(self, owner: u64, groups: Seq<GroupView>) -> bool {
        &&& forall|i: int, j: int|
            0 <= i < j < groups.len() ==> (#[trigger] groups[i]).guild != (#[trigger] groups[j]).guild
        &&& forall|i: int|
            0 <= i < groups.len() ==> (#[trigger] groups[i]).lines.len() > 0 && groups[i].lines
                == self.lines_in(owner, groups[i].guild)
        &&& forall|k: int|
            0 <= k < self.connections.len() && (#[trigger] self.connections[k]).owner == owner
                ==> self.is_listed(groups, self.connections[k])
    }

    /// The name of the guild that the source of a connection lies in.
    pub open spec fn source_guild(self, c: Connection) -> Seq<char> {
        match self.guild_name_of(c.source) {
            Some(name) => name,
            None => Seq::empty(),
        }
    }

    /// Whether some group goes by the guild of the source of `c`.
    pub open spec fn is_listed(self, groups: Seq<GroupView>, c: Connection) -> bool {
        exists|i: int| 0 <= i < groups.len() && (#[trigger] groups[i]).guild == self.source_guild(c)
    }
}

impl Registry {
    /// The lines of the connections of `owner` whose source lies in a guild
    /// of this name, in retrieval order.
    pub fn lines_in(&self, owner: u64, guild: &str) -> (out: Vec<ConnectionLine>)
        requires
            self.wf(),
        ensures
            line_views(out@) == self@.lines_in(owner, guild@),
    {
        let n: usize = self.connections.len();
        let mut out: Vec<ConnectionLine> = Vec::new();
        let mut i: usize = 0;
        let ghost p = sourced_in(self@, owner, guild@);
        let ghost f = line_at(self@);
        proof {
            reveal(Seq::filter);
            assert(line_views(out@) =~= self@.connections.take(0).filter(p).map_values(f));
        }
        while i < n
            invariant
                n == self.connections@.len(),
                i <= n,
                self.wf(),
                p == sourced_in(self@, owner, guild@),
                f == line_at(self@),
                line_views(out@) == self@.connections.take(i as int).filter(p).map_values(f),
            decreases n - i,
        {
            let c = self.connections[i];
            proof {
                lemma_filter_take_next(self@.connections, p, i as int);
            }
            if c.owner == owner && self.in_guild_named(c.source, guild) {
                let target_guild = match self.guild_name_of(c.target) {
                    Some(name) => name,
                    None => String::new(),
                };
                let ghost prev = out@;
                let ghost kept = self@.connections.take(i as int).filter(p);
                out.push(ConnectionLine { source: c.source, target: c.target, target_guild });
                proof {
                    assert(line_views(out@) =~= line_views(prev).push(f(c)));
                    assert(kept.push(c).map_values(f) =~= kept.map_values(f).push(f(c)));
                }
            }
            i += 1;
        }
        assert(self@.connections.take(n as int) =~= self@.connections);
        out
    }

    /// The names of the guilds in which `owner` has a source, each once.
    pub fn source_guilds(&self, owner: u64) -> (guilds: Vec<String>)
        requires
            self.wf(),
        ensures
            texts_of(guilds@).no_duplicates(),
            forall|a: int| 0 <= a < guilds@.len() ==> has_source_in(self@, owner, #[trigger] texts_of(guilds@)[a], self@.connections.len() as int),
            forall|k: int| 0 <= k < self@.connections.len() && (#[trigger] self@.connections[k]).owner == owner
                ==> texts_of(guilds@).contains(self@.source_guild(self@.connections[k])),
    {
        let n: usize = self.connections.len();
        let mut guilds: Vec<String> = Vec::new();
        let mut i: usize = 0;
        while i < n
            invariant
                n == self.connections@.len(),
                i <= n,
                self.wf(),
                texts_of(guilds@).no_duplicates(),
                forall|a: int| 0 <= a < guilds@.len() ==> has_source_in(self@, owner, #[trigger] texts_of(guilds@)[a], i as int),
                forall|k: int| 0 <= k < i && (#[trigger] self@.connections[k]).owner == owner
                    ==> texts_of(guilds@).contains(self@.source_guild(self@.connections[k])),
            decreases n - i,
        {
            let c = self.connections[i];
            let ghost before = texts_of(guilds@);
            if c.owner == owner {
                assert(self@.knows_channel(self@.connections[i as int].source));
                match self.guild_name_of(c.source) {
                    Some(name) => {
                        assert(name@ == self@.source_guild(c));
                        let m: usize = guilds.len();
                        let mut a: usize = 0;
                        while a < m && !str_eq(guilds[a].as_str(), name.as_str())
                            invariant
                                m == guilds@.len(),
                                a <= m,
                                forall|b: int| 0 <= b < a ==> #[trigger] texts_of(guilds@)[b] != name@,
                            decreases m - a,
                        {
                            a += 1;
                        }
                        if a == m {
                            guilds.push(name);
                            proof {
                                let after = texts_of(guilds@);
                                assert(after =~= before.push(name@));
                                assert(sourced_in(self@, owner, name@)(self@.connections[i as int]));
                                assert(has_source_in(self@, owner, name@, i + 1));
                                assert(after[m as int] == name@);
                                assert(after.contains(self@.source_guild(c)));
                            }
                        } else {
                            assert(before[a as int] == name@);
                            assert(before.contains(self@.source_guild(c)));
                        }
                    },
                    None => {},
                }
            }
            proof {
                let after = texts_of(guilds@);
                assert forall|x: int| 0 <= x < after.len() implies has_source_in(self@, owner, #[trigger] after[x], i + 1) by {
                    if x < before.len() {
                        assert(after[x] == before[x]);
                        lemma_has_source_in_more(self@, owner, before[x], i as int);
                    }
                }
                assert forall|k: int| 0 <= k < i + 1 && (#[trigger] self@.connections[k]).owner == owner
                    implies after.contains(self@.source_guild(self@.connections[k])) by {
                    let g = self@.source_guild(self@.connections[k]);
                    if k < i {
                        let x = choose|x: int| 0 <= x < before.len() && before[x] == g;
                        assert(after[x] == g);
                    }
                }
            }
            i += 1;
        }
        guilds
    }

    /// The connections of `owner`, grouped by the name of the guild that the
    /// source lies in; the lines of a group stand in retrieval order.
    pub fn list_connections(&self, owner: u64) -> (out: Vec<ConnectionGroup>)
        requires
            self.wf(),
        ensures
            self@.is_listing(owner, group_views(out@)),
    {
        let guilds = self.source_guilds(owner);
        let m: usize = guilds.len();
        let mut out: Vec<ConnectionGroup> = Vec::new();
        let mut a: usize = 0;
        while a < m
            invariant
                m == guilds@.len(),
                a <= m,
                self.wf(),
                out@.len() == a,
                forall|x: int| 0 <= x < guilds@.len() ==> has_source_in(self@, owner, #[trigger] texts_of(guilds@)[x], self@.connections.len() as int),
                forall|x: int| 0 <= x < a ==> (#[trigger] group_views(out@)[x]).guild == texts_of(guilds@)[x]
                    && group_views(out@)[x].lines == self@.lines_in(owner, texts_of(guilds@)[x]) && group_views(out@)[x].lines.len() > 0,
            decreases m - a,
        {
            let name = guilds[a].clone();
            let lines = self.lines_in(owner, name.as_str());
            proof {
                assert(name@ == texts_of(guilds@)[a as int]);
                let p = sourced_in(self@, owner, name@);
                let k = choose|k: int| 0 <= k < self@.connections.len() && sourced_in(self@, owner, name@)(#[trigger] self@.connections[k]);
                lemma_filter_keeps(self@.connections, p, k);
            }
            let ghost prev = group_views(out@);
            let group = ConnectionGroup { guild: name, lines };
            let ghost gv = group@;
            out.push(group);
            assert(group_views(out@) =~= prev.push(gv));
            a += 1;
        }
        proof {
            let groups = group_views(out@);
            let names = texts_of(guilds@);
            assert forall|x: int, y: int| 0 <= x < y < groups.len() implies (#[trigger] groups[x]).guild != (#[trigger] groups[y]).guild by {
                assert(names[x] != names[y]);
            }
            assert forall|k: int| 0 <= k < self@.connections.len() && (#[trigger] self@.connections[k]).owner == owner
                implies self@.is_listed(groups, self@.connections[k]) by {
                let g = self@.source_guild(self@.connections[k]);
                let x = choose|x: int| 0 <= x < names.len() && names[x] == g;
                assert(groups[x].guild == g);
            }
        }
        out
    }
}

} // verus!
