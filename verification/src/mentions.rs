//! Mention rules: the text that an owner puts on top of what is relayed into
//! a target.

use vstd::prelude::*;
use crate::model::MentionRule;
use crate::model::Registry;
use crate::model::RegistryView;
use crate::model::rule_views;
use crate::model::RuleView;
use crate::seqs::lemma_filter_keeps_pairwise;
use crate::seqs::lemma_filter_take_next;
use crate::text::lemma_lex_le_antisymmetric;
use crate::text::lemma_lex_le_reflexive;
use crate::text::lemma_lex_le_total;
use crate::text::lemma_lex_le_transitive;
use crate::text::lex_le;
use crate::text::str_eq;
use crate::text::str_le;
use crate::text::texts_of;

verus! {

/// How an attempt to add a rule ended.
#[derive(Clone, Copy, Debug, PartialEq, Eq, Structural)]
pub enum Addition {
    /// A new rule was stored.
    Added,
    /// The rule was there already; nothing changed.
    AlreadyExists,
}

/// The rules of `owner` for `target` that apply to what comes from `source`:
/// those without a source and those of this source.
pub open spec fn applies_to(owner: u64, target: u64, source: u64) -> spec_fn(RuleView) -> bool {
    |r: RuleView| r.owner == owner && r.target == target && (r.source is None || r.source == Some(source))
}

/// The text of a rule.
pub open spec fn text_at() -> spec_fn(RuleView) -> Seq<char> {
    |r: RuleView| r.text
}

/// Whether each text is below the next, so that none occurs twice.
pub open spec fn strictly_ascending(s: Seq<Seq<char>>) -> bool {
    forall|i: int, j: int| 0 <= i < j < s.len() ==> lex_le(#[trigger] s[i], #[trigger] s[j]) && s[i] != s[j]
}

impl RegistryView {
    /// The same tables with other mention rules.
    pub open spec fn with_rules(self, rules: Seq<RuleView>) -> RegistryView {
        RegistryView { rules, ..self }
    }

    /// The texts of the rules of `owner` for `target` that apply to `source`,
    /// in retrieval order, a text as often as a rule carries it.
    pub open spec fn mention_texts(self, owner: u64, target: u64, source: u64) -> Seq<Seq<char>> {
        self.rules.filter(applies_to(owner, target, source)).map_values(text_at())
    }

    /// What adding a rule returns and leaves behind: a rule is never stored twice.
    pub open spec fn add_rule(self, rule: RuleView) -> (Addition, RegistryView) {
        if self.has_rule(rule) {
            (Addition::AlreadyExists, self)
        } else {
            (Addition::Added, self.with_rules(self.rules.push(rule)))
        }
    }

    /// Whether the target of a rule, or its source if it has one, lies in a
    /// guild of this name.
    pub open spec fn rule_touches(self, r: RuleView, guild_name: Seq<char>) -> bool {
        self.in_guild_named(r.target, guild_name) || match r.source {
            Some(source) => self.in_guild_named(source, guild_name),
            None => false,
        }
    }

    /// The rules of `owner` whose target lies in a guild of this name.
    pub open spec fn rules_into(
        self,
        guild_name: Seq<char>,
        owner: u64,
    ) -> spec_fn(RuleView) -> bool {
        |r: RuleView| r.owner == owner && self.in_guild_named(r.target, guild_name)
    }

    /// All rules but those of `owner` that touch a guild of this name.
    pub open spec fn rules_untouched_by(
        self,
        guild_name: Seq<char>,
        owner: u64,
    ) -> spec_fn(RuleView) -> bool {
        |r: RuleView| !(r.owner == owner && self.rule_touches(r, guild_name))
    }

    /// Keeping only some rules keeps the invariant.
    pub proof fn lemma_fewer_rules_wf(self, keep: spec_fn(RuleView) -> bool)
        requires
            self.wf(),
        ensures
            self.with_rules(self.rules.filter(keep)).wf(),
    {
        let after = self.with_rules(self.rules.filter(keep));
        let apart = |a: RuleView, b: RuleView| a != b;
        lemma_filter_keeps_pairwise(self.rules, keep, apart);
        assert forall|i: int, j: int| 0 <= i < j < after.rules.len() implies #[trigger] after.rules[i]
            != #[trigger] after.rules[j] by {
            assert(apart(after.rules[i], after.rules[j]));
        }
        assert(after.guilds == self.guilds);
        assert(after.channels == self.channels);
        assert(after.connections == self.connections);
        assert(after.webhooks == self.webhooks);
    }
}

/// A rule without a source and a rule with one are added independently of
/// each other, also where they carry the same text: adding the one does not
/// make the other exist.
pub proof fn lemma_wildcard_and_specific_are_apart(
    reg: RegistryView,
    owner: u64,
    target: u64,
    source: u64,
    text: Seq<char>,
)
    ensures
        ({
            let wildcard = RuleView { source: None, target, text, owner };
            let specific = RuleView { source: Some(source), target, text, owner };
            &&& reg.add_rule(wildcard).1.has_rule(specific) == reg.has_rule(specific)
            &&& reg.add_rule(specific).1.has_rule(wildcard) == reg.has_rule(wildcard)
        }),
{
    let wildcard = RuleView { source: None, target, text, owner };
    let specific = RuleView { source: Some(source), target, text, owner };
    lemma_added_rule_shows_only_itself(reg, wildcard, specific);
    lemma_added_rule_shows_only_itself(reg, specific, wildcard);
}

/// Adding a rule changes nothing in whether another rule is held.
pub proof fn lemma_added_rule_shows_only_itself(reg: RegistryView, added: RuleView, other: RuleView)
    requires
        added != other,
    ensures
        reg.add_rule(added).1.has_rule(other) == reg.has_rule(other),
{
    let after = reg.add_rule(added).1;
    if after.has_rule(other) {
        let i = choose|i: int| 0 <= i < after.rules.len() && #[trigger] after.rules[i] == other;
        assert(reg.rules[i] == other);
    }
    if reg.has_rule(other) {
        let i = choose|i: int| 0 <= i < reg.rules.len() && #[trigger] reg.rules[i] == other;
        assert(after.rules[i] == other);
    }
}

/// Texts in strictly ascending order hold no text twice.
pub proof fn lemma_ascending_no_duplicates(s: Seq<Seq<char>>)
    requires
        strictly_ascending(s),
    ensures
        s.no_duplicates(),
{
    assert forall|i: int, j: int| 0 <= i < s.len() && 0 <= j < s.len() && i != j implies s[i] != s[j] by {
        if i < j {
            assert(lex_le(s[i], s[j]) && s[i] != s[j]);
        } else {
            assert(lex_le(s[j], s[i]) && s[j] != s[i]);
        }
    }
}

/// There is one way only to put a set of texts in strictly ascending order.
pub proof fn lemma_ascending_unique(a: Seq<Seq<char>>, b: Seq<Seq<char>>)
    requires
        strictly_ascending(a),
        strictly_ascending(b),
        a.to_set() == b.to_set(),
    ensures
        a == b,
    decreases a.len(),
{
    if a.len() == 0 {
        if b.len() > 0 {
            assert(b.to_set().contains(b[0]));
            assert(a.contains(b[0]));
        }
        assert(a =~= b);
    } else {
        let x = a.last();
        assert(a.to_set().contains(x));
        assert(b.contains(x));
        let y = b.last();
        assert(b.to_set().contains(y));
        assert(a.contains(y));
        let k = choose|k: int| 0 <= k < b.len() && b[k] == x;
        let l = choose|l: int| 0 <= l < a.len() && a[l] == y;
        lemma_lex_le_reflexive(x);
        assert(lex_le(x, y)) by {
            if k < b.len() - 1 {
                assert(lex_le(b[k], b[b.len() - 1]));
            }
        }
        assert(lex_le(y, x)) by {
            if l < a.len() - 1 {
                assert(lex_le(a[l], a[a.len() - 1]));
            }
        }
        lemma_lex_le_antisymmetric(x, y);
        let a0 = a.drop_last();
        let b0 = b.drop_last();
        assert forall|v: Seq<char>| a0.to_set().contains(v) <==> b0.to_set().contains(v) by {
            if a0.contains(v) {
                let i = choose|i: int| 0 <= i < a0.len() && a0[i] == v;
                assert(a[i] == v);
                assert(lex_le(a[i], a[a.len() - 1]) && a[i] != a[a.len() - 1]);
                assert(a.to_set().contains(v));
                assert(b.contains(v));
                let j = choose|j: int| 0 <= j < b.len() && b[j] == v;
                assert(b0[j] == v);
            }
            if b0.contains(v) {
                let i = choose|i: int| 0 <= i < b0.len() && b0[i] == v;
                assert(b[i] == v);
                assert(lex_le(b[i], b[b.len() - 1]) && b[i] != b[b.len() - 1]);
                assert(b.to_set().contains(v));
                assert(a.contains(v));
                let j = choose|j: int| 0 <= j < a.len() && a[j] == v;
                assert(a0[j] == v);
            }
        }
        assert(a0.to_set() =~= b0.to_set());
        assert(strictly_ascending(a0)) by {
            assert forall|i: int, j: int| 0 <= i < j < a0.len() implies lex_le(#[trigger] a0[i], #[trigger] a0[j]) && a0[i] != a0[j] by {
                assert(lex_le(a[i], a[j]) && a[i] != a[j]);
            }
        }
        assert(strictly_ascending(b0)) by {
            assert forall|i: int, j: int| 0 <= i < j < b0.len() implies lex_le(#[trigger] b0[i], #[trigger] b0[j]) && b0[i] != b0[j] by {
                assert(lex_le(b[i], b[j]) && b[i] != b[j]);
            }
        }
        lemma_ascending_unique(a0, b0);
        assert(a =~= a0.push(x));
        assert(b =~= b0.push(y));
    }
}

/// Inserting an element adds it to the set of elements.
pub proof fn lemma_insert_to_set<A>(s: Seq<A>, at: int, x: A)
    requires
        0 <= at <= s.len(),
    ensures
        s.insert(at, x).to_set() == s.to_set().insert(x),
{
    let t = s.insert(at, x);
    assert forall|v: A| t.to_set().contains(v) <==> s.to_set().insert(x).contains(v) by {
        if t.contains(v) {
            let k = choose|k: int| 0 <= k < t.len() && t[k] == v;
            if k < at {
                assert(s[k] == v);
            } else if k > at {
                assert(s[k - 1] == v);
            }
        }
        if s.contains(v) {
            let k = choose|k: int| 0 <= k < s.len() && s[k] == v;
            if k < at {
                assert(t[k] == v);
            } else {
                assert(t[k + 1] == v);
            }
        }
        if v == x {
            assert(t[at] == v);
        }
    }
    assert(t.to_set() =~= s.to_set().insert(x));
}

/// Puts `text` into an ascending vector at its place, unless it is there.
fn insert_unique(out: &mut Vec<String>, text: String)
    requires
        strictly_ascending(texts_of(old(out)@)),
    ensures
        strictly_ascending(texts_of(final(out)@)),
        texts_of(final(out)@).to_set() == texts_of(old(out)@).to_set().insert(text@),
{
    let n: usize = out.len();
    let mut a: usize = 0;
    while a < n && !str_le(text.as_str(), out[a].as_str())
        invariant
            n == out@.len(),
            a <= n,
            forall|k: int| 0 <= k < a ==> !lex_le(text@, #[trigger] texts_of(out@)[k]),
        decreases n - a,
    {
        a += 1;
    }
    let ghost before = texts_of(out@);
    let ghost t = text@;
    if a < n && str_eq(out[a].as_str(), text.as_str()) {
        proof {
            assert(before[a as int] == t);
            assert(before.to_set().contains(t));
            assert(before.to_set() =~= before.to_set().insert(t));
        }
    } else {
        out.insert(a, text);
        proof {
            let after = texts_of(out@);
            assert(after =~= before.insert(a as int, t));
            lemma_insert_to_set(before, a as int, t);
            assert forall|i: int, j: int| 0 <= i < j < after.len() implies lex_le(#[trigger] after[i], #[trigger] after[j])
                && after[i] != after[j] by {
                if j < a {
                    assert(lex_le(before[i], before[j]) && before[i] != before[j]);
                } else if j == a {
                    assert(after[i] == before[i]);
                    assert(!lex_le(t, before[i]));
                    lemma_lex_le_total(t, before[i]);
                } else if i == a {
                    assert(after[j] == before[j - 1]);
                    assert(lex_le(t, before[a as int]));
                    if j - 1 > a {
                        assert(lex_le(before[a as int], before[j - 1]) && before[a as int] != before[j - 1]);
                        lemma_lex_le_transitive(t, before[a as int], before[j - 1]);
                        if t == before[j - 1] {
                            lemma_lex_le_antisymmetric(before[a as int], before[j - 1]);
                        }
                    }
                } else if i < a {
                    assert(after[i] == before[i]);
                    assert(after[j] == before[j - 1]);
                    assert(lex_le(before[i], before[j - 1]) && before[i] != before[j - 1]);
                } else {
                    assert(after[i] == before[i - 1]);
                    assert(after[j] == before[j - 1]);
                    assert(lex_le(before[i - 1], before[j - 1]) && before[i - 1] != before[j - 1]);
                }
            }
        }
    }
}

/// Orders texts ascending and keeps each once.
pub fn sort_dedup(texts: &Vec<String>) -> (out: Vec<String>)
    ensures
        strictly_ascending(texts_of(out@)),
        texts_of(out@).to_set() == texts_of(texts@).to_set(),
{
    let n: usize = texts.len();
    let mut out: Vec<String> = Vec::new();
    let mut i: usize = 0;
    assert(texts_of(out@).to_set() =~= texts_of(texts@).take(0).to_set());
    while i < n
        invariant
            n == texts@.len(),
            i <= n,
            strictly_ascending(texts_of(out@)),
            texts_of(out@).to_set() == texts_of(texts@).take(i as int).to_set(),
        decreases n - i,
    {
        proof {
            let all = texts_of(texts@);
            assert(all.take(i + 1) =~= all.take(i as int).insert(i as int, all[i as int]));
            lemma_insert_to_set(all.take(i as int), i as int, all[i as int]);
        }
        insert_unique(&mut out, texts[i].clone());
        i += 1;
    }
    assert(texts_of(texts@).take(n as int) =~= texts_of(texts@));
    out
}

/// A rule with the same fields.
fn copy_rule(r: &MentionRule) -> (c: MentionRule)
    ensures
        c@ == r@,
{
    MentionRule { source: r.source, target: r.target, text: r.text.clone(), owner: r.owner }
}

impl Registry {
    /// The mention texts to put on top of what `owner` relays from `source`
    /// into `target`: the texts of the rules without a source and of the rules
    /// of this source, ascending, each once.
    pub fn rules_for(&self, owner: u64, target: u64, source: u64) -> (out: Vec<String>)
        ensures
            strictly_ascending(texts_of(out@)),
            texts_of(out@).no_duplicates(),
            texts_of(out@).to_set() == self@.mention_texts(owner, target, source).to_set(),
    {
        let n: usize = self.rules.len();
        let mut texts: Vec<String> = Vec::new();
        let mut i: usize = 0;
        let ghost p = applies_to(owner, target, source);
        proof {
            reveal(Seq::filter);
            assert(texts_of(texts@) =~= self@.rules.take(0).filter(p).map_values(text_at()));
        }
        while i < n
            invariant
                n == self.rules@.len(),
                i <= n,
                p == applies_to(owner, target, source),
                texts_of(texts@) == self@.rules.take(i as int).filter(p).map_values(text_at()),
            decreases n - i,
        {
            proof {
                lemma_filter_take_next(self@.rules, p, i as int);
            }
            let r = &self.rules[i];
            let from_here = match r.source {
                Some(s) => s == source,
                None => true,
            };
            if r.owner == owner && r.target == target && from_here {
                let ghost prev = texts@;
                let ghost kept = self@.rules.take(i as int).filter(p);
                texts.push(r.text.clone());
                proof {
                    let rv = self@.rules[i as int];
                    assert(texts_of(texts@) =~= texts_of(prev).push(rv.text));
                    assert(kept.push(rv).map_values(text_at()) =~= kept.map_values(text_at()).push(rv.text));
                }
            }
            i += 1;
        }
        assert(self@.rules.take(n as int) =~= self@.rules);
        let out = sort_dedup(&texts);
        proof {
            lemma_ascending_no_duplicates(texts_of(out@));
        }
        out
    }

    /// Whether this very rule is held.
    pub fn mention_exists(
        &self,
        owner: u64,
        target: u64,
        source: Option<u64>,
        text: &str,
    ) -> (r: bool)
        ensures
            r == self@.has_rule(RuleView { source, target, text: text@, owner }),
    {
        let ghost rule = RuleView { source, target, text: text@, owner };
        let n: usize = self.rules.len();
        let mut i: usize = 0;
        while i < n
            invariant
                n == self.rules@.len(),
                i <= n,
                rule == (RuleView { source, target, text: text@, owner }),
                forall|k: int| 0 <= k < i ==> #[trigger] self@.rules[k] != rule,
            decreases n - i,
        {
            let r = &self.rules[i];
            let same_source = match (r.source, source) {
                (Some(a), Some(b)) => a == b,
                (None, None) => true,
                _ => false,
            };
            if r.owner == owner && r.target == target && same_source && str_eq(r.text.as_str(), text) {
                assert(self@.rules[i as int] == rule);
                return true;
            }
            i += 1;
        }
        false
    }

    /// Adds a mention rule of `owner` for `target`, for what comes from
    /// `source` or, without a source, for what comes from anywhere. A rule
    /// with and a rule without a source are different rules, also where they
    /// carry the same text.
    pub fn add_rule(
        &mut self,
        owner: u64,
        target: u64,
        source: Option<u64>,
        text: String,
    ) -> (r: Addition)
        requires
            old(self).wf(),
        ensures
            final(self).wf(),
            r == old(self)@.add_rule(RuleView { source, target, text: text@, owner }).0,
            final(self)@ == old(self)@.add_rule(RuleView { source, target, text: text@, owner }).1,
            final(self)@.has_rule(RuleView { source, target, text: text@, owner }),
    {
        if self.mention_exists(owner, target, source, text.as_str()) {
            return Addition::AlreadyExists;
        }
        let ghost rule = RuleView { source, target, text: text@, owner };
        self.rules.push(MentionRule { source, target, text, owner });
        proof {
            let before = old(self)@;
            let after = self@;
            assert(after.rules =~= before.rules.push(rule));
            assert(after.rules[after.rules.len() - 1] == rule);
            assert(after.guilds == before.guilds);
            assert(after.channels == before.channels);
            assert(after.connections == before.connections);
            assert(after.webhooks == before.webhooks);
            assert forall|i: int, j: int| 0 <= i < j < after.rules.len() implies #[trigger] after.rules[i]
                != #[trigger] after.rules[j] by {
                if j < before.rules.len() {
                    assert(before.rules[i] != before.rules[j]);
                } else {
                    assert(before.rules[i] != rule);
                }
            }
            assert(after == before.with_rules(before.rules.push(rule)));
        }
        Addition::Added
    }

    /// Removes every rule of `owner` whose target, or whose source if it has
    /// one, lies in a guild of this name, and says how many there were.
    pub fn wipe_rules_touching(&mut self, guild_name: &str, owner: u64) -> (count: usize)
        requires
            old(self).wf(),
        ensures
            final(self).wf(),
            final(self)@ == old(self)@.with_rules(
                old(self)@.rules.filter(old(self)@.rules_untouched_by(guild_name@, owner)),
            ),
            count == old(self)@.rules.len() - final(self)@.rules.len(),
    {
        let ghost keep = self@.rules_untouched_by(guild_name@, owner);
        let n: usize = self.rules.len();
        let mut kept: Vec<MentionRule> = Vec::new();
        let mut i: usize = 0;
        proof {
            reveal(Seq::filter);
            assert(rule_views(kept@) =~= self@.rules.take(0).filter(keep));
        }
        while i < n
            invariant
                n == self.rules@.len(),
                i <= n,
                self.wf(),
                keep == self@.rules_untouched_by(guild_name@, owner),
                rule_views(kept@) == self@.rules.take(i as int).filter(keep),
            decreases n - i,
        {
            proof {
                lemma_filter_take_next(self@.rules, keep, i as int);
            }
            let r = &self.rules[i];
            let touched = r.owner == owner && (self.in_guild_named(r.target, guild_name) || match r.source {
                Some(s) => self.in_guild_named(s, guild_name),
                None => false,
            });
            if !touched {
                let ghost prev = rule_views(kept@);
                let c = copy_rule(r);
                kept.push(c);
                assert(rule_views(kept@) =~= prev.push(self@.rules[i as int]));
            }
            i += 1;
        }
        proof {
            assert(self@.rules.take(n as int) =~= self@.rules);
            self@.rules.lemma_filter_len(keep);
        }
        let count: usize = n - kept.len();
        self.rules = kept;
        proof {
            old(self)@.lemma_fewer_rules_wf(keep);
            assert(self@ == old(self)@.with_rules(old(self)@.rules.filter(keep)));
        }
        count
    }

    /// The rules of `owner` whose target lies in a guild of this name, in
    /// retrieval order.
    pub fn list_mentions(&self, owner: u64, target_server: &str) -> (out: Vec<MentionRule>)
        requires
            self.wf(),
        ensures
            rule_views(out@) == self@.rules.filter(self@.rules_into(target_server@, owner)),
    {
        let ghost p = self@.rules_into(target_server@, owner);
        let n: usize = self.rules.len();
        let mut out: Vec<MentionRule> = Vec::new();
        let mut i: usize = 0;
        proof {
            reveal(Seq::filter);
            assert(rule_views(out@) =~= self@.rules.take(0).filter(p));
        }
        while i < n
            invariant
                n == self.rules@.len(),
                i <= n,
                self.wf(),
                p == self@.rules_into(target_server@, owner),
                rule_views(out@) == self@.rules.take(i as int).filter(p),
            decreases n - i,
        {
            proof {
                lemma_filter_take_next(self@.rules, p, i as int);
            }
            let r = &self.rules[i];
            if r.owner == owner && self.in_guild_named(r.target, target_server) {
                let ghost prev = rule_views(out@);
                out.push(copy_rule(r));
                assert(rule_views(out@) =~= prev.push(self@.rules[i as int]));
            }
            i += 1;
        }
        assert(self@.rules.take(n as int) =~= self@.rules);
        out
    }
}

} // verus!
