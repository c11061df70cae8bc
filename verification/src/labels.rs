//! The labels under which targets are offered and named: `[guild] channel`.
//! Also the line of the environment file that names the database.

use vstd::prelude::*;
use crate::connections::from_source;
use crate::model::Connection;
use crate::model::Registry;
use crate::model::RegistryView;
use crate::seqs::lemma_filter_take_next;
use crate::text::texts_of;
use crate::text::trim;
use crate::text::trimmed;

verus! {

/// `regex::Error`: why `regex` refused a pattern. Nothing is said of what it holds.
#[verifier::external_type_specification]
#[verifier::external_body]
pub struct ExRegexError(regex::Error);

/// Whether `regex::Regex::new` accepts a pattern.
pub uninterp spec fn regex_compiles(pattern: Seq<char>) -> bool;

/// What `regex::Regex::captures` finds of a pattern in a text: nothing, or
/// the text of each capture group of the leftmost match, the whole match
/// first, with `None` for a group that took no part.
pub uninterp spec fn regex_captures(pattern: Seq<char>, text: Seq<char>) -> Option<Seq<Option<Seq<char>>>>;

/// The capture groups of a label: the guild and the channel.
pub const LABEL_PATTERN: &'static str = "\\[(?P<server>.*)\\] (?P<channel>.*)";

/// The capture group of the line that names the database: the file.
pub const DATABASE_PATTERN: &'static str = "DATABASE_URL=sqlite:(?P<filename>.*)";

/// Capture groups as contracts see them.
pub open spec fn groups_view(groups: Seq<Option<String>>) -> Seq<Option<Seq<char>>> {
    groups.map_values(
        |g: Option<String>|
            match g {
                Some(s) => Some(s@),
                None => None,
            },
    )
}

/// What was found, as contracts see it.
pub open spec fn found_view(found: Option<Vec<Option<String>>>) -> Option<Seq<Option<Seq<char>>>> {
    match found {
        Some(groups) => Some(groups_view(groups@)),
        None => None,
    }
}

/// Compiles `pattern` with `regex::Regex::new` and searches `text` with
/// `Regex::captures`. Fails exactly where the crate refuses the pattern;
/// else the result is what the crate's search finds: `None` without a match,
/// or the text of every capture group of the match.
#[verifier::external_body]
fn captures(pattern: &str, text: &str) -> (r: Result<Option<Vec<Option<String>>>, regex::Error>)
    ensures
        r is Ok <==> regex_compiles(pattern@),
        r is Ok ==> found_view(r->Ok_0) == regex_captures(pattern@, text@),
{
    let re = regex::Regex::new(pattern)?;
    Ok(match re.captures(text) {
        Some(found) => Some(found.iter().map(|m| m.map(|m| m.as_str().to_owned())).collect()),
        None => None,
    })
}

/// The text of capture group `i` without the white space around it, if the
/// group took part in the match.
pub open spec fn group_text(groups: Seq<Option<Seq<char>>>, i: int) -> Option<Seq<char>> {
    if 0 <= i < groups.len() {
        match groups[i] {
            Some(s) => Some(trimmed(s)),
            None => None,
        }
    } else {
        None
    }
}

/// The guild and the channel that the capture groups of a label name.
pub open spec fn label_parts(groups: Seq<Option<Seq<char>>>) -> Option<(Seq<char>, Seq<char>)> {
    match (group_text(groups, 1), group_text(groups, 2)) {
        (Some(guild), Some(channel)) => Some((guild, channel)),
        _ => None,
    }
}

/// The guild and the channel that a label names, if it is a label.
pub open spec fn parsed_label(label: Seq<char>) -> Option<(Seq<char>, Seq<char>)> {
    if regex_compiles(LABEL_PATTERN@) {
        match regex_captures(LABEL_PATTERN@, label) {
            Some(groups) => label_parts(groups),
            None => None,
        }
    } else {
        None
    }
}

/// The file that the text of an environment file names as the database.
pub open spec fn parsed_database_file(content: Seq<char>) -> Option<Seq<char>> {
    if regex_compiles(DATABASE_PATTERN@) {
        match regex_captures(DATABASE_PATTERN@, content) {
            Some(groups) => group_text(groups, 1),
            None => None,
        }
    } else {
        None
    }
}

/// A pair of texts as contracts see it.
pub open spec fn pair_view(pair: Option<(String, String)>) -> Option<(Seq<char>, Seq<char>)> {
    match pair {
        Some((a, b)) => Some((a@, b@)),
        None => None,
    }
}

/// A text as contracts see it.
pub open spec fn text_view(text: Option<String>) -> Option<Seq<char>> {
    match text {
        Some(s) => Some(s@),
        None => None,
    }
}

/// The text of capture group `i` without the white space around it.
pub fn group_trimmed(groups: &Vec<Option<String>>, i: usize) -> (r: Option<String>)
    ensures
        text_view(r) == group_text(groups_view(groups@), i as int),
{
    if i < groups.len() {
        match &groups[i] {
            Some(s) => Some(trim(s.as_str())),
            None => None,
        }
    } else {
        None
    }
}

/// The guild and the channel that the capture groups of a label name.
pub fn label_from_groups(groups: &Vec<Option<String>>) -> (r: Option<(String, String)>)
    ensures
        pair_view(r) == label_parts(groups_view(groups@)),
{
    match group_trimmed(groups, 1) {
        Some(guild) => match group_trimmed(groups, 2) {
            Some(channel) => Some((guild, channel)),
            None => None,
        },
        None => None,
    }
}

/// Takes a label `[guild] channel` apart into the name of the guild and the
/// name of the channel, each without white space around it. A text that is
/// no label gives `None`.
pub fn parse_target_label(label: &str) -> (r: Option<(String, String)>)
    ensures
        pair_view(r) == parsed_label(label@),
{
    match captures(LABEL_PATTERN, label) {
        Ok(Some(groups)) => label_from_groups(&groups),
        Ok(None) => None,
        Err(_) => None,
    }
}

/// The file that the text of an environment file names as the database,
/// in a line `DATABASE_URL=sqlite:` and the file.
pub fn database_file(content: &str) -> (r: Option<String>)
    ensures
        text_view(r) == parsed_database_file(content@),
{
    match captures(DATABASE_PATTERN, content) {
        Ok(Some(groups)) => group_trimmed(&groups, 1),
        Ok(None) => None,
        Err(_) => None,
    }
}

/// The label of a channel in a guild.
pub open spec fn label_of(guild: Seq<char>, channel: Seq<char>) -> Seq<char> {
    seq!['['] + guild + seq![']', ' '] + channel
}

/// The label of a channel in a guild: `[guild] channel`.
pub fn target_label(guild: &str, channel: &str) -> (r: String)
    ensures
        r@ == label_of(guild@, channel@),
{
    let mut r = String::from_str("[");
    r.append(guild);
    r.append("] ");
    r.append(channel);
    proof {
        reveal_strlit("[");
        reveal_strlit("] ");
        assert("["@ =~= seq!['[']);
        assert("] "@ =~= seq![']', ' ']);
    }
    r
}

/// The label under which the target of a connection is offered.
pub open spec fn label_at(reg: RegistryView) -> spec_fn(Connection) -> Seq<char> {
    |c: Connection|
        label_of(
            match reg.guild_name_of(c.target) {
                Some(name) => name,
                None => Seq::empty(),
            },
            match reg.channel(c.target) {
                Some(channel) => channel.name,
                None => Seq::empty(),
            },
        )
}

impl RegistryView {
    /// The labels of the targets that `owner` has connected `source` to, in
    /// retrieval order.
    pub open spec fn target_labels(self, source: u64, owner: u64) -> Seq<Seq<char>> {
        self.connections.filter(from_source(source, owner)).map_values(label_at(self))
    }
}

impl Registry {
    /// The labels of the targets that `owner` has connected `source` to, in
    /// retrieval order.
    pub fn target_labels(&self, source: u64, owner: u64) -> (out: Vec<String>)
        requires
            self.wf(),
        ensures
            texts_of(out@) == self@.target_labels(source, owner),
    {
        let n: usize = self.connections.len();
        let mut out: Vec<String> = Vec::new();
        let mut i: usize = 0;
        let ghost p = from_source(source, owner);
        let ghost f = label_at(self@);
        proof {
            reveal(Seq::filter);
            assert(texts_of(out@) =~= self@.connections.take(0).filter(p).map_values(f));
        }
        while i < n
            invariant
                n == self.connections@.len(),
                i <= n,
                self.wf(),
                p == from_source(source, owner),
                f == label_at(self@),
                texts_of(out@) == self@.connections.take(i as int).filter(p).map_values(f),
            decreases n - i,
        {
            let c = self.connections[i];
            proof {
                lemma_filter_take_next(self@.connections, p, i as int);
            }
            if c.source == source && c.owner == owner {
                let guild = match self.guild_name_of(c.target) {
                    Some(name) => name,
                    None => String::new(),
                };
                let channel = match self.find_channel(c.target) {
                    Some(k) => {
                        proof {
                            self@.lemma_channel_at(k as int);
                        }
                        self.channels[k].name.clone()
                    },
                    None => String::new(),
                };
                let ghost prev = out@;
                let ghost kept = self@.connections.take(i as int).filter(p);
                out.push(target_label(guild.as_str(), channel.as_str()));
                proof {
                    assert(texts_of(out@) =~= texts_of(prev).push(f(c)));
                    assert(kept.push(c).map_values(f) =~= kept.map_values(f).push(f(c)));
                }
            }
            i += 1;
        }
        assert(self@.connections.take(n as int) =~= self@.connections);
        out
    }
}

} // verus!
