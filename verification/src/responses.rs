//! The answers to commands, in words.

use vstd::prelude::*;
use crate::listing::ConnectionGroup;
use crate::listing::ConnectionLine;
use crate::listing::group_views;
use crate::listing::GroupView;
use crate::listing::line_views;
use crate::listing::LineView;
use crate::model::MentionRule;
use crate::model::rule_views;
use crate::model::RuleView;
use crate::text::all_digits;
use crate::text::decimal_value;
use crate::text::is_digit;
use crate::text::join;
use crate::text::joined;
use crate::text::parsed_id;
use crate::text::texts_of;
use crate::text::without_plus;

verus! {

/// The character of a digit.
pub open spec fn digit_char(d: nat) -> char {
    if d == 0 {
        '0'
    } else if d == 1 {
        '1'
    } else if d == 2 {
        '2'
    } else if d == 3 {
        '3'
    } else if d == 4 {
        '4'
    } else if d == 5 {
        '5'
    } else if d == 6 {
        '6'
    } else if d == 7 {
        '7'
    } else if d == 8 {
        '8'
    } else {
        '9'
    }
}

/// A number written in decimal digits, without leading zeros.
pub open spec fn decimal_text(n: nat) -> Seq<char>
    decreases n,
{
    if n < 10 {
        seq![digit_char(n)]
    } else {
        decimal_text(n / 10).push(digit_char(n % 10))
    }
}

/// A number that is written and read again is the same number.
pub proof fn lemma_decimal_round_trip(n: u64)
    ensures
        parsed_id(decimal_text(n as nat)) == Some(n),
{
    lemma_decimal_text_reads_back(n as nat);
    let s = decimal_text(n as nat);
    assert(is_digit(s[0]));
    assert(without_plus(s) == s);
}

/// Written digits are digits, at least one, and write the number.
pub proof fn lemma_decimal_text_reads_back(n: nat)
    ensures
        decimal_text(n).len() > 0,
        all_digits(decimal_text(n)),
        decimal_value(decimal_text(n)) == n,
    decreases n,
{
    let s = decimal_text(n);
    if n < 10 {
        assert(s.drop_last() =~= Seq::<char>::empty());
        assert(decimal_value(s.drop_last()) == 0);
        assert(s.last() == digit_char(n));
    } else {
        lemma_decimal_text_reads_back(n / 10);
        let head = decimal_text(n / 10);
        assert(s.drop_last() =~= head);
        assert(s.last() == digit_char(n % 10));
        assert forall|i: int| 0 <= i < s.len() implies is_digit(#[trigger] s[i]) by {
            if i < head.len() {
                assert(s[i] == head[i]);
            }
        }
    }
}

/// The text of a digit.
fn digit_text(d: u64) -> (r: &'static str)
    requires
        d < 10,
    ensures
        r@ == seq![digit_char(d as nat)],
{
    proof {
        reveal_strlit("0");
        reveal_strlit("1");
        reveal_strlit("2");
        reveal_strlit("3");
        reveal_strlit("4");
        reveal_strlit("5");
        reveal_strlit("6");
        reveal_strlit("7");
        reveal_strlit("8");
        reveal_strlit("9");
    }
    let r = if d == 0 {
        "0"
    } else if d == 1 {
        "1"
    } else if d == 2 {
        "2"
    } else if d == 3 {
        "3"
    } else if d == 4 {
        "4"
    } else if d == 5 {
        "5"
    } else if d == 6 {
        "6"
    } else if d == 7 {
        "7"
    } else if d == 8 {
        "8"
    } else {
        "9"
    };
    assert(r@ =~= seq![digit_char(d as nat)]);
    r
}

/// Writes a number in decimal digits.
pub fn decimal(n: u64) -> (r: String)
    ensures
        r@ == decimal_text(n as nat),
    decreases n,
{
    if n < 10 {
        String::from_str(digit_text(n))
    } else {
        let mut r = decimal(n / 10);
        r.append(digit_text(n % 10));
        assert(r@ =~= decimal_text(n as nat / 10).push(digit_char(n as nat % 10)));
        r
    }
}

/// An answer to a command: a title and a message.
#[derive(Clone, Debug, PartialEq, Eq)]
pub struct CommandResponse {
    pub title: String,
    pub msg: String,
}

/// An answer as contracts see it.
pub struct ResponseView {
    pub title: Seq<char>,
    pub msg: Seq<char>,
}

impl View for CommandResponse {
    type V = ResponseView;

    open spec fn view(&self) -> ResponseView {
        ResponseView { title: self.title@, msg: self.msg@ }
    }
}

/// A channel as it is mentioned in a message.
pub open spec fn channel_mention(id: u64) -> Seq<char> {
    "<#"@ + decimal_text(id as nat) + ">"@
}

/// Mentions a channel in a message.
pub fn mention_channel(id: u64) -> (r: String)
    ensures
        r@ == channel_mention(id),
{
    let mut r = String::from_str("<#");
    r.append(decimal(id).as_str());
    r.append(">");
    r
}

/// The answer to a connection that was created.
pub open spec fn connected_view(
    source: u64,
    target_server: Seq<char>,
    target: u64,
) -> ResponseView {
    ResponseView {
        title: "Connection created"@,
        msg: "Source: "@ + channel_mention(source) + "\nTarget server: __**"@ + target_server
            + "**__\nTarget channel: "@ + channel_mention(target),
    }
}

/// The answer to a connection that was created.
pub fn connected(source: u64, target_server: &str, target: u64) -> (r: CommandResponse)
    ensures
        r@ == connected_view(source, target_server@, target),
{
    let mut msg = String::from_str("Source: ");
    msg.append(mention_channel(source).as_str());
    msg.append("\nTarget server: __**");
    msg.append(target_server);
    msg.append("**__\nTarget channel: ");
    msg.append(mention_channel(target).as_str());
    CommandResponse { title: String::from_str("Connection created"), msg }
}

/// The answer to a connection that was removed.
pub open spec fn disconnected_view(
    source: u64,
    target_server: Seq<char>,
    target: u64,
) -> ResponseView {
    ResponseView {
        title: "Disconnected"@,
        msg: "Source: "@ + channel_mention(source) + "\nServer: "@ + target_server + "\nTarget: "@
            + channel_mention(target),
    }
}

/// The answer to a connection that was removed.
pub fn disconnected(source: u64, target_server: &str, target: u64) -> (r: CommandResponse)
    ensures
        r@ == disconnected_view(source, target_server@, target),
{
    let mut msg = String::from_str("Source: ");
    msg.append(mention_channel(source).as_str());
    msg.append("\nServer: ");
    msg.append(target_server);
    msg.append("\nTarget: ");
    msg.append(mention_channel(target).as_str());
    CommandResponse { title: String::from_str("Disconnected"), msg }
}

/// The answer to all connections of a source having been removed.
pub open spec fn disconnected_all_view(source: u64) -> ResponseView {
    ResponseView { title: "Disconnected All"@, msg: "Source: "@ + channel_mention(source) }
}

/// The answer to all connections of a source having been removed.
pub fn disconnected_all(source: u64) -> (r: CommandResponse)
    ensures
        r@ == disconnected_all_view(source),
{
    let mut msg = String::from_str("Source: ");
    msg.append(mention_channel(source).as_str());
    CommandResponse { title: String::from_str("Disconnected All"), msg }
}

/// The answer to the connections of a guild having been wiped.
pub open spec fn wiped_connections_view(server: Seq<char>) -> ResponseView {
    ResponseView {
        title: "Wiped Connections"@,
        msg: "Removed all connections to/from: __**"@ + server + "**__"@,
    }
}

/// The answer to the connections of a guild having been wiped.
pub fn wiped_connections(server: &str) -> (r: CommandResponse)
    ensures
        r@ == wiped_connections_view(server@),
{
    let mut msg = String::from_str("Removed all connections to/from: __**");
    msg.append(server);
    msg.append("**__");
    CommandResponse { title: String::from_str("Wiped Connections"), msg }
}

/// The answer to the mentions of a guild having been wiped.
pub open spec fn wiped_mentions_view(server: Seq<char>) -> ResponseView {
    ResponseView {
        title: "Wiped Mentions"@,
        msg: "Removed all mentions to/from: __**"@ + server + "**__"@,
    }
}

/// The answer to the mentions of a guild having been wiped.
pub fn wiped_mentions(server: &str) -> (r: CommandResponse)
    ensures
        r@ == wiped_mentions_view(server@),
{
    let mut msg = String::from_str("Removed all mentions to/from: __**");
    msg.append(server);
    msg.append("**__");
    CommandResponse { title: String::from_str("Wiped Mentions"), msg }
}

/// The words after the mentions that were added, if they were added for one source.
pub open spec fn from_source_text(source: Option<u64>) -> Seq<char> {
    match source {
        Some(source) => "\nSource channel: "@ + channel_mention(source),
        None => Seq::empty(),
    }
}

/// The answer to mentions that were added.
pub open spec fn mentions_added_view(
    mentions: Seq<Seq<char>>,
    target_server: Seq<char>,
    target: u64,
    source: Option<u64>,
) -> ResponseView {
    ResponseView {
        title: "Added Mentions"@,
        msg: "Mentions:\n"@ + joined(mentions, "\n"@) + "\n\nTarget server: __**"@ + target_server
            + "**__\nTarget channel "@ + channel_mention(target) + from_source_text(source),
    }
}

/// The answer to mentions that were added.
pub fn mentions_added(
    mentions: &Vec<String>,
    target_server: &str,
    target: u64,
    source: Option<u64>,
) -> (r: CommandResponse)
    ensures
        r@ == mentions_added_view(texts_of(mentions@), target_server@, target, source),
{
    let mut msg = String::from_str("Mentions:\n");
    msg.append(join(mentions, "\n").as_str());
    msg.append("\n\nTarget server: __**");
    msg.append(target_server);
    msg.append("**__\nTarget channel ");
    msg.append(mention_channel(target).as_str());
    match source {
        Some(source) => {
            let mut from = String::from_str("\nSource channel: ");
            from.append(mention_channel(source).as_str());
            msg.append(from.as_str());
        },
        None => {
            assert(msg@ + Seq::<char>::empty() =~= msg@);
        },
    }
    CommandResponse { title: String::from_str("Added Mentions"), msg }
}

/// A connection as a listing shows it.
pub open spec fn line_text() -> spec_fn(LineView) -> Seq<char> {
    |l: LineView|
        "> "@ + channel_mention(l.source) + " => "@ + channel_mention(l.target) + " **("@
            + l.target_guild + ")**"@
}

/// A group of connections as a listing shows it: the guild, then a line for each connection.
pub open spec fn group_text() -> spec_fn(GroupView) -> Seq<char> {
    |g: GroupView| "__**"@ + g.guild + "**__\n"@ + joined(g.lines.map_values(line_text()), "\n"@)
}

/// The answer to a request for the connections.
pub open spec fn connection_list_view(groups: Seq<GroupView>) -> ResponseView {
    ResponseView {
        title: "Connection List"@,
        msg: joined(groups.map_values(group_text()), "\n\n"@),
    }
}

/// Shows a connection as a listing does.
pub fn describe_line(line: &ConnectionLine) -> (r: String)
    ensures
        r@ == line_text()(line@),
{
    let mut r = String::from_str("> ");
    r.append(mention_channel(line.source).as_str());
    r.append(" => ");
    r.append(mention_channel(line.target).as_str());
    r.append(" **(");
    r.append(line.target_guild.as_str());
    r.append(")**");
    r
}

/// Shows a group of connections as a listing does.
pub fn describe_group(group: &ConnectionGroup) -> (r: String)
    ensures
        r@ == group_text()(group@),
{
    let n: usize = group.lines.len();
    let mut lines: Vec<String> = Vec::new();
    let mut i: usize = 0;
    while i < n
        invariant
            n == group.lines@.len(),
            i <= n,
            texts_of(lines@) =~= line_views(group.lines@).take(i as int).map_values(line_text()),
        decreases n - i,
    {
        let ghost prev = texts_of(lines@);
        lines.push(describe_line(&group.lines[i]));
        proof {
            let all = line_views(group.lines@);
            assert(all.take(i + 1) =~= all.take(i as int).push(all[i as int]));
            assert(texts_of(lines@) =~= prev.push(line_text()(all[i as int])));
        }
        i += 1;
    }
    assert(line_views(group.lines@).take(n as int) =~= line_views(group.lines@));
    let mut r = String::from_str("__**");
    r.append(group.guild.as_str());
    r.append("**__\n");
    r.append(join(&lines, "\n").as_str());
    r
}

/// The answer to a request for the connections.
pub fn connection_list(groups: &Vec<ConnectionGroup>) -> (r: CommandResponse)
    ensures
        r@ == connection_list_view(group_views(groups@)),
{
    let n: usize = groups.len();
    let mut texts: Vec<String> = Vec::new();
    let mut i: usize = 0;
    while i < n
        invariant
            n == groups@.len(),
            i <= n,
            texts_of(texts@) =~= group_views(groups@).take(i as int).map_values(group_text()),
        decreases n - i,
    {
        let ghost prev = texts_of(texts@);
        texts.push(describe_group(&groups[i]));
        proof {
            let all = group_views(groups@);
            assert(all.take(i + 1) =~= all.take(i as int).push(all[i as int]));
            assert(texts_of(texts@) =~= prev.push(group_text()(all[i as int])));
        }
        i += 1;
    }
    assert(group_views(groups@).take(n as int) =~= group_views(groups@));
    CommandResponse { title: String::from_str("Connection List"), msg: join(&texts, "\n\n") }
}

/// A mention rule as a listing shows it.
pub open spec fn rule_text() -> spec_fn(RuleView) -> Seq<char> {
    |r: RuleView|
        match r.source {
            Some(source) => channel_mention(source) + " => "@ + channel_mention(r.target) + "\n> "@
                + r.text,
            None => "(**ALL**) => "@ + channel_mention(r.target) + "\n> "@ + r.text,
        }
}

/// The answer to a request for the mention rules into a guild.
pub open spec fn mention_list_view(target_server: Seq<char>, rules: Seq<RuleView>) -> ResponseView {
    ResponseView {
        title: "Mention List for \""@ + target_server + "\""@,
        msg: joined(rules.map_values(rule_text()), "\n"@),
    }
}

/// Shows a mention rule as a listing does.
pub fn describe_rule(rule: &MentionRule) -> (r: String)
    ensures
        r@ == rule_text()(rule@),
{
    let mut r = match rule.source {
        Some(source) => {
            let mut r = mention_channel(source);
            r.append(" => ");
            r
        },
        None => String::from_str("(**ALL**) => "),
    };
    r.append(mention_channel(rule.target).as_str());
    r.append("\n> ");
    r.append(rule.text.as_str());
    r
}

/// The answer to a request for the mention rules into a guild.
pub fn mention_list(target_server: &str, rules: &Vec<MentionRule>) -> (r: CommandResponse)
    ensures
        r@ == mention_list_view(target_server@, rule_views(rules@)),
{
    let n: usize = rules.len();
    let mut texts: Vec<String> = Vec::new();
    let mut i: usize = 0;
    while i < n
        invariant
            n == rules@.len(),
            i <= n,
            texts_of(texts@) =~= rule_views(rules@).take(i as int).map_values(rule_text()),
        decreases n - i,
    {
        let ghost prev = texts_of(texts@);
        texts.push(describe_rule(&rules[i]));
        proof {
            let all = rule_views(rules@);
            assert(all.take(i + 1) =~= all.take(i as int).push(all[i as int]));
            assert(texts_of(texts@) =~= prev.push(rule_text()(all[i as int])));
        }
        i += 1;
    }
    assert(rule_views(rules@).take(n as int) =~= rule_views(rules@));
    let mut title = String::from_str("Mention List for \"");
    title.append(target_server);
    title.append("\"");
    CommandResponse { title, msg: join(&texts, "\n") }
}

} // verus!
