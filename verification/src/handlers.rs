//! What the commands do to the registry, and the suggestions that are made
//! while a command is typed.

use vstd::prelude::*;
use crate::commands::Command;
use crate::commands::CommandOption;
use crate::commands::CommandView;
use crate::commands::decode_autocomplete;
use crate::commands::decoded_suggest;
use crate::commands::option_views;
use crate::commands::OptionView;
use crate::commands::Suggest;
use crate::commands::SuggestView;
use crate::connections::Creation;
use crate::connections::not_from_source;
use crate::connections::other_than;
use crate::directory::channel_name_at;
use crate::directory::guild_name_at;
use crate::directory::in_guild;
use crate::error::RelayError;
use crate::labels::pair_view;
use crate::labels::parse_target_label;
use crate::labels::parsed_label;
use crate::listing::group_views;
use crate::listing::GroupView;
use crate::matcher::query_fits;
use crate::matcher::QUERY_LIMIT;
use crate::matcher::rank;
use crate::matcher::ranking;
use crate::matcher::ranking_view;
use crate::mentions::Addition;
use crate::model::Registry;
use crate::model::RegistryView;
use crate::model::RuleView;
use crate::responses::CommandResponse;
use crate::responses::connected;
use crate::responses::connected_view;
use crate::responses::connection_list;
use crate::responses::connection_list_view;
use crate::responses::disconnected;
use crate::responses::disconnected_all;
use crate::responses::disconnected_all_view;
use crate::responses::disconnected_view;
use crate::responses::mention_list;
use crate::responses::mention_list_view;
use crate::responses::mentions_added;
use crate::responses::mentions_added_view;
use crate::responses::ResponseView;
use crate::responses::wiped_connections;
use crate::responses::wiped_connections_view;
use crate::responses::wiped_mentions;
use crate::responses::wiped_mentions_view;
use crate::text::pieces;
use crate::text::split;
use crate::text::texts_of;
use crate::text::trim;
use crate::text::trimmed;
use crate::webhooks::WebhookStep;

verus! {

impl RegistryView {
    /// The guild names closest to `fragment`.
    pub open spec fn server_suggestions(
        self,
        fragment: Seq<char>,
    ) -> Result<Seq<Seq<char>>, RelayError> {
        ranking(fragment, self.guilds.map_values(guild_name_at()))
    }

    /// The names of the channels of the guilds named `server` closest to
    /// `fragment`; without a server name there is nothing to suggest.
    pub open spec fn channel_suggestions(
        self,
        server: Seq<char>,
        fragment: Seq<char>,
    ) -> Result<Seq<Seq<char>>, RelayError> {
        if trimmed(server).len() == 0 {
            Err(RelayError::NoCandidates)
        } else {
            ranking(fragment, self.channels.filter(in_guild(self, server)).map_values(channel_name_at()))
        }
    }

    /// The labels of the targets that `owner` has connected `source` to,
    /// closest to `fragment`.
    pub open spec fn target_suggestions(
        self,
        source: u64,
        owner: u64,
        fragment: Seq<char>,
    ) -> Result<Seq<Seq<char>>, RelayError> {
        ranking(fragment, self.target_labels(source, owner))
    }

    /// The suggestions for a request of `owner`.
    pub open spec fn suggestions(
        self,
        request: SuggestView,
        owner: u64,
    ) -> Result<Seq<Seq<char>>, RelayError> {
        match request {
            SuggestView::Servers { fragment } => self.server_suggestions(fragment),
            SuggestView::Channels { server, fragment } => self.channel_suggestions(server, fragment),
            SuggestView::Targets { source, fragment } => self.target_suggestions(source, owner, fragment),
        }
    }

    /// The suggestions to show while the command of this name is typed:
    /// nothing where the options ask for none, where the fragment is too long
    /// to rank against, or where there is nothing to suggest.
    pub open spec fn shown(
        self,
        name: Seq<char>,
        options: Seq<OptionView>,
        owner: u64,
    ) -> Seq<Seq<char>> {
        match decoded_suggest(name, options) {
            Ok(request) => if request.fragment().len() <= QUERY_LIMIT {
                match self.suggestions(request, owner) {
                    Ok(names) => names,
                    Err(_) => Seq::empty(),
                }
            } else {
                Seq::empty()
            },
            Err(_) => Seq::empty(),
        }
    }

    /// What the command `connect` returns and leaves behind: the id of the
    /// target that was connected.
    pub open spec fn connect(
        self,
        owner: u64,
        source: u64,
        target_server: Seq<char>,
        target_channel: Seq<char>,
        issued: Option<u64>,
    ) -> (Result<u64, RelayError>, RegistryView) {
        match self.name_to_ids(target_server, target_channel) {
            Ok((_, target)) => match self.create_connection(source, target, owner, issued) {
                (Ok(Creation::Created), after) => (Ok(target), after),
                (Ok(Creation::AlreadyExists), after) => (Err(RelayError::AlreadyExists), after),
                (Err(e), after) => (Err(e), after),
            },
            Err(e) => (Err(e), self),
        }
    }

    /// What the command `disconnect` returns and leaves behind, given the
    /// guild and the channel that its label names: the id of the target that
    /// was disconnected.
    pub open spec fn disconnect(
        self,
        owner: u64,
        source: u64,
        label: Option<(Seq<char>, Seq<char>)>,
    ) -> (
        Result<u64, RelayError>,
        RegistryView,
    ) {
        match label {
            Some((target_server, target_channel)) => match self.name_to_ids(target_server, target_channel) {
                Ok((_, target)) => if self.has_connection(source, target, owner) {
                    (Ok(target), self.with_connections(self.connections.filter(other_than(source, target, owner))))
                } else {
                    (Err(RelayError::NotFound), self)
                },
                Err(e) => (Err(e), self),
            },
            None => (Err(RelayError::NotFound), self),
        }
    }

    /// What adding a rule for each text in turn returns and leaves behind.
    pub open spec fn add_rules(
        self,
        owner: u64,
        target: u64,
        source: Option<u64>,
        texts: Seq<Seq<char>>,
    ) -> (
        Seq<Addition>,
        RegistryView,
    )
        decreases texts.len(),
    {
        if texts.len() == 0 {
            (Seq::empty(), self)
        } else {
            let (outcomes, before) = self.add_rules(owner, target, source, texts.drop_last());
            let (outcome, after) = before.add_rule(RuleView { source, target, text: texts.last(), owner });
            (outcomes.push(outcome), after)
        }
    }

    /// What the command `mention-add` returns and leaves behind: the id of
    /// the target, and for each of the mentions, which are separated by single
    /// spaces, whether it was added.
    pub open spec fn mention_add(
        self,
        owner: u64,
        target_server: Seq<char>,
        target_channel: Seq<char>,
        mentions: Seq<char>,
        source: Option<u64>,
    ) -> (Result<(u64, Seq<Addition>), RelayError>, RegistryView) {
        match self.name_to_ids(target_server, target_channel) {
            Ok((_, target)) => {
                let (outcomes, after) = self.add_rules(owner, target, source, pieces(mentions, ' '));
                (Ok((target, outcomes)), after)
            },
            Err(e) => (Err(e), self),
        }
    }
}

/// An answer or a failure as contracts see it.
pub open spec fn answer_view(
    r: Result<CommandResponse, RelayError>,
) -> Result<ResponseView, RelayError> {
    match r {
        Ok(response) => Ok(response@),
        Err(e) => Err(e),
    }
}

/// The answer to a command that names what it acted on by an id.
pub open spec fn answer_with(
    r: Result<u64, RelayError>,
    answer: spec_fn(u64) -> ResponseView,
) -> Result<ResponseView, RelayError> {
    match r {
        Ok(target) => Ok(answer(target)),
        Err(e) => Err(e),
    }
}

/// The name of the guild in a label that was taken apart.
pub open spec fn server_of(label: Option<(Seq<char>, Seq<char>)>) -> Seq<char> {
    match label {
        Some((server, _)) => server,
        None => Seq::empty(),
    }
}

/// Whether carrying out `command` for `user` on the tables `before` gives
/// `answer` and leaves the tables `after`. `issued` is what the chat platform
/// answered where it was asked for a delivery handle.
pub open spec fn is_execution(
    before: RegistryView,
    command: CommandView,
    user: u64,
    issued: Option<u64>,
    answer: Result<ResponseView, RelayError>,
    after: RegistryView,
) -> bool {
    match command {
        CommandView::Connect { source, target_server, target_channel } => {
            let (r, left) = before.connect(user, source, target_server, target_channel, issued);
            after == left && answer == answer_with(r, |target: u64| connected_view(source, target_server, target))
        },
        CommandView::Disconnect { source, target_label } => {
            let label = parsed_label(target_label);
            let (r, left) = before.disconnect(user, source, label);
            after == left && answer == answer_with(r, |target: u64| disconnected_view(source, server_of(label), target))
        },
        CommandView::DisconnectAll { source } => {
            after == before.with_connections(before.connections.filter(not_from_source(source, user)))
                && answer == Ok::<ResponseView, RelayError>(disconnected_all_view(source))
        },
        CommandView::ListConnections => {
            after == before && exists|groups: Seq<GroupView>|
                before.is_listing(user, groups) && answer == Ok::<ResponseView, RelayError>(
                    #[trigger] connection_list_view(groups),
                )
        },
        CommandView::WipeConnections { server } => {
            after == before.with_connections(before.connections.filter(before.untouched_by(server, user)))
                && answer == Ok::<ResponseView, RelayError>(wiped_connections_view(server))
        },
        CommandView::WipeMentions { server } => {
            after == before.with_rules(before.rules.filter(before.rules_untouched_by(server, user)))
                && answer == Ok::<ResponseView, RelayError>(wiped_mentions_view(server))
        },
        CommandView::MentionAdd { target_server, target_channel, mentions, source } => {
            let (r, left) = before.mention_add(user, target_server, target_channel, mentions, source);
            after == left && answer == (match r {
                Ok((target, _)) => Ok(mentions_added_view(pieces(mentions, ' '), target_server, target, source)),
                Err(e) => Err(e),
            })
        },
        CommandView::ListMentions { target_server } => {
            after == before && answer == Ok::<ResponseView, RelayError>(
                mention_list_view(target_server, before.rules.filter(before.rules_into(target_server, user))),
            )
        },
    }
}

/// What a command needs of the chat platform before it is carried out: a
/// delivery handle, where the command connects to a target that `user` has
/// no handle for yet.
pub open spec fn handle_needed(reg: RegistryView, command: CommandView, user: u64) -> Option<u64> {
    match command {
        CommandView::Connect { source, target_server, target_channel } => match reg.name_to_ids(target_server, target_channel) {
            Ok((_, target)) => if reg.webhook_of(user, target) is None {
                Some(target)
            } else {
                None
            },
            Err(_) => None,
        },
        _ => None,
    }
}

/// What a command that adds mentions returned, as contracts see it.
pub open spec fn added_view(
    r: Result<(u64, Vec<Addition>), RelayError>,
) -> Result<(u64, Seq<Addition>), RelayError> {
    match r {
        Ok((target, outcomes)) => Ok((target, outcomes@)),
        Err(e) => Err(e),
    }
}

impl Registry {
    /// Guild names close to what was typed.
    pub fn connect_target_server_autocomplete(
        &self,
        server_name: &str,
    ) -> (r: Result<Vec<String>, RelayError>)
        requires
            server_name@.len() <= QUERY_LIMIT,
        ensures
            ranking_view(r) == self@.server_suggestions(server_name@),
    {
        let servers = self.get_guild_names();
        rank(server_name, &servers)
    }

    /// Names of the channels of the guild `server_name` close to what was typed.
    pub fn connect_target_channel_autocomplete(
        &self,
        server_name: &str,
        channel_name: &str,
    ) -> (r: Result<Vec<String>, RelayError>)
        requires
            self.wf(),
            channel_name@.len() <= QUERY_LIMIT,
        ensures
            ranking_view(r) == self@.channel_suggestions(server_name@, channel_name@),
    {
        if trim(server_name).as_str().unicode_len() == 0 {
            return Err(RelayError::NoCandidates);
        }
        let channels = self.get_channel_names(server_name);
        rank(channel_name, &channels)
    }

    /// Labels of the targets that `owner` has connected `source` to, close to
    /// what was typed.
    pub fn disconnect_target_channel_autocomplete(
        &self,
        source: u64,
        owner: u64,
        target_channel: &str,
    ) -> (r: Result<Vec<String>, RelayError>)
        requires
            self.wf(),
            target_channel@.len() <= QUERY_LIMIT,
        ensures
            ranking_view(r) == self@.target_suggestions(source, owner, target_channel@),
    {
        let labels = self.target_labels(source, owner);
        rank(target_channel, &labels)
    }

    /// The suggestions for a request of `owner`.
    pub fn suggest(&self, request: &Suggest, owner: u64) -> (r: Result<Vec<String>, RelayError>)
        requires
            self.wf(),
            request@.fragment().len() <= QUERY_LIMIT,
        ensures
            ranking_view(r) == self@.suggestions(request@, owner),
    {
        match request {
            Suggest::Servers { fragment } => self.connect_target_server_autocomplete(fragment.as_str()),
            Suggest::Channels { server, fragment } => self.connect_target_channel_autocomplete(server.as_str(), fragment.as_str()),
            Suggest::Targets { source, fragment } => self.disconnect_target_channel_autocomplete(*source, owner, fragment.as_str()),
        }
    }

    /// The suggestions to show while `owner` types the command of this name.
    /// Whatever goes wrong, nothing is shown.
    pub fn handle_autocomplete(
        &self,
        name: &str,
        options: &Vec<CommandOption>,
        owner: u64,
    ) -> (out: Vec<String>)
        requires
            self.wf(),
        ensures
            texts_of(out@) == self@.shown(name@, option_views(options@), owner),
    {
        let request = match decode_autocomplete(name, options) {
            Ok(request) => request,
            Err(_) => {
                return Vec::new();
            },
        };
        let fits = match &request {
            Suggest::Servers { fragment } => query_fits(fragment.as_str()),
            Suggest::Channels { server, fragment } => query_fits(fragment.as_str()),
            Suggest::Targets { source, fragment } => query_fits(fragment.as_str()),
        };
        if !fits {
            return Vec::new();
        }
        match self.suggest(&request, owner) {
            Ok(names) => names,
            Err(_) => Vec::new(),
        }
    }

    /// Connects `source` to the channel `target_channel` of the guild
    /// `target_server` for `owner`, and returns the id of that channel. Fails
    /// with `NotFound` if there is no such channel or the source is unknown,
    /// and with `AlreadyExists` if the connection exists.
    pub fn handle_connect_command(
        &mut self,
        owner: u64,
        source: u64,
        target_server: &str,
        target_channel: &str,
        issued: Option<u64>,
    ) -> (r: Result<u64, RelayError>)
        requires
            old(self).wf(),
        ensures
            final(self).wf(),
            r == old(self)@.connect(owner, source, target_server@, target_channel@, issued).0,
            final(self)@ == old(self)@.connect(owner, source, target_server@, target_channel@, issued).1,
    {
        let target = match self.name_to_ids(target_server, target_channel) {
            Ok((_, target)) => target,
            Err(e) => {
                return Err(e);
            },
        };
        match self.create_connection(source, target, owner, issued) {
            Ok(Creation::Created) => Ok(target),
            Ok(Creation::AlreadyExists) => Err(RelayError::AlreadyExists),
            Err(e) => Err(e),
        }
    }

    /// Disconnects `source` from the target that `label` names, for `owner`,
    /// and returns the id of that target. Fails with `NotFound` if the label
    /// names no channel or no connection to it exists.
    pub fn handle_disconnect_command(
        &mut self,
        owner: u64,
        source: u64,
        label: &str,
    ) -> (r: Result<u64, RelayError>)
        requires
            old(self).wf(),
        ensures
            final(self).wf(),
            r == old(self)@.disconnect(owner, source, parsed_label(label@)).0,
            final(self)@ == old(self)@.disconnect(owner, source, parsed_label(label@)).1,
    {
        let parts = parse_target_label(label);
        self.disconnect_parsed(owner, source, parts)
    }

    /// Disconnects `source` from the channel of the guild that `label` holds
    /// the names of.
    pub fn disconnect_parsed(
        &mut self,
        owner: u64,
        source: u64,
        label: Option<(String, String)>,
    ) -> (r: Result<u64, RelayError>)
        requires
            old(self).wf(),
        ensures
            final(self).wf(),
            r == old(self)@.disconnect(owner, source, pair_view(label)).0,
            final(self)@ == old(self)@.disconnect(owner, source, pair_view(label)).1,
    {
        let (target_server, target_channel) = match label {
            Some(parts) => parts,
            None => {
                return Err(RelayError::NotFound);
            },
        };
        let target = match self.name_to_ids(target_server.as_str(), target_channel.as_str()) {
            Ok((_, target)) => target,
            Err(e) => {
                return Err(e);
            },
        };
        if !self.connection_exists(source, target, owner) {
            return Err(RelayError::NotFound);
        }
        let _ = self.delete_connection(source, target, owner);
        Ok(target)
    }

    /// Adds each of the mentions as a rule of `owner` for the target.
    pub fn add_rules(
        &mut self,
        owner: u64,
        target: u64,
        source: Option<u64>,
        texts: &Vec<String>,
    ) -> (outcomes: Vec<Addition>)
        requires
            old(self).wf(),
        ensures
            final(self).wf(),
            outcomes@ == old(self)@.add_rules(owner, target, source, texts_of(texts@)).0,
            final(self)@ == old(self)@.add_rules(owner, target, source, texts_of(texts@)).1,
    {
        let n: usize = texts.len();
        let mut outcomes: Vec<Addition> = Vec::new();
        let mut i: usize = 0;
        let ghost all = texts_of(texts@);
        assert(all.take(0) =~= Seq::<Seq<char>>::empty());
        while i < n
            invariant
                n == texts@.len(),
                i <= n,
                all == texts_of(texts@),
                self.wf(),
                outcomes@ == old(self)@.add_rules(owner, target, source, all.take(i as int)).0,
                self@ == old(self)@.add_rules(owner, target, source, all.take(i as int)).1,
            decreases n - i,
        {
            proof {
                assert(all.take(i + 1).drop_last() =~= all.take(i as int));
                assert(all.take(i + 1).last() == texts@[i as int]@);
            }
            let outcome = self.add_rule(owner, target, source, texts[i].clone());
            outcomes.push(outcome);
            i += 1;
        }
        assert(all.take(n as int) =~= all);
        outcomes
    }

    /// Adds the mentions, which are separated by single spaces, as rules of
    /// `owner` for the channel `target_channel` of the guild `target_server`,
    /// for what comes from `source` or from anywhere. Returns the id of the
    /// target and, for each mention, whether it was added. Fails with
    /// `NotFound` if there is no such channel.
    pub fn handle_mention_add_command(
        &mut self,
        owner: u64,
        target_server: &str,
        target_channel: &str,
        mentions: &str,
        source: Option<u64>,
    ) -> (r: Result<(u64, Vec<Addition>), RelayError>)
        requires
            old(self).wf(),
        ensures
            final(self).wf(),
            added_view(r) == old(self)@.mention_add(owner, target_server@, target_channel@, mentions@, source).0,
            final(self)@ == old(self)@.mention_add(owner, target_server@, target_channel@, mentions@, source).1,
    {
        let target = match self.name_to_ids(target_server, target_channel) {
            Ok((_, target)) => target,
            Err(e) => {
                return Err(e);
            },
        };
        let texts = split(mentions, ' ');
        let outcomes = self.add_rules(owner, target, source, &texts);
        Ok((target, outcomes))
    }

    /// Says what to ask of the chat platform before `command` is carried out
    /// for `user`: nothing, or to create a delivery handle on a channel, named
    /// after the user.
    pub fn webhook_request(
        &self,
        command: &Command,
        user: u64,
        user_name: &str,
    ) -> (r: Option<WebhookStep>)
        requires
            self.wf(),
        ensures
            match handle_needed(self@, command@, user) {
                Some(target) => r matches Some(WebhookStep::Create { channel, name }) && channel == target
                    && name@ == user_name@,
                None => r is None,
            },
    {
        match command {
            Command::Connect { source, target_server, target_channel } => {
                match self.name_to_ids(target_server.as_str(), target_channel.as_str()) {
                    Ok((_, target)) => match self.resolve_begin(user, user_name, target) {
                        WebhookStep::Ready(_) => None,
                        WebhookStep::Create { channel, name } => Some(WebhookStep::Create { channel, name }),
                    },
                    Err(_) => None,
                }
            },
            _ => None,
        }
    }

    /// Carries out a command of `user` and returns the answer to show.
    /// `issued` is what the chat platform answered where it was asked for a
    /// delivery handle. A command that fails changes nothing.
    pub fn handle_application_command(
        &mut self,
        command: &Command,
        user: u64,
        issued: Option<u64>,
    ) -> (r: Result<CommandResponse, RelayError>)
        requires
            old(self).wf(),
        ensures
            final(self).wf(),
            is_execution(old(self)@, command@, user, issued, answer_view(r), final(self)@),
    {
        match command {
            Command::Connect { source, target_server, target_channel } => {
                match self.handle_connect_command(user, *source, target_server.as_str(), target_channel.as_str(), issued) {
                    Ok(target) => Ok(connected(*source, target_server.as_str(), target)),
                    Err(e) => Err(e),
                }
            },
            Command::Disconnect { source, target_label } => {
                let label = parse_target_label(target_label.as_str());
                let server = match &label {
                    Some((server, _)) => server.clone(),
                    None => String::new(),
                };
                match self.disconnect_parsed(user, *source, label) {
                    Ok(target) => Ok(disconnected(*source, server.as_str(), target)),
                    Err(e) => Err(e),
                }
            },
            Command::DisconnectAll { source } => {
                let _ = self.delete_all_connections_from(*source, user);
                Ok(disconnected_all(*source))
            },
            Command::ListConnections => {
                let groups = self.list_connections(user);
                let response = connection_list(&groups);
                proof {
                    assert(self@.is_listing(user, group_views(groups@)));
                    assert(response@ == connection_list_view(group_views(groups@)));
                }
                Ok(response)
            },
            Command::WipeConnections { server } => {
                let _ = self.wipe_connections_touching(server.as_str(), user);
                Ok(wiped_connections(server.as_str()))
            },
            Command::WipeMentions { server } => {
                let _ = self.wipe_rules_touching(server.as_str(), user);
                Ok(wiped_mentions(server.as_str()))
            },
            Command::MentionAdd { target_server, target_channel, mentions, source } => {
                match self.handle_mention_add_command(user, target_server.as_str(), target_channel.as_str(), mentions.as_str(), *source) {
                    Ok((target, _)) => {
                        let texts = split(mentions.as_str(), ' ');
                        Ok(mentions_added(&texts, target_server.as_str(), target, *source))
                    },
                    Err(e) => Err(e),
                }
            },
            Command::ListMentions { target_server } => {
                let rules = self.list_mentions(user, target_server.as_str());
                Ok(mention_list(target_server.as_str(), &rules))
            },
        }
    }
}

} // verus!
