//! Turns an inbound message into deliveries, and keeps track of how the
//! deliveries of one message go.

use vstd::prelude::*;
use crate::connections::Route;
use crate::error::RelayError;
use crate::mentions::strictly_ascending;
use crate::model::Registry;
use crate::model::RegistryView;
use crate::text::join;
use crate::text::joined;
use crate::text::texts_of;

verus! {

/// A message that was posted in a channel.
#[derive(Clone, Debug, PartialEq, Eq)]
pub struct Inbound {
    pub channel: u64,
    pub author: u64,
    /// Whether the author is one of the platform's automated accounts.
    pub author_is_bot: bool,
    pub content: String,
}

/// One thing to send: `content` to `target` through `webhook`, with the
/// mention texts that the owner has put on top of this target.
#[derive(Clone, Debug, PartialEq, Eq)]
pub struct Delivery {
    pub target: u64,
    pub webhook: u64,
    pub content: String,
    pub mentions: Vec<String>,
}

/// A delivery as contracts see it.
pub struct DeliveryView {
    pub target: u64,
    pub webhook: u64,
    pub content: Seq<char>,
    pub mentions: Seq<Seq<char>>,
}

impl View for Delivery {
    type V = DeliveryView;

    open spec fn view(&self) -> DeliveryView {
        DeliveryView {
            target: self.target,
            webhook: self.webhook,
            content: self.content@,
            mentions: texts_of(self.mentions@),
        }
    }
}

/// The views of a vector of deliveries.
pub open spec fn delivery_views(v: Seq<Delivery>) -> Seq<DeliveryView> {
    v.map_values(|d: Delivery| d@)
}

impl Delivery {
    /// The mention texts as one text, a line each.
    pub fn overlay(&self) -> (r: String)
        ensures
            r@ == joined(texts_of(self.mentions@), seq!['\n']),
    {
        proof {
            reveal_strlit("\n");
            assert("\n"@ =~= seq!['\n']);
        }
        join(&self.mentions, "\n")
    }
}

impl RegistryView {
    /// Whether `d` is what goes out on `route` for a message of `author` in
    /// `source`: the content as it came, and the mention texts of this owner,
    /// target and source, ascending, each once.
    pub open spec fn is_delivery(
        self,
        author: u64,
        source: u64,
        content: Seq<char>,
        route: Route,
        d: DeliveryView,
    ) -> bool {
        &&& d.target == route.target
        &&& d.webhook == route.webhook
        &&& d.content == content
        &&& strictly_ascending(d.mentions)
        &&& d.mentions.to_set() == self.mention_texts(author, route.target, source).to_set()
    }

    /// Whether `plan` is what goes out for a message: nothing for an automated
    /// author, else one delivery for each target that the author has
    /// connected the source to, in retrieval order.
    pub open spec fn is_plan(
        self,
        author: u64,
        author_is_bot: bool,
        source: u64,
        content: Seq<char>,
        plan: Seq<DeliveryView>,
    ) -> bool {
        if author_is_bot {
            plan.len() == 0
        } else {
            let routes = self.routes_of(source, author);
            &&& plan.len() == routes.len()
            &&& forall|i: int| 0 <= i < plan.len() ==> self.is_delivery(author, source, content, routes[i], #[trigger] plan[i])
        }
    }
}

impl Registry {
    /// The deliveries that a message gives rise to. A message of an
    /// automated account gives none. Any other message gives one for each
    /// target that its author has connected its channel to; every delivery
    /// carries the same content.
    pub fn handle_message(&self, msg: &Inbound) -> (plan: Vec<Delivery>)
        ensures
            self@.is_plan(msg.author, msg.author_is_bot, msg.channel, msg.content@, delivery_views(plan@)),
    {
        let mut plan: Vec<Delivery> = Vec::new();
        if msg.author_is_bot {
            return plan;
        }
        let routes = self.connections_for(msg.channel, msg.author);
        let n: usize = routes.len();
        let mut i: usize = 0;
        while i < n
            invariant
                n == routes@.len(),
                i <= n,
                routes@ == self@.routes_of(msg.channel, msg.author),
                plan@.len() == i,
                forall|k: int| 0 <= k < i ==> self@.is_delivery(msg.author, msg.channel, msg.content@, routes@[k], #[trigger] delivery_views(plan@)[k]),
            decreases n - i,
        {
            let route = routes[i];
            let mentions = self.rules_for(msg.author, route.target, msg.channel);
            let d = Delivery { target: route.target, webhook: route.webhook, content: msg.content.clone(), mentions };
            let ghost prev = delivery_views(plan@);
            let ghost dv = d@;
            plan.push(d);
            assert(delivery_views(plan@) =~= prev.push(dv));
            i += 1;
        }
        plan
    }
}

/// How one delivery went.
#[derive(Clone, Copy, Debug, PartialEq, Eq, Structural)]
pub enum Outcome {
    Delivered,
    Failed(RelayError),
}

/// What to do next for a message.
#[derive(Clone, Copy, Debug, PartialEq, Eq, Structural)]
pub enum RelayStep {
    /// Attempt the delivery at this position of the plan.
    Deliver(usize),
    /// Every delivery was attempted.
    Done,
    /// A failure other than an unavailable delivery stopped the relay.
    Abort(RelayError),
}

/// The deliveries of one message and how far they have come.
pub struct RelayRun {
    plan: Vec<Delivery>,
    cursor: usize,
    failed: Vec<u64>,
    error: Option<RelayError>,
}

/// A run as contracts see it.
pub struct RunView {
    pub plan: Seq<DeliveryView>,
    /// How many deliveries were attempted.
    pub cursor: nat,
    /// The targets whose delivery was unavailable, in the order of the attempts.
    pub failed: Seq<u64>,
    /// The failure that stopped the run, if one did.
    pub error: Option<RelayError>,
}

impl RunView {
    /// What to do next.
    pub open spec fn next(self) -> RelayStep {
        match self.error {
            Some(e) => RelayStep::Abort(e),
            None => if self.cursor < self.plan.len() {
                RelayStep::Deliver(self.cursor as usize)
            } else {
                RelayStep::Done
            },
        }
    }

    /// The run after the delivery that was due went as `outcome` says. An
    /// unavailable delivery is noted and the next target is due; any other
    /// failure stops the run. A run that is done or stopped stays as it is.
    pub open spec fn after(self, outcome: Outcome) -> RunView {
        if self.error is Some || self.cursor >= self.plan.len() {
            self
        } else {
            match outcome {
                Outcome::Delivered => RunView { cursor: self.cursor + 1, ..self },
                Outcome::Failed(RelayError::DeliveryUnavailable) => RunView {
                    cursor: self.cursor + 1,
                    failed: self.failed.push(self.plan[self.cursor as int].target),
                    ..self
                },
                Outcome::Failed(e) => RunView { error: Some(e), ..self },
            }
        }
    }

    /// The run after a sequence of outcomes.
    pub open spec fn after_all(self, outcomes: Seq<Outcome>) -> RunView
        decreases outcomes.len(),
    {
        if outcomes.len() == 0 {
            self
        } else {
            self.after_all(outcomes.drop_last()).after(outcomes.last())
        }
    }
}

/// Whether an outcome lets the relay go on to the next target.
pub open spec fn goes_on(outcome: Outcome) -> bool {
    outcome == Outcome::Delivered || outcome == Outcome::Failed(RelayError::DeliveryUnavailable)
}

/// A delivery that is unavailable does not keep the other targets from
/// their turn: whatever the outcomes, as long as each is a delivery or an
/// unavailable delivery, every one of them moves the run on by one target,
/// and after as many outcomes as targets were left the run is done.
pub proof fn lemma_failures_do_not_stop(run: RunView, outcomes: Seq<Outcome>)
    requires
        run.error is None,
        run.cursor + outcomes.len() <= run.plan.len(),
        forall|i: int| 0 <= i < outcomes.len() ==> goes_on(#[trigger] outcomes[i]),
    ensures
        run.after_all(outcomes).plan == run.plan,
        run.after_all(outcomes).error is None,
        run.after_all(outcomes).cursor == run.cursor + outcomes.len(),
        run.cursor + outcomes.len() == run.plan.len() ==> run.after_all(outcomes).next() == RelayStep::Done,
    decreases outcomes.len(),
{
    if outcomes.len() > 0 {
        lemma_failures_do_not_stop(run, outcomes.drop_last());
        assert(goes_on(outcomes[outcomes.len() - 1]));
    }
}

/// A failure other than an unavailable delivery stops the run, and the run
/// hands that failure on.
pub proof fn lemma_other_failures_stop(run: RunView, e: RelayError)
    requires
        run.next() is Deliver,
        e != RelayError::DeliveryUnavailable,
    ensures
        run.after(Outcome::Failed(e)).next() == RelayStep::Abort(e),
{
}

impl RelayRun {
    /// The run as contracts see it.
    pub closed spec fn view(&self) -> RunView {
        RunView {
            plan: delivery_views(self.plan@),
            cursor: self.cursor as nat,
            failed: self.failed@,
            error: self.error,
        }
    }

    /// What holds of every run: it has attempted no more than there is.
    pub closed spec fn wf(&self) -> bool {
        self.cursor <= self.plan@.len()
    }

    /// A run that has attempted nothing yet.
    pub fn start(plan: Vec<Delivery>) -> (run: RelayRun)
        ensures
            run.wf(),
            run@ == (RunView { plan: delivery_views(plan@), cursor: 0, failed: Seq::empty(), error: None }),
    {
        RelayRun { plan, cursor: 0, failed: Vec::new(), error: None }
    }

    /// What to do next.
    pub fn next(&self) -> (step: RelayStep)
        requires
            self.wf(),
        ensures
            step == self@.next(),
    {
        match self.error {
            Some(e) => RelayStep::Abort(e),
            None => if self.cursor < self.plan.len() {
                RelayStep::Deliver(self.cursor)
            } else {
                RelayStep::Done
            },
        }
    }

    /// The delivery that is due, if one is.
    pub fn due(&self) -> (d: Option<&Delivery>)
        requires
            self.wf(),
        ensures
            match d {
                Some(d) => self@.next() == RelayStep::Deliver(self@.cursor as usize) && d@ == self@.plan[self@.cursor as int],
                None => !(self@.next() is Deliver),
            },
    {
        if self.error.is_none() && self.cursor < self.plan.len() {
            Some(&self.plan[self.cursor])
        } else {
            None
        }
    }

    /// Takes note of how the delivery that was due went.
    pub fn record(&mut self, outcome: Outcome)
        requires
            old(self).wf(),
        ensures
            final(self).wf(),
            final(self)@ == old(self)@.after(outcome),
    {
        if self.error.is_some() || self.cursor >= self.plan.len() {
            return ;
        }
        match outcome {
            Outcome::Delivered => {
                self.cursor = self.cursor + 1;
            },
            Outcome::Failed(RelayError::DeliveryUnavailable) => {
                self.failed.push(self.plan[self.cursor].target);
                self.cursor = self.cursor + 1;
            },
            Outcome::Failed(e) => {
                self.error = Some(e);
            },
        }
    }

    /// The targets whose delivery was unavailable, in the order of the attempts.
    pub fn failed_targets(&self) -> (out: &Vec<u64>)
        ensures
            out@ == self@.failed,
    {
        &self.failed
    }
}

} // verus!
