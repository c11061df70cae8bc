//! Resolves the delivery handle of an owner and a target channel, creating
//! one on first use.

use vstd::prelude::*;
use crate::error::RelayError;
use crate::model::delivers;
use crate::model::Registry;
use crate::model::RegistryView;
use crate::model::Webhook;

verus! {

/// What has to happen before a delivery handle can be used.
#[derive(Clone, Debug, PartialEq, Eq)]
pub enum WebhookStep {
    /// The handle exists already.
    Ready(u64),
    /// The chat platform has to create a handle on `channel`, named `name`.
    Create { channel: u64, name: String },
}

impl RegistryView {
    /// The tables with `w` stored under its owner and target: a handle that
    /// was there for the pair is replaced, so that no second one accumulates.
    pub open spec fn store_webhook(self, w: Webhook) -> RegistryView {
        if self.has_webhook(w.owner, w.target) {
            let i = choose|i: int|
                0 <= i < self.webhooks.len() && delivers(
                    #[trigger] self.webhooks[i],
                    w.owner,
                    w.target,
                );
            RegistryView { webhooks: self.webhooks.update(i, w), ..self }
        } else {
            RegistryView { webhooks: self.webhooks.push(w), ..self }
        }
    }

    /// What resolving the handle of `owner` and `target` returns and leaves
    /// behind, given what the chat platform answered to a request to create one.
    pub open spec fn resolve(self, owner: u64, target: u64, issued: Option<u64>) -> (
        Result<u64, RelayError>,
        RegistryView,
    ) {
        match self.webhook_of(owner, target) {
            Some(id) => (Ok(id), self),
            None => match issued {
                Some(id) => (Ok(id), self.store_webhook(Webhook { id, target, owner })),
                None => (Err(RelayError::DeliveryUnavailable), self),
            },
        }
    }
}

/// A delivery handle is created once and reused thereafter: after a handle
/// was resolved, resolving it again returns the same handle and changes
/// nothing, whatever the chat platform would answer.
pub proof fn lemma_resolve_twice(
    reg: RegistryView,
    owner: u64,
    target: u64,
    first: Option<u64>,
    second: Option<u64>,
)
    requires
        reg.keys_unique(),
        reg.resolve(owner, target, first).0 is Ok,
    ensures
        ({
            let (handle, resolved) = reg.resolve(owner, target, first);
            resolved.resolve(owner, target, second) == (handle, resolved)
        }),
{
    let (handle, resolved) = reg.resolve(owner, target, first);
    if reg.webhook_of(owner, target) is None {
        let w = Webhook { id: first->Some_0, target, owner };
        let at = reg.webhooks.len() as int;
        assert(resolved.webhooks == reg.webhooks.push(w));
        assert(delivers(resolved.webhooks[at], owner, target));
        let i = choose|i: int| 0 <= i < resolved.webhooks.len() && delivers(#[trigger] resolved.webhooks[i], owner, target);
        if i < at {
            assert(delivers(reg.webhooks[i], owner, target));
        }
    }
}

impl Registry {
    /// The position of the delivery handle of `owner` and `target`.
    pub(crate) fn find_webhook(&self, owner: u64, target: u64) -> (r: Option<usize>)
        ensures
            match r {
                Some(i) => i < self@.webhooks.len() && delivers(
                    self@.webhooks[i as int],
                    owner,
                    target,
                ),
                None => !self@.has_webhook(owner, target),
            },
    {
        let n: usize = self.webhooks.len();
        let mut i: usize = 0;
        while i < n
            invariant
                n == self.webhooks@.len(),
                i <= n,
                forall|k: int| 0 <= k < i ==> !delivers(#[trigger] self@.webhooks[k], owner, target),
            decreases n - i,
        {
            if self.webhooks[i].owner == owner && self.webhooks[i].target == target {
                return Some(i);
            }
            i += 1;
        }
        None
    }

    /// The delivery handle that `owner` holds for `target`, if there is one.
    pub fn webhook_for(&self, owner: u64, target: u64) -> (r: Option<u64>)
        requires
            self.wf(),
        ensures
            r == self@.webhook_of(owner, target),
    {
        match self.find_webhook(owner, target) {
            Some(i) => {
                proof {
                    self@.lemma_webhook_at(i as int);
                }
                Some(self.webhooks[i].id)
            },
            None => None,
        }
    }

    /// Stores `id` as the delivery handle of `owner` and `target`, in place of
    /// the one that was there, if any.
    pub fn store_webhook(&mut self, owner: u64, target: u64, id: u64)
        requires
            old(self).wf(),
        ensures
            final(self).wf(),
            final(self)@ == old(self)@.store_webhook(Webhook { id, target, owner }),
            final(self)@.webhook_of(owner, target) == Some(id),
    {
        let w = Webhook { id, target, owner };
        match self.find_webhook(owner, target) {
            Some(i) => {
                proof {
                    assert(self@.connections == old(self)@.connections);
                    assert(self@.rules == old(self)@.rules);
                    assert(self@.keys_unique());
                    self@.lemma_webhook_at(i as int);
                }
                self.webhooks[i] = w;
                proof {
                    let before = old(self)@.webhooks;
                    let after = self@.webhooks;
                    assert(after =~= before.update(i as int, w));
                    assert forall|p: int, q: int| 0 <= p < q < after.len() implies !delivers(
                        #[trigger] after[p],
                        (#[trigger] after[q]).owner,
                        after[q].target,
                    ) by {
                        assert(!delivers(before[p], before[q].owner, before[q].target));
                    }
                    assert(self@.connections == old(self)@.connections);
                    assert(self@.rules == old(self)@.rules);
                    assert(self@.keys_unique());
                    assert(self@.connections == old(self)@.connections);
                    assert(self@.rules == old(self)@.rules);
                    assert(self@.guilds == old(self)@.guilds);
                    assert(self@.channels == old(self)@.channels);
                    self@.lemma_webhook_at(i as int);
                }
            },
            None => {
                self.webhooks.push(w);
                proof {
                    let before = old(self)@.webhooks;
                    let after = self@.webhooks;
                    assert(after =~= before.push(w));
                    assert forall|p: int, q: int| 0 <= p < q < after.len() implies !delivers(
                        #[trigger] after[p],
                        (#[trigger] after[q]).owner,
                        after[q].target,
                    ) by {
                        if q < before.len() {
                            assert(!delivers(before[p], before[q].owner, before[q].target));
                        } else {
                            assert(!delivers(before[p], owner, target));
                        }
                    }
                    assert(self@.connections == old(self)@.connections);
                    assert(self@.rules == old(self)@.rules);
                    assert(self@.guilds == old(self)@.guilds);
                    assert(self@.channels == old(self)@.channels);
                    self@.lemma_webhook_at(before.len() as int);
                }
            },
        }
    }

    /// Says whether the delivery handle of `owner` and `target` exists, or
    /// what to ask of the chat platform: a handle on the target, named after
    /// the owner.
    pub fn resolve_begin(&self, owner: u64, owner_name: &str, target: u64) -> (r: WebhookStep)
        requires
            self.wf(),
        ensures
            match self@.webhook_of(owner, target) {
                Some(id) => r == WebhookStep::Ready(id),
                None => r matches WebhookStep::Create { channel, name } && channel == target
                    && name@ == owner_name@,
            },
    {
        match self.webhook_for(owner, target) {
            Some(id) => WebhookStep::Ready(id),
            None => WebhookStep::Create { channel: target, name: owner_name.to_owned() },
        }
    }

    /// Resolves the delivery handle of `owner` and `target`. The handle that
    /// exists is returned. Where none exists, `issued` is what the chat
    /// platform answered to the request to create one: a new handle is stored
    /// and returned, a refusal fails with `DeliveryUnavailable` and stores
    /// nothing.
    pub fn resolve(&mut self, owner: u64, target: u64, issued: Option<u64>) -> (r: Result<
        u64,
        RelayError,
    >)
        requires
            old(self).wf(),
        ensures
            final(self).wf(),
            r == old(self)@.resolve(owner, target, issued).0,
            final(self)@ == old(self)@.resolve(owner, target, issued).1,
            r is Ok ==> final(self)@.webhook_of(owner, target) == Some(r->Ok_0),
    {
        match self.webhook_for(owner, target) {
            Some(id) => Ok(id),
            None => match issued {
                Some(id) => {
                    self.store_webhook(owner, target, id);
                    Ok(id)
                },
                None => Err(RelayError::DeliveryUnavailable),
            },
        }
    }
}

} // verus!
