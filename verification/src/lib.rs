//! Client side of a hub messaging protocol carried over a WebSocket
//! transport: a record-separator framed JSON message codec, the one-shot
//! handshake exchange, and the decision logic of the reader, writer,
//! heartbeat and dispatch loops.
use vstd::prelude::*;

pub mod dispatch;
pub mod error;
pub mod protocol;
pub mod queue;
pub mod runtime;

verus! {

/// Builder for a hub connection; carries the hub base URL.
pub struct HubConnectionBuilder {
    pub hub_url: String,
}

pub struct BaseHubConnectionBuilder;

impl HubConnectionBuilder {
    /// A fresh builder with an empty hub URL.
    pub fn new() -> (r: HubConnectionBuilder)
        ensures
            r.hub_url@ == Seq::<char>::empty(),
    {
        HubConnectionBuilder { hub_url: String::new() }
    }

    /// Replaces the hub URL, consuming the builder.
    pub fn with_url(self, hub_url: String) -> (r: HubConnectionBuilder)
        ensures
            r.hub_url == hub_url,
    {
        HubConnectionBuilder { hub_url }
    }
}

/// A running connection's registries: handlers by target name, pending
/// calls by invocation id.  Handles are opaque numbers; the surrounding
/// program maps them to callables.  A later registration under the same
/// name wins, matching a map that is overwritten in place.
pub struct HubConnection {
    pub listeners: Vec<(String, u64)>,
    pub pending: Vec<(String, u64)>,
}

impl HubConnection {
    /// A connection with nothing registered.
    pub fn new() -> (r: HubConnection)
        ensures
            r.listeners@ =~= Seq::<(String, u64)>::empty(),
            r.pending@ =~= Seq::<(String, u64)>::empty(),
    {
        HubConnection { listeners: Vec::new(), pending: Vec::new() }
    }

    /// Registers a handler for invocations of `target`; a handler already
    /// registered under the same name is shadowed.
    pub fn register(&mut self, target: String, handler: u64)
        ensures
            final(self).listeners@ == old(self).listeners@.insert(0, (target, handler)),
            final(self).pending == old(self).pending,
            crate::dispatch::spec_lookup(
                crate::dispatch::entries_view(final(self).listeners@),
                target@,
            ) == Some(handler),
    {
        self.listeners.insert(0, (target, handler));
        proof {
            assert(crate::dispatch::entries_view(self.listeners@)[0].0 == target@);
        }
    }

    /// Records a pending call awaiting its completion, keyed by the
    /// invocation id it was sent with.
    pub fn add_pending(&mut self, invocation_id: String, handle: u64)
        ensures
            final(self).pending@ == old(self).pending@.insert(0, (invocation_id, handle)),
            final(self).listeners == old(self).listeners,
            crate::dispatch::spec_lookup(
                crate::dispatch::entries_view(final(self).pending@),
                invocation_id@,
            ) == Some(handle),
    {
        self.pending.insert(0, (invocation_id, handle));
        proof {
            assert(crate::dispatch::entries_view(self.pending@)[0].0 == invocation_id@);
        }
    }

    /// The handler registered for `target`, if any.
    pub fn lookup_handler(&self, target: &String) -> (r: Option<u64>)
        ensures
            r == crate::dispatch::spec_lookup(
                crate::dispatch::entries_view(self.listeners@),
                target@,
            ),
    {
        match crate::dispatch::find_entry(&self.listeners, 0, target) {
            Some(ix) => Some(self.listeners[ix].1),
            None => None,
        }
    }
}

} // verus!
