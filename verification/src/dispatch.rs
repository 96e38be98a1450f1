//! The dispatcher: routes each inbound message either to a handler
//! registered under the message's target, or to the pending call matching
//! its `invocation_id`.  Handlers and pending calls are named here by
//! numeric handles; the surrounding program maps handles to callables.
use vstd::prelude::*;
use crate::HubConnection;
use crate::protocol::responses::{MessageModel, Messsage};

verus! {

/// A name-to-handle table, looked up by the first matching name.
pub open spec fn entries_view(v: Seq<(String, u64)>) -> Seq<(Seq<char>, u64)> {
    Seq::new(v.len(), |i: int| (v[i].0@, v[i].1))
}

pub open spec fn spec_lookup_from(
    entries: Seq<(Seq<char>, u64)>,
    key: Seq<char>,
    i: int,
) -> Option<u64>
    decreases entries.len() - i,
{
    if !(0 <= i < entries.len()) {
        None
    } else if entries[i].0 == key {
        Some(entries[i].1)
    } else {
        spec_lookup_from(entries, key, i + 1)
    }
}

/// The handle registered under `key`, if any.
pub open spec fn spec_lookup(entries: Seq<(Seq<char>, u64)>, key: Seq<char>) -> Option<u64> {
    spec_lookup_from(entries, key, 0)
}

/// The table with the first entry named `key` removed.
pub open spec fn spec_retire(entries: Seq<(Seq<char>, u64)>, key: Seq<char>) -> Seq<
    (Seq<char>, u64),
>
    decreases entries.len(),
{
    if entries.len() == 0 {
        entries
    } else if entries[0].0 == key {
        entries.drop_first()
    } else {
        seq![entries[0]] + spec_retire(entries.drop_first(), key)
    }
}

pub(crate) fn find_entry(v: &Vec<(String, u64)>, i: usize, key: &String) -> (r: Option<usize>)
    requires
        i <= v@.len(),
    ensures
        r is None ==> spec_lookup_from(entries_view(v@), key@, i as int) is None,
        r matches Some(ix) ==> i <= ix < v@.len() && v@[ix as int].0@ == key@
            && spec_lookup_from(entries_view(v@), key@, i as int) == Some(v@[ix as int].1)
            && (forall|j: int| i <= j < ix ==> v@[j].0@ != key@),
    decreases v@.len() - i,
{
    if i == v.len() {
        None
    } else {
        if v[i].0 == *key {
            Some(i)
        } else {
            find_entry(v, i + 1, key)
        }
    }
}

proof fn lemma_retire_at(entries: Seq<(Seq<char>, u64)>, key: Seq<char>, ix: int)
    requires
        0 <= ix < entries.len(),
        entries[ix].0 == key,
        forall|j: int| 0 <= j < ix ==> entries[j].0 != key,
    ensures
        spec_retire(entries, key) == entries.remove(ix),
    decreases ix,
{
    if ix == 0 {
        assert(entries.drop_first() =~= entries.remove(0));
    } else {
        lemma_retire_at(entries.drop_first(), key, ix - 1);
        assert(seq![entries[0]] + entries.drop_first().remove(ix - 1) =~= entries.remove(ix));
    }
}

/// What the dispatcher decides for one inbound message.
#[derive(Debug, PartialEq, Eq, Structural)]
pub enum DispatchAction {
    /// Run the handler registered under the message's target, with the
    /// message's arguments.
    Invoke { handler: u64 },
    /// Deliver to the pending call; the entry stays (a stream item).
    Deliver { pending: u64 },
    /// Deliver to the pending call and retire the entry (a completion).
    Complete { pending: u64 },
    /// Nothing matches: note a diagnostic and drop the message.
    Drop,
    /// A liveness signal, handled below the dispatch layer.
    Discard,
}

impl HubConnection {
    /// Decides where one inbound message goes, retiring the pending entry
    /// that a completion resolves.  Everything else leaves the connection
    /// unchanged.
    pub fn dispatch_step(&mut self, message: &Messsage) -> (r: DispatchAction)
        ensures
            old(self).listeners == final(self).listeners,
            match message@ {
                MessageModel::Invocation { target, .. } => final(self).pending == old(self).pending && r == (match spec_lookup(
                    entries_view(old(self).listeners@),
                    target,
                ) {
                    Some(h) => (DispatchAction::Invoke { handler: h }),
                    None => DispatchAction::Drop,
                }),
                MessageModel::StreamInvocation { target, .. } => final(self).pending == old(self).pending && r == (match spec_lookup(
                    entries_view(old(self).listeners@),
                    target,
                ) {
                    Some(h) => (DispatchAction::Invoke { handler: h }),
                    None => DispatchAction::Drop,
                }),
                MessageModel::StreamItem { invocation_id, .. } => final(self).pending == old(self).pending && r == (match invocation_id {
                    Some(id) => match spec_lookup(entries_view(old(self).pending@), id) {
                        Some(p) => (DispatchAction::Deliver { pending: p }),
                        None => DispatchAction::Drop,
                    },
                    None => DispatchAction::Drop,
                }),
                MessageModel::Completion { invocation_id, .. } => match invocation_id {
                    Some(id) => match spec_lookup(entries_view(old(self).pending@), id) {
                        Some(p) => r == (DispatchAction::Complete { pending: p })
                            && entries_view(final(self).pending@) == spec_retire(
                            entries_view(old(self).pending@),
                            id,
                        ),
                        None => r == DispatchAction::Drop && final(self).pending == old(self).pending,
                    },
                    None => r == DispatchAction::Drop && final(self).pending == old(self).pending,
                },
                MessageModel::CancelInvokation { .. } => r == DispatchAction::Drop && final(self).pending == old(self).pending,
                MessageModel::Ping => r == DispatchAction::Discard && final(self).pending == old(self).pending,
                MessageModel::Close { .. } => r == DispatchAction::Drop && final(self).pending
                    == old(self).pending,
            },
    {
        match message {
            Messsage::Invocation(f) => match find_entry(&self.listeners, 0, &f.target) {
                Some(ix) => DispatchAction::Invoke { handler: self.listeners[ix].1 },
                None => DispatchAction::Drop,
            },
            Messsage::StreamInvocation(f) => match find_entry(&self.listeners, 0, &f.target) {
                Some(ix) => DispatchAction::Invoke { handler: self.listeners[ix].1 },
                None => DispatchAction::Drop,
            },
            Messsage::StreamItem(f) => match &f.invocation_id {
                Some(id) => match find_entry(&self.pending, 0, id) {
                    Some(ix) => DispatchAction::Deliver { pending: self.pending[ix].1 },
                    None => DispatchAction::Drop,
                },
                None => DispatchAction::Drop,
            },
            Messsage::Completion(f) => match &f.invocation_id {
                Some(id) => match find_entry(&self.pending, 0, id) {
                    Some(ix) => {
                        let p = self.pending[ix].1;
                        let ghost entries = entries_view(self.pending@);
                        let _ = self.pending.remove(ix);
                        proof {
                            lemma_retire_at(entries, id@, ix as int);
                            assert(entries_view(self.pending@) =~= entries.remove(ix as int));
                        }
                        DispatchAction::Complete { pending: p }
                    },
                    None => DispatchAction::Drop,
                },
                None => DispatchAction::Drop,
            },
            Messsage::CancelInvokation(_) => DispatchAction::Drop,
            Messsage::Ping => DispatchAction::Discard,
            Messsage::Close(_) => DispatchAction::Drop,
        }
    }
}

} // verus!
