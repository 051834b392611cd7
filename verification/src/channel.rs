use vstd::prelude::*;
use crate::error::Error;
use crate::store::{RendezvousTable, lookup};

verus! {

/// The capability a step consumes to exchange correlated messages
/// with peer helper parties. Abstract, so that step logic runs
/// unchanged against the real message-passing transport or a
/// deterministic in-memory double.
pub trait Helper: Sized {
    /// Well-formedness of the transport's state.
    spec fn wf(&self) -> bool;

    /// The messages sent so far, in order: correlation identifier and
    /// framed payload.
    spec fn outbox(&self) -> Seq<(u128, Vec<u8>)>;

    /// The inbound rendezvous state: pending payloads keyed by
    /// correlation identifier.
    spec fn inbox(&self) -> Seq<(u128, Vec<u8>)>;

    /// Whether the transport can currently accept a send: the
    /// outbound queue is open.
    spec fn can_send(&self) -> bool;

    /// Whether a receive for `id` would be answered rather than
    /// failed: for the in-memory double, that its payload is already
    /// pending; for an asynchronous transport, that the payload
    /// reaches it before its inbound channel closes.
    spec fn can_receive(&self, id: u128) -> bool;

    /// Enqueue `payload` for the next peer under correlation
    /// identifier `id`. Fails with `Error::Send` exactly when the
    /// outbound queue is closed; it neither consumes another key's
    /// pending payload nor withdraws an answerable receive.
    fn send_to_next(&mut self, id: u128, payload: Vec<u8>) -> (r: Result<(), Error>)
        requires
            old(self).wf(),
        ensures
            final(self).wf(),
            r is Ok <==> old(self).can_send(),
            r is Ok ==> final(self).outbox() == old(self).outbox().push((id, payload)),
            r is Err ==> r->Err_0 == Error::Send,
            r is Err ==> final(self).outbox() == old(self).outbox(),
            final(self).can_send() == old(self).can_send(),
            forall|k: u128| old(self).can_receive(k) ==> final(self).can_receive(k),
            forall|k: u128|
                k != id ==> lookup(final(self).inbox(), k) == lookup(old(self).inbox(), k),
    ;

    /// Retrieve the payload tagged `id`, succeeding exactly when the
    /// transport can answer it. Whatever the transport does, a
    /// payload it hands over is exactly the one its rendezvous state
    /// held for that identifier, and other keys are untouched. Fails
    /// with `Error::Receive` otherwise.
    fn receive_from(&mut self, id: u128) -> (r: Result<Vec<u8>, Error>)
        requires
            old(self).wf(),
        ensures
            final(self).wf(),
            r is Ok <==> old(self).can_receive(id),
            r is Ok ==> lookup(old(self).inbox(), id) == Some(r->Ok_0@),
            r is Err ==> r->Err_0 == Error::Receive,
            final(self).outbox() == old(self).outbox(),
            final(self).can_send() == old(self).can_send(),
            forall|k: u128|
                k != id ==> (final(self).can_receive(k) <==> old(self).can_receive(k))
                    && lookup(final(self).inbox(), k) == lookup(old(self).inbox(), k),
    ;
}

/// Byte-for-byte copy of a payload.
pub fn copy_bytes(v: &Vec<u8>) -> (r: Vec<u8>)
    ensures
        r@ == v@,
{
    let mut out: Vec<u8> = Vec::new();
    let mut i: usize = 0;
    while i < v.len()
        invariant
            i <= v@.len(),
            out@ =~= v@.take(i as int),
        decreases v@.len() - i,
    {
        out.push(v[i]);
        proof {
            assert(out@ =~= v@.take(i + 1));
        }
        i = i + 1;
    }
    proof {
        assert(v@.take(v@.len() as int) =~= v@);
    }
    out
}

/// The deterministic in-memory double of the helper transport: every
/// sent message is logged and looped back into the helper's own
/// rendezvous table, and receiving consumes from that table. A
/// receive with no pending payload fails immediately rather than
/// suspending; the asynchronous transport outside the core suspends
/// instead.
pub struct LoopbackHelper {
    table: RendezvousTable,
    sent: Vec<(u128, Vec<u8>)>,
}

impl LoopbackHelper {
    /// A fresh loopback transport: nothing sent, nothing pending.
    pub fn new() -> (h: LoopbackHelper)
        ensures
            h.wf(),
            h.outbox().len() == 0,
            forall|k: u128| lookup(h.inbox(), k) is None,
    {
        LoopbackHelper { table: RendezvousTable::new(), sent: Vec::new() }
    }

    /// Inject a peer's message, as the inbound demultiplexing task
    /// would: the payload becomes pending under its correlation
    /// identifier, and any payload already pending there is returned
    /// as ousted.
    pub fn deliver(&mut self, id: u128, payload: Vec<u8>) -> (ousted: Option<Vec<u8>>)
        requires
            old(self).wf(),
        ensures
            final(self).wf(),
            lookup(final(self).inbox(), id) == Some(payload@),
            forall|k: u128|
                k != id ==> lookup(final(self).inbox(), k) == lookup(old(self).inbox(), k),
            final(self).outbox() == old(self).outbox(),
            ousted is Some ==> lookup(old(self).inbox(), id) == Some(ousted->Some_0@),
            ousted is None ==> lookup(old(self).inbox(), id) is None,
    {
        self.table.write(id, payload)
    }

    /// The messages this helper has sent so far, oldest first: what
    /// the outbound queues would have carried to the peers.
    pub fn sent_messages(&self) -> (r: &Vec<(u128, Vec<u8>)>)
        ensures
            r@ == self.outbox(),
    {
        &self.sent
    }
}

impl Helper for LoopbackHelper {
    closed spec fn wf(&self) -> bool {
        self.table.wf()
    }

    closed spec fn outbox(&self) -> Seq<(u128, Vec<u8>)> {
        self.sent@
    }

    closed spec fn inbox(&self) -> Seq<(u128, Vec<u8>)> {
        self.table@
    }

    open spec fn can_send(&self) -> bool {
        true
    }

    open spec fn can_receive(&self, id: u128) -> bool {
        lookup(self.inbox(), id) is Some
    }

    /// Loopback sending never fails, and besides the logged outbox
    /// entry the payload becomes pending in this helper's own inbox.
    fn send_to_next(&mut self, id: u128, payload: Vec<u8>) -> (r: Result<(), Error>)
        ensures
            r is Ok,
            lookup(final(self).inbox(), id) == Some(payload@),
            forall|k: u128|
                k != id ==> lookup(final(self).inbox(), k) == lookup(old(self).inbox(), k),
    {
        let copy = copy_bytes(&payload);
        self.table.write(id, copy);
        self.sent.push((id, payload));
        Ok(())
    }

    /// A buffered payload is returned immediately and its entry
    /// consumed; with nothing pending the call fails at once, where
    /// the asynchronous transport would suspend.
    fn receive_from(&mut self, id: u128) -> (r: Result<Vec<u8>, Error>)
        ensures
            r is Ok <==> lookup(old(self).inbox(), id) is Some,
            lookup(final(self).inbox(), id) is None,
            forall|k: u128|
                k != id ==> lookup(final(self).inbox(), k) == lookup(old(self).inbox(), k),
            final(self).outbox() == old(self).outbox(),
    {
        match self.table.remove(id) {
            Some(payload) => Ok(payload),
            None => Err(Error::Receive),
        }
    }
}

} // verus!
