//! Dispatch between client handlers and backend workers. A client handler
//! rewrites the request identifier of each message it reads, packs the
//! message with its own reply channel into a packet, and hands the packet to
//! the shared dispatch channel; on the way back it restores the original
//! identifier into the response-to field.

use vstd::prelude::*;

use crate::rewrite::{client_salt, salt_of, spec_rewrite};
use crate::wire::WireMessage;
use crate::ProxyError;

verus! {

/// Declares flume's transmitting channel end so that it can stand in
/// signatures and fields; the value itself is opaque here.
#[verifier::external_type_specification]
#[verifier::external_body]
#[verifier::reject_recursive_types(T)]
pub struct ExSender<T>(flume::Sender<T>);

/// What a backend worker sends back on a reply channel: the backend's
/// response, or the news that the backend connection failed first.
pub enum Reply {
    /// A response read from the backend, still carrying the backend-scoped
    /// identifier in its response-to field.
    Response(WireMessage),
    /// The backend connection failed while this request was pending.
    Failed(ProxyError),
}

/// One outbound request on the dispatch channel: the rewritten message, the
/// backend-scoped identifier it now carries, and the reply channel of the
/// client handler that issued it.
pub struct MessagePacket {
    /// The request message, its identifier field already rewritten.
    pub message: WireMessage,
    /// The backend-scoped identifier, as rewritten into the message.
    pub request_id: u32,
    /// The issuing client handler's reply channel.
    pub tx: flume::Sender<Reply>,
}

impl MessagePacket {
    /// A packet is well formed when its message is and the identifier it
    /// names is the one the message carries.
    pub open spec fn wf(self) -> bool {
        &&& self.message.wf()
        &&& self.request_id == self.message.spec_request_id()
    }

    /// Packs a message, its identifier and a reply channel.
    pub fn new(message: WireMessage, request_id: u32, tx: flume::Sender<Reply>) -> (p: Self)
        ensures
            p.message == message,
            p.request_id == request_id,
            p.tx == tx,
    {
        Self { message, request_id, tx }
    }
}

/// Relies on `flume::Sender::send`: on an unbounded channel the call queues
/// the packet without blocking, and fails only when every receiver is gone.
/// Whether it succeeds depends on the other end, so nothing is promised of
/// the result.
#[verifier::external_body]
pub(crate) fn send_packet(tx: &flume::Sender<MessagePacket>, packet: MessagePacket) -> (ok: bool) {
    tx.send(packet).is_ok()
}

/// Relies on `flume::Sender::send`: on an unbounded channel the call queues
/// the reply without blocking, and fails only when every receiver is gone —
/// a vanished client handler, which the worker tolerates.
#[verifier::external_body]
pub(crate) fn send_reply(tx: &flume::Sender<Reply>, reply: Reply) -> (ok: bool) {
    tx.send(reply).is_ok()
}

/// Rewrites a request's identifier field in place to its backend-scoped
/// form and returns that form; everything else in the message stays.
pub fn prepare_request(message: &mut WireMessage, client_id: &str) -> (rid: u32)
    requires
        old(message).wf(),
    ensures
        rid == spec_rewrite(old(message).spec_request_id(), salt_of(client_id@)),
        final(message).wf(),
        final(message)@.len() == old(message)@.len(),
        final(message).spec_request_id() == rid,
        final(message).spec_response_to() == old(message).spec_response_to(),
        final(message).spec_body() == old(message).spec_body(),
{
    let salt: u32 = client_salt(client_id);
    let rid: u32 = message.request_id() ^ salt;
    message.set_request_id(rid);
    rid
}

/// Restores a response's response-to field in place to its client-scoped
/// form and returns that form; everything else in the message stays.
pub fn restore_response(message: &mut WireMessage, client_id: &str) -> (orig: u32)
    requires
        old(message).wf(),
    ensures
        orig == spec_rewrite(old(message).spec_response_to(), salt_of(client_id@)),
        final(message).wf(),
        final(message)@.len() == old(message)@.len(),
        final(message).spec_response_to() == orig,
        final(message).spec_request_id() == old(message).spec_request_id(),
        final(message).spec_body() == old(message).spec_body(),
{
    let salt: u32 = client_salt(client_id);
    let orig: u32 = message.response_to() ^ salt;
    message.set_response_to(orig);
    orig
}

/// The whole client-to-backend step: rewrites the request's identifier for
/// this client, packs it with the reply channel, and hands it to the
/// dispatch channel. Returns the backend-scoped identifier and whether the
/// dispatch channel still had a consumer.
pub fn forward_request(
    message: WireMessage,
    client_id: &str,
    dispatch: &flume::Sender<MessagePacket>,
    reply: flume::Sender<Reply>,
) -> (r: (u32, bool))
    requires
        message.wf(),
    ensures
        r.0 == spec_rewrite(message.spec_request_id(), salt_of(client_id@)),
{
    let mut message = message;
    let rid: u32 = prepare_request(&mut message, client_id);
    let packet = MessagePacket::new(message, rid, reply);
    assert(packet.wf());
    let ok: bool = send_packet(dispatch, packet);
    (rid, ok)
}

} // verus!
