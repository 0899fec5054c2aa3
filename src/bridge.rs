//! The two directions of the bridge: inbound chat messages become canonical
//! messages for the plugin, and replies the plugin publishes become outbound
//! chat messages on the channel they answer.
use vstd::prelude::*;
use vstd::utf8::{decode_utf8, encode_utf8, valid_utf8};

use crate::correlation::ReplyContext;
use crate::error::PublishError;
use crate::registry::{resolve_outcome, LinkRegistry};

verus! {

/// The envelope exchanged with plugins.
pub struct CanonicalMessage {
    pub subject: String,
    pub reply_to: Option<String>,
    pub body: Vec<u8>,
}

/// An event of a chat session.
pub enum ChatEvent {
    /// The session is connected; nothing is dispatched.
    SessionReady { identity: String },
    /// A message arrived on a channel.
    MessageReceived { channel_id: String, message_id: String, author_id: String, text: String },
}

/// How a plugin invocation ended.
#[derive(Debug, PartialEq, Eq)]
pub enum DispatchOutcome {
    /// The plugin handled the message.
    Handled,
    /// The plugin answered with an error of its own.
    PluginFailed(String),
    /// The plugin could not be reached or gave no structured answer.
    TransportFailed(String),
}

/// An outbound chat message ready to be sent.
pub struct Delivery {
    pub channel_id: String,
    pub session: u64,
    pub text: String,
    /// True when the body was not valid UTF-8 and replacement characters
    /// stand in the text.
    pub replaced: bool,
}

/// The character that stands for an undecodable byte sequence.
pub const REPLACEMENT: char = '\u{FFFD}';

/// Text of `bytes` with each invalid sequence replaced by `REPLACEMENT`.
pub uninterp spec fn lossy_text(bytes: Seq<u8>) -> Seq<char>;

/// Relies on `String::from_utf8_lossy`: valid UTF-8 is decoded as it stands,
/// and otherwise invalid sequences are replaced by U+FFFD.
#[verifier::external_body]
fn decode_lossy(bytes: &Vec<u8>) -> (r: String)
    ensures
        r@ == lossy_text(bytes@),
        valid_utf8(bytes@) ==> r@ == decode_utf8(bytes@),
{
    String::from_utf8_lossy(bytes).into_owned()
}

/// True when `text` holds the replacement character.
pub fn has_replacement(text: &String) -> (r: bool)
    ensures
        r == text@.contains(REPLACEMENT),
{
    let s = text.as_str();
    let mut found = false;
    for c in it: s.chars()
        invariant
            it.seq() == s@,
            found == (exists|j: int| 0 <= j < it.index() && s@[j] == REPLACEMENT),
    {
        if c == REPLACEMENT {
            found = true;
        }
    }
    found
}

/// Turns an inbound chat event of `tenant` into the message to hand to the
/// plugin. A received message registers a pending reply under its own
/// identity, answerable on its channel through the tenant's session; the
/// plugin gets the channel as subject, the message identity as reply-to and
/// the text as body. A ready event, or an event of a tenant with no link,
/// dispatches nothing and changes nothing.
pub fn dispatch_inbound(links: &mut LinkRegistry, tenant: &String, event: ChatEvent, now: u64) -> (r: Option<CanonicalMessage>)
    requires
        old(links).wf(),
    ensures
        final(links).wf(),
        match event {
            ChatEvent::MessageReceived { channel_id, message_id, author_id, text } => if old(links)@.contains_key(tenant@) {
                &&& final(links)@ == old(links)@.insert(
                    tenant@,
                    (
                        old(links)@[tenant@].0,
                        old(links)@[tenant@].1.insert(
                            message_id@,
                            ((ReplyContext { channel_id: channel_id, session: old(links)@[tenant@].0 }), now),
                        ),
                    ),
                )
                &&& r is Some
                &&& r->0.subject == channel_id
                &&& r->0.reply_to == Some(message_id)
                &&& r->0.body@ == encode_utf8(text@)
            } else {
                r is None && final(links)@ == old(links)@
            },
            ChatEvent::SessionReady { .. } => r is None && final(links)@ == old(links)@,
        },
{
    match event {
        ChatEvent::SessionReady { .. } => None,
        ChatEvent::MessageReceived { channel_id, message_id, author_id: _, text } => {
            match links.session_of(tenant) {
                Some(session) => {
                    let context = ReplyContext { channel_id: channel_id.clone(), session };
                    links.begin_reply(tenant, message_id.clone(), context, now);
                    let body = vstd::slice::slice_to_vec(text.as_str().as_bytes());
                    Some(CanonicalMessage { subject: channel_id, reply_to: Some(message_id), body })
                },
                None => None,
            }
        },
    }
}

/// Sorts the result of a plugin invocation: the outer error is the
/// transport's, the inner one the plugin's own.
pub fn classify_dispatch(result: Result<Result<(), String>, String>) -> (r: DispatchOutcome)
    ensures
        match result {
            Ok(Ok(())) => r == DispatchOutcome::Handled,
            Ok(Err(e)) => r == DispatchOutcome::PluginFailed(e),
            Err(e) => r == DispatchOutcome::TransportFailed(e),
        },
{
    match result {
        Ok(Ok(())) => DispatchOutcome::Handled,
        Ok(Err(e)) => DispatchOutcome::PluginFailed(e),
        Err(e) => DispatchOutcome::TransportFailed(e),
    }
}

/// True when `d` is the delivery of `body` through `context`.
pub open spec fn delivers(d: Delivery, context: ReplyContext, body: Seq<u8>) -> bool {
    &&& d.channel_id == context.channel_id
    &&& d.session == context.session
    &&& d.text@ == lossy_text(body)
    &&& valid_utf8(body) ==> d.text@ == decode_utf8(body)
    &&& d.replaced == d.text@.contains(REPLACEMENT)
}

/// A body that is the UTF-8 encoding of some text is delivered as exactly
/// that text.
pub proof fn lemma_valid_body_delivered_verbatim(d: Delivery, context: ReplyContext, text: Seq<char>)
    requires
        delivers(d, context, encode_utf8(text)),
    ensures
        d.text@ == text,
{
    vstd::utf8::encode_utf8_valid_utf8(text);
    vstd::utf8::encode_utf8_decode_utf8(text);
}

/// A message dispatched to the plugin carries its text unchanged: the
/// plugin decodes exactly the text that arrived.
pub proof fn lemma_dispatched_body_round_trip(text: Seq<char>)
    ensures
        valid_utf8(encode_utf8(text)),
        decode_utf8(encode_utf8(text)) == text,
{
    vstd::utf8::encode_utf8_valid_utf8(text);
    vstd::utf8::encode_utf8_decode_utf8(text);
}

/// Turns a reply published by a plugin for `tenant` into a delivery. The
/// message's subject names the pending reply it answers; that reply is
/// claimed, so a second reply to the same message finds nothing. The body is
/// decoded leniently: invalid UTF-8 is replaced, flagged, and still sent.
pub fn publish(links: &mut LinkRegistry, tenant: Option<&String>, msg: CanonicalMessage, now: u64) -> (r: Result<Delivery, PublishError>)
    requires
        old(links).wf(),
    ensures
        final(links).wf(),
        tenant is None ==> r == Err::<Delivery, PublishError>(PublishError::MissingTenant) && final(links)@ == old(links)@,
        tenant is Some ==> {
            let t = tenant->0@;
            &&& !old(links)@.contains_key(t) ==> final(links)@ == old(links)@
            &&& old(links)@.contains_key(t) ==> final(links)@ == old(links)@.insert(
                t,
                (old(links)@[t].0, old(links)@[t].1.remove(msg.subject@)),
            )
            &&& match resolve_outcome(old(links)@, t, msg.subject@, now) {
                Ok(c) => r is Ok && delivers(r->Ok_0, c, msg.body@),
                Err(e) => r == Err::<Delivery, PublishError>(e),
            }
        },
{
    let tenant = match tenant {
        Some(t) => t,
        None => return Err(PublishError::MissingTenant),
    };
    let context = match links.resolve_reply(tenant, &msg.subject, now) {
        Ok(c) => c,
        Err(e) => return Err(e),
    };
    let text = decode_lossy(&msg.body);
    let replaced = has_replacement(&text);
    Ok(Delivery { channel_id: context.channel_id, session: context.session, text, replaced })
}

/// The answer to a publisher once the outbound send has been attempted.
pub fn finish_delivery(sent: Result<(), String>) -> (r: Result<(), PublishError>)
    ensures
        match sent {
            Ok(()) => r is Ok,
            Err(e) => r == Err::<(), PublishError>(PublishError::DeliveryFailed(e)),
        },
{
    match sent {
        Ok(()) => Ok(()),
        Err(e) => Err(PublishError::DeliveryFailed(e)),
    }
}

/// Request-reply through the bridge is not offered: every call fails at once
/// and touches no pending reply.
pub fn request(subject: String, body: Vec<u8>, timeout_ms: u32) -> (r: Result<CanonicalMessage, PublishError>)
    ensures
        r matches Err(PublishError::NotImplemented),
{
    Err(PublishError::NotImplemented)
}

} // verus!
