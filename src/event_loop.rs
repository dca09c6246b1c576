use vstd::prelude::*;

use crate::codec::{decode_inbound, encode_request, encode_response, json_request, json_response, parse_request, parse_response, whole};
use crate::message::{ListMode, ListModeView, ListRequest, ListRequestView, ListResponse, Message};
use crate::protocol::{addresses, react, Inbound, Reaction};
use crate::store::views;

verus! {

/// Whose messages a listing command asks for.
pub enum ListTarget {
    All,
    One(String),
    LocalOnly,
}

/// An action that the command source resolved a line of input into.
pub enum Command {
    ListPeers,
    ListMessages(ListTarget),
    CreateMessage { name: String, sender: String, content: String },
    PublishMessage(usize),
    Unrecognized,
}

/// What the event loop was woken by.
pub enum Event {
    Command(Command),
    /// A responder finished its response.
    Response(ListResponse),
    /// A payload arrived on the shared topic from the peer `origin`.
    Gossip { origin: String, payload: String },
}

/// What the event loop does next.
pub enum Effect {
    /// Broadcast this text on the shared topic.
    Publish(String),
    ShowPeers,
    ShowLocalMessages,
    /// Show messages that another peer sent in answer to this peer.
    Display(Vec<Message>),
    AppendMessage { name: String, sender: String, content: String },
    MarkPublic(usize),
    /// Start a responder that answers the peer with this identifier.
    SpawnResponder(String),
    ReportUnknownCommand,
    Nothing,
}

/// Decides the effect of one event at the peer identified by `local`.
pub fn step(event: Event, local: &String) -> (r: Effect)
    ensures
        match event {
            Event::Command(Command::ListPeers) => r is ShowPeers,
            Event::Command(Command::ListMessages(ListTarget::LocalOnly)) => r is ShowLocalMessages,
            Event::Command(Command::ListMessages(ListTarget::All)) => r matches Effect::Publish(
                t,
            ) && t@ == json_request(ListRequestView { mode: ListModeView::All }),
            Event::Command(Command::ListMessages(ListTarget::One(p))) => r matches Effect::Publish(
                t,
            ) && t@ == json_request(ListRequestView { mode: ListModeView::One(p@) }),
            Event::Command(Command::CreateMessage { name, sender, content }) => r matches Effect::AppendMessage {
                name: n,
                sender: s,
                content: c,
            } && n@ == name@ && s@ == sender@ && c@ == content@,
            Event::Command(Command::PublishMessage(id)) => r == Effect::MarkPublic(id),
            Event::Command(Command::Unrecognized) => r is ReportUnknownCommand,
            Event::Response(resp) => r matches Effect::Publish(t) && t@ == json_response(resp@),
            Event::Gossip { origin, payload } => match whole(parse_response(payload@)) {
                Some(resp) => if resp.receiver == local@ {
                    r matches Effect::Display(d) && views(d@) == resp.data
                } else {
                    r is Nothing
                },
                None => match whole(parse_request(payload@)) {
                    Some(q) => if addresses(q.mode, local@) {
                        r matches Effect::SpawnResponder(p) && p@ == origin@
                    } else {
                        r is Nothing
                    },
                    None => r is Nothing,
                },
            },
        },
{
    match event {
        Event::Command(cmd) => match cmd {
            Command::ListPeers => Effect::ShowPeers,
            Command::ListMessages(target) => match target {
                ListTarget::LocalOnly => Effect::ShowLocalMessages,
                ListTarget::All => Effect::Publish(encode_request(&ListRequest { mode: ListMode::All })),
                ListTarget::One(p) => Effect::Publish(
                    encode_request(&ListRequest { mode: ListMode::One(p) }),
                ),
            },
            Command::CreateMessage { name, sender, content } => Effect::AppendMessage {
                name,
                sender,
                content,
            },
            Command::PublishMessage(id) => Effect::MarkPublic(id),
            Command::Unrecognized => Effect::ReportUnknownCommand,
        },
        Event::Response(resp) => Effect::Publish(encode_response(&resp)),
        Event::Gossip { origin, payload } => {
            let inbound = decode_inbound(payload.as_str());
            match react(inbound, local, &origin) {
                Reaction::Display(d) => Effect::Display(d),
                Reaction::Respond(p) => Effect::SpawnResponder(p),
                Reaction::Ignore => Effect::Nothing,
            }
        },
    }
}

} // verus!
