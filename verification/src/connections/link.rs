use vstd::prelude::*;
use crate::connections::port_connection::PortConnection;
use crate::connections::connection::Connection;

verus! {

/// A pair of port names, the input port's first, as a connection links them.
pub type Pair = (Seq<char>, Seq<char>);

/// What the library asks of the audio server next.
#[derive(Clone, Copy, Debug, PartialEq, Eq, Structural)]
pub enum RequestKind {
    /// Are the two ports linked?
    Probe,
    /// Link the two ports.
    Connect,
    /// Unlink the two ports.
    Disconnect,
}

/// A request to the audio server about the ports of one connection.
pub struct Request {
    pub kind: RequestKind,
    pub ports: PortConnection,
}

impl View for Request {
    type V = (RequestKind, Pair);

    open spec fn view(&self) -> (RequestKind, Pair) {
        (self.kind, self.ports@)
    }
}

/// The audio server's answer to a request.
#[derive(Clone, Copy, Debug, PartialEq, Eq, Structural)]
pub enum Reply {
    /// The input port of the pair does not exist.
    NoSuchPort,
    /// The server could not say whether the ports are linked.
    QueryFailed,
    /// Whether the two ports are linked.
    Linked(bool),
    /// The server carried out the connect or disconnect request.
    Accepted,
    /// The server refused the connect or disconnect request.
    Refused,
}

/// A probe counts as "linked" only when the server says so; a missing port or a failed
/// query counts as "not linked".
pub open spec fn says_linked(reply: Reply) -> bool {
    reply == Reply::Linked(true)
}

/// A connect or disconnect request succeeded.
pub open spec fn says_accepted(reply: Reply) -> bool {
    reply == Reply::Accepted
}

/// How a server that holds the links `world` and carries out every request answers.
pub open spec fn answer(world: Set<Pair>, request: (RequestKind, Pair)) -> Reply {
    match request.0 {
        RequestKind::Probe => Reply::Linked(world.contains(request.1)),
        _ => Reply::Accepted,
    }
}

/// The links of such a server after it carried out `request`.
pub open spec fn apply(world: Set<Pair>, request: (RequestKind, Pair)) -> Set<Pair> {
    match request.0 {
        RequestKind::Probe => world,
        RequestKind::Connect => world.insert(request.1),
        RequestKind::Disconnect => world.remove(request.1),
    }
}

/// Where a connect, disconnect or toggle of one connection stands.
#[derive(Clone, Copy, Debug, PartialEq, Eq, Structural)]
pub enum LinkStep {
    /// A toggle asks whether the ports are linked.
    ToggleProbe,
    /// A connect asks whether the ports are linked already.
    ConnectProbe,
    /// A connect asks the server to link the ports.
    ConnectCall,
    /// A disconnect asks whether the ports are linked.
    DisconnectProbe,
    /// A disconnect asks the server to unlink the ports.
    DisconnectCall,
}

/// How the errors of an operation are worded.
#[derive(Clone, Copy, Debug, PartialEq, Eq, Structural)]
pub enum LinkMode {
    /// As a connect or disconnect words them.
    Plain,
    /// As a toggle words them.
    Toggle,
    /// As the start-up connect words them.
    Init,
}

pub open spec fn already_connected(name: Seq<char>) -> Seq<char> {
    "already connected "@ + name
}

pub open spec fn could_not_connect(name: Seq<char>) -> Seq<char> {
    "could not connect "@ + name
}

pub open spec fn already_disconnected(name: Seq<char>) -> Seq<char> {
    "already disconnected "@ + name
}

pub open spec fn could_not_disconnect(name: Seq<char>) -> Seq<char> {
    "could not disconnect "@ + name
}

pub open spec fn toggle_error(e: Seq<char>) -> Seq<char> {
    "Connection toggle: "@ + e
}

pub open spec fn init_error(e: Seq<char>) -> Seq<char> {
    "Init: "@ + e
}

/// The error `e` of a connect (`connecting`) or disconnect of the connection `name`, as
/// the operation in `mode` reports it.
pub open spec fn reported(mode: LinkMode, connecting: bool, e: Seq<char>, name: Seq<char>) -> Seq<
    char,
> {
    match mode {
        LinkMode::Plain => e,
        LinkMode::Toggle => if connecting {
            toggle_error(could_not_connect(name))
        } else {
            toggle_error(e)
        },
        LinkMode::Init => init_error(e),
    }
}

/// The request that `step` makes.
pub open spec fn step_kind(step: LinkStep) -> RequestKind {
    match step {
        LinkStep::ConnectCall => RequestKind::Connect,
        LinkStep::DisconnectCall => RequestKind::Disconnect,
        _ => RequestKind::Probe,
    }
}

/// What follows the answer `reply` to the request of `step`, for the connection `name`: the
/// next step, or (when there is none) the error the operation ends with, if any.
pub open spec fn link_advance(step: LinkStep, mode: LinkMode, name: Seq<char>, reply: Reply) -> (
    Option<LinkStep>,
    Option<Seq<char>>,
) {
    match step {
        LinkStep::ToggleProbe => if says_linked(reply) {
            (Some(LinkStep::DisconnectProbe), None)
        } else {
            (Some(LinkStep::ConnectProbe), None)
        },
        LinkStep::ConnectProbe => if says_linked(reply) {
            (None, Some(reported(mode, true, already_connected(name), name)))
        } else {
            (Some(LinkStep::ConnectCall), None)
        },
        LinkStep::ConnectCall => if says_accepted(reply) {
            (None, None)
        } else {
            (None, Some(reported(mode, true, could_not_connect(name), name)))
        },
        LinkStep::DisconnectProbe => if says_linked(reply) {
            (Some(LinkStep::DisconnectCall), None)
        } else {
            (None, Some(reported(mode, false, already_disconnected(name), name)))
        },
        LinkStep::DisconnectCall => if says_accepted(reply) {
            (None, None)
        } else {
            (None, Some(reported(mode, false, could_not_disconnect(name), name)))
        },
    }
}

/// The view of an optional message.
pub open spec fn message_view(m: Option<String>) -> Option<Seq<char>> {
    match m {
        Some(s) => Some(s@),
        None => None,
    }
}

/// `prefix` followed by `name`.
pub fn prefixed(prefix: &str, name: &String) -> (s: String)
    ensures
        s@ == prefix@ + name@,
{
    let mut s = String::from_str(prefix);
    s.append(name.as_str());
    s
}

/// The error `e` of a connect or disconnect of the connection `name`, worded for `mode`.
fn report(mode: LinkMode, connecting: bool, e: String, name: &String) -> (s: String)
    ensures
        s@ == reported(mode, connecting, e@, name@),
{
    match mode {
        LinkMode::Plain => e,
        LinkMode::Toggle => {
            if connecting {
                let mut s = String::from_str("Connection toggle: ");
                s.append(prefixed("could not connect ", name).as_str());
                s
            } else {
                let mut s = String::from_str("Connection toggle: ");
                s.append(e.as_str());
                s
            }
        },
        LinkMode::Init => {
            let mut s = String::from_str("Init: ");
            s.append(e.as_str());
            s
        },
    }
}

/// The step that follows the answer `reply` in an operation on the connection `name`, or the
/// error it ends with.
pub fn advance_link(step: LinkStep, mode: LinkMode, name: &String, reply: Reply) -> (r: (
    Option<LinkStep>,
    Option<String>,
))
    ensures
        r.0 == link_advance(step, mode, name@, reply).0,
        message_view(r.1) == link_advance(step, mode, name@, reply).1,
{
    let linked = reply == Reply::Linked(true);
    let accepted = reply == Reply::Accepted;
    match step {
        LinkStep::ToggleProbe => {
            if linked {
                (Some(LinkStep::DisconnectProbe), None)
            } else {
                (Some(LinkStep::ConnectProbe), None)
            }
        },
        LinkStep::ConnectProbe => {
            if linked {
                (None, Some(report(mode, true, prefixed("already connected ", name), name)))
            } else {
                (Some(LinkStep::ConnectCall), None)
            }
        },
        LinkStep::ConnectCall => {
            if accepted {
                (None, None)
            } else {
                (None, Some(report(mode, true, prefixed("could not connect ", name), name)))
            }
        },
        LinkStep::DisconnectProbe => {
            if linked {
                (Some(LinkStep::DisconnectCall), None)
            } else {
                (None, Some(report(mode, false, prefixed("already disconnected ", name), name)))
            }
        },
        LinkStep::DisconnectCall => {
            if accepted {
                (None, None)
            } else {
                (None, Some(report(mode, false, prefixed("could not disconnect ", name), name)))
            }
        },
    }
}

/// The request that `step` makes about `ports`.
pub fn step_request(step: LinkStep, ports: &PortConnection) -> (r: Request)
    ensures
        r@ == (step_kind(step), ports@),
{
    let kind = match step {
        LinkStep::ConnectCall => RequestKind::Connect,
        LinkStep::DisconnectCall => RequestKind::Disconnect,
        _ => RequestKind::Probe,
    };
    Request { kind, ports: ports.duplicate() }
}

} // verus!
