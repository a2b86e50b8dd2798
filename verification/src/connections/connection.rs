use vstd::prelude::*;
use crate::connections::port_connection::PortConnection;
use crate::connections::link::{Reply, Request, RequestKind, LinkMode, LinkStep, step_request};
use crate::connections::link_run::{LinkRun, LinkRunView, connection_views};

verus! {

/// A named link between two ports, and whether it is made when the program starts.
#[derive(Clone)]
pub struct Connection {
    pub name: String,
    pub init_connected: bool,
    pub port_connections: PortConnection,
}

/// A connection as a value: its name, its start-up flag and its pair of ports.
pub type ConnectionView = (Seq<char>, bool, (Seq<char>, Seq<char>));

impl View for Connection {
    type V = ConnectionView;

    open spec fn view(&self) -> ConnectionView {
        (self.name@, self.init_connected, self.port_connections@)
    }
}

/// The index of the first connection called `name`.
pub open spec fn first_named(connections: Seq<Connection>, name: Seq<char>) -> int {
    choose|i: int|
        0 <= i < connections.len() && connections[i].name@ == name && forall|j: int|
            0 <= j < i ==> connections[j].name@ != name
}

impl Connection {
    pub fn new(pname: &str, pinit_connected: bool, pport_connections: PortConnection) -> (r: Connection)
        ensures
            r.name@ == pname@,
            r.init_connected == pinit_connected,
            r.port_connections == pport_connections,
    {
        Connection {
            name: String::from_str(pname),
            init_connected: pinit_connected,
            port_connections: pport_connections,
        }
    }

    /// A copy of the connection.
    pub fn duplicate(&self) -> (r: Connection)
        ensures
            r@ == self@,
    {
        Connection {
            name: self.name.clone(),
            init_connected: self.init_connected,
            port_connections: self.port_connections.duplicate(),
        }
    }

    /// A list that holds a copy of this connection only.
    pub fn alone(&self) -> (r: Vec<Connection>)
        ensures
            connection_views(r@) == connection_views(seq![*self]),
    {
        let mut r: Vec<Connection> = Vec::new();
        r.push(self.duplicate());
        assert(connection_views(r@) =~= connection_views(seq![*self]));
        r
    }

    /// The question whose answer says whether the ports of this connection are linked.
    pub fn probe(&self) -> (r: Request)
        ensures
            r@ == (RequestKind::Probe, self.port_connections@),
    {
        step_request(LinkStep::ConnectProbe, &self.port_connections)
    }

    /// Whether an answer to `probe` says the ports are linked: a missing port or a failed
    /// query count as not linked.
    pub fn connected(reply: Reply) -> (r: bool)
        ensures
            r == (reply == Reply::Linked(true)),
    {
        reply == Reply::Linked(true)
    }

    /// Links the ports, unless they are linked already.
    pub fn connect(&self) -> (r: LinkRun)
        ensures
            r@ == LinkRunView::start(connection_views(seq![*self]), LinkMode::Plain, LinkStep::ConnectProbe),
    {
        LinkRun::new(self.alone(), LinkMode::Plain, LinkStep::ConnectProbe)
    }

    /// Unlinks the ports, unless they are not linked.
    pub fn disconnect(&self) -> (r: LinkRun)
        ensures
            r@ == LinkRunView::start(connection_views(seq![*self]), LinkMode::Plain, LinkStep::DisconnectProbe),
    {
        LinkRun::new(self.alone(), LinkMode::Plain, LinkStep::DisconnectProbe)
    }

    /// Links the ports of a connection that is made at start-up; does nothing for another.
    pub fn init(&self) -> (r: LinkRun)
        ensures
            r@ == LinkRunView::start(
                if self.init_connected {
                    connection_views(seq![*self])
                } else {
                    Seq::empty()
                },
                LinkMode::Init,
                LinkStep::ConnectProbe,
            ),
    {
        let mut links: Vec<Connection> = Vec::new();
        if self.init_connected {
            links.push(self.duplicate());
        }
        proof {
            if self.init_connected {
                assert(connection_views(links@) =~= connection_views(seq![*self]));
            } else {
                assert(connection_views(links@) =~= Seq::<ConnectionView>::empty());
            }
        }
        LinkRun::new(links, LinkMode::Init, LinkStep::ConnectProbe)
    }

    /// A copy of the first connection called `name`, which must exist.
    pub fn find_connection_by_name(name: &str, connections: &Vec<Connection>) -> (r: Connection)
        requires
            exists|i: int| 0 <= i < connections@.len() && connections@[i].name@ == name@,
        ensures
            r@ == connections@[first_named(connections@, name@)]@,
    {
        let key = String::from_str(name);
        let mut i: usize = 0;
        while i < connections.len()
            invariant
                key@ == name@,
                i <= connections.len(),
                exists|k: int| i <= k < connections@.len() && connections@[k].name@ == name@,
                forall|j: int| 0 <= j < i ==> connections@[j].name@ != name@,
            decreases connections.len() - i,
        {
            if connections[i].name == key {
                assert(first_named(connections@, name@) == i);
                return connections[i].duplicate();
            }
            i = i + 1;
        }
        proof {
            let k = choose|k: int| i <= k < connections@.len() && connections@[k].name@ == name@;
        }
        connections[0].duplicate()
    }
}

} // verus!
