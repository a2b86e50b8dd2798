use vstd::prelude::*;
use crate::config::config::{Config, parse_all, groups_containing, views};
use crate::config::connection::Connection as ConnectionDef;
use crate::config::muteable_connections::MuteableConnection;
use crate::config::switchable_connections::SwitchableConnection;
use crate::connections::port_connection::PortConnection;
use crate::connections::connection::{Connection, ConnectionView, first_named};
use crate::connections::changeable_connection::ChangeableConnection;
use crate::connections::connection_switch::ConnectionSwitch;
use crate::connections::link::{LinkMode, LinkStep};
use crate::connections::link_run::{LinkRun, LinkRunView, connection_views};
use crate::text::contains_char;
use crate::connections::link::Pair;
use crate::connections::server_model::{drive_links, law_init_connects, law_init_links};

verus! {

/// The connection that a `connections` group defines: audio comes from its `port_out` and
/// goes into its `port_in`, which the connection holds as `audio_in`.
pub open spec fn connection_from_def(def: (Seq<char>, bool, Seq<char>, Seq<char>)) -> ConnectionView {
    (def.0, def.1, (def.3, def.2))
}

/// The connections with the start-up flag, in order.
pub open spec fn started(connections: Seq<ConnectionView>) -> Seq<ConnectionView>
    decreases connections.len(),
{
    if connections.len() == 0 {
        Seq::empty()
    } else {
        let before = started(connections.drop_last());
        if connections.last().1 {
            before.push(connections.last())
        } else {
            before
        }
    }
}

/// The connection called `name` among `connections`, as a value.
pub open spec fn named(connections: Seq<Connection>, name: Seq<char>) -> ConnectionView {
    connections[first_named(connections, name)]@
}

/// Some connection is called `name`.
pub open spec fn has_named(connections: Seq<Connection>, name: Seq<char>) -> bool {
    exists|i: int| 0 <= i < connections.len() && connections[i].name@ == name
}

/// The connections that the config file defines, in file order.
pub fn get_connections(config: &Config) -> (r: Vec<Connection>)
    requires
        parse_all::<ConnectionDef>(groups_containing(config.groups(), "connections"@)) is Ok,
    ensures
        parse_all::<ConnectionDef>(groups_containing(config.groups(), "connections"@)) == Ok::<
            Seq<(Seq<char>, bool, Seq<char>, Seq<char>)>,
            Seq<char>,
        >(views(r@).map_values(|c: ConnectionView| (c.0, c.1, c.2.1, c.2.0))),
        forall|i: int|
            0 <= i < r@.len() ==> #[trigger] r@[i]@ == connection_from_def(
                parse_all::<ConnectionDef>(groups_containing(config.groups(), "connections"@))->Ok_0[i],
            ),
{
    let connections_def = config.get_connections();
    let mut connections: Vec<Connection> = Vec::new();
    let mut i: usize = 0;
    while i < connections_def.len()
        invariant
            i <= connections_def.len(),
            connections.len() == i,
            forall|j: int|
                0 <= j < i ==> #[trigger] connections@[j]@ == connection_from_def(connections_def@[j]@),
        decreases connections_def.len() - i,
    {
        let def = &connections_def[i];
        connections.push(
            Connection::new(
                def.name.as_str(),
                def.connect_init,
                PortConnection::new(def.port_in.as_str(), def.port_out.as_str()),
            ),
        );
        i = i + 1;
    }
    assert(views(connections@).map_values(|c: ConnectionView| (c.0, c.1, c.2.1, c.2.0)) =~= views(
        connections_def@,
    ));
    connections
}

/// The connections run at start-up are exactly those whose start-up flag is set, in their
/// order.
pub proof fn law_started_is_filter(connections: Seq<ConnectionView>)
    ensures
        started(connections) == connections.filter(|c: ConnectionView| c.1),
    decreases connections.len(),
{
    reveal(Seq::filter);
    if connections.len() > 0 {
        law_started_is_filter(connections.drop_last());
    }
}

/// Some connection of `started(connections)` links `q` exactly when some connection with the
/// start-up flag does.
proof fn lemma_started_pairs(connections: Seq<ConnectionView>, q: Pair)
    ensures
        (exists|j: int| 0 <= j < started(connections).len() && (#[trigger] started(connections)[j]).2 == q)
            == (exists|i: int| 0 <= i < connections.len() && (#[trigger] connections[i]).1 && connections[i].2 == q),
    decreases connections.len(),
{
    if connections.len() > 0 {
        let rest = connections.drop_last();
        let last = connections.last();
        lemma_started_pairs(rest, q);
        let before = started(rest);
        let now = started(connections);
        if exists|j: int| 0 <= j < now.len() && (#[trigger] now[j]).2 == q {
            let j = choose|j: int| 0 <= j < now.len() && (#[trigger] now[j]).2 == q;
            if j < before.len() {
                assert(now[j] == before[j]);
                assert(before[j].2 == q);
                let i = choose|i: int| 0 <= i < rest.len() && (#[trigger] rest[i]).1 && rest[i].2 == q;
                assert(connections[i] == rest[i]);
            } else {
                assert(now[j] == last);
                assert(connections[connections.len() - 1] == last);
            }
        }
        if exists|i: int| 0 <= i < connections.len() && (#[trigger] connections[i]).1 && connections[i].2 == q {
            let i = choose|i: int| 0 <= i < connections.len() && (#[trigger] connections[i]).1 && connections[i].2 == q;
            if i < connections.len() - 1 {
                assert(rest[i] == connections[i]);
                let j = choose|j: int| 0 <= j < before.len() && (#[trigger] before[j]).2 == q;
                assert(now[j] == before[j]);
            } else {
                assert(now[now.len() - 1] == last);
            }
        }
    }
}

/// The start-up run links every connection whose start-up flag is set and nothing else:
/// against an obedient server that starts with `world`, the run `init_connections` gives
/// ends, and a pair is then linked exactly when it was linked before or some connection with
/// the start-up flag links it.
pub proof fn law_startup_links_init_connections(
    connections: Seq<ConnectionView>,
    world: Set<Pair>,
    fuel: nat,
    q: Pair,
)
    requires
        fuel >= 2 * connections.len(),
    ensures
        ({
            let (end, after) = drive_links(
                LinkRunView::start(started(connections), LinkMode::Init, LinkStep::ConnectProbe),
                world,
                fuel,
            );
            &&& !end.pending()
            &&& after.contains(q) == (world.contains(q) || exists|i: int|
                0 <= i < connections.len() && (#[trigger] connections[i]).1 && connections[i].2 == q)
        }),
{
    law_started_is_filter(connections);
    connections.lemma_filter_len(|c: ConnectionView| c.1);
    law_init_connects(started(connections), world, fuel);
    law_init_links(world, started(connections), 0, q);
    lemma_started_pairs(connections, q);
}

/// The muteable connections that the config file defines, each with the first connection of
/// its name, which must exist.
pub fn get_muteable_connections(config: &Config, connections: &Vec<Connection>) -> (r: Vec<
    ChangeableConnection,
>)
    requires
        parse_all::<MuteableConnection>(groups_containing(config.groups(), "muteable_connection"@)) is Ok,
        forall|i: int|
            0 <= i < parse_all::<MuteableConnection>(
                groups_containing(config.groups(), "muteable_connection"@),
            )->Ok_0.len() ==> has_named(
                connections@,
                #[trigger] parse_all::<MuteableConnection>(
                    groups_containing(config.groups(), "muteable_connection"@),
                )->Ok_0[i].0,
            ),
    ensures
        ({
            let defs = parse_all::<MuteableConnection>(
                groups_containing(config.groups(), "muteable_connection"@),
            )->Ok_0;
            &&& r@.len() == defs.len()
            &&& forall|i: int|
                0 <= i < r@.len() ==> #[trigger] r@[i]@ == (defs[i].1, named(connections@, defs[i].0))
        }),
{
    let mcs_def = config.get_muteable_connections();
    let ghost defs = views(mcs_def@);
    assert forall|j: int| 0 <= j < defs.len() implies has_named(connections@, #[trigger] defs[j].0) by {
        assert(parse_all::<MuteableConnection>(
            groups_containing(config.groups(), "muteable_connection"@),
        )->Ok_0[j] == defs[j]);
    }
    let mut muteable_connections: Vec<ChangeableConnection> = Vec::new();
    let mut i: usize = 0;
    while i < mcs_def.len()
        invariant
            defs == views(mcs_def@),
            forall|j: int| 0 <= j < defs.len() ==> has_named(connections@, #[trigger] defs[j].0),
            i <= mcs_def.len(),
            muteable_connections.len() == i,
            forall|j: int|
                0 <= j < i ==> #[trigger] muteable_connections@[j]@ == (
                    defs[j].1,
                    named(connections@, defs[j].0),
                ),
        decreases mcs_def.len() - i,
    {
        assert(defs[i as int] == mcs_def@[i as int]@);
        assert(has_named(connections@, defs[i as int].0));
        let found = Connection::find_connection_by_name(mcs_def[i].connection.as_str(), connections);
        muteable_connections.push(ChangeableConnection::new(mcs_def[i].shortcut, found));
        i = i + 1;
    }
    muteable_connections
}

/// The switches that the config file defines, each made of the first connections of the
/// names it gives, which must exist.
pub fn get_switchable_connections(config: &Config, connections: &Vec<Connection>) -> (r: Vec<
    ConnectionSwitch,
>)
    requires
        parse_all::<SwitchableConnection>(
            groups_containing(config.groups(), "switchable_connection"@),
        ) is Ok,
        forall|i: int|
            0 <= i < parse_all::<SwitchableConnection>(
                groups_containing(config.groups(), "switchable_connection"@),
            )->Ok_0.len() ==> {
                let sc = #[trigger] parse_all::<SwitchableConnection>(
                    groups_containing(config.groups(), "switchable_connection"@),
                )->Ok_0[i];
                &&& has_named(connections@, sc.0)
                &&& forall|j: int| 0 <= j < sc.1.len() ==> has_named(connections@, #[trigger] sc.1[j].0)
            },
    ensures
        ({
            let defs = parse_all::<SwitchableConnection>(
                groups_containing(config.groups(), "switchable_connection"@),
            )->Ok_0;
            &&& r@.len() == defs.len()
            &&& forall|i: int|
                0 <= i < r@.len() ==> {
                    &&& (#[trigger] r@[i]@).0 == named(connections@, defs[i].0)
                    &&& r@[i]@.1.len() == defs[i].1.len()
                    &&& forall|j: int|
                        0 <= j < defs[i].1.len() ==> #[trigger] r@[i]@.1[j] == (
                            defs[i].1[j].1,
                            named(connections@, defs[i].1[j].0),
                        )
                }
        }),
{
    let scs_def = config.get_switchable_connections();
    let ghost defs = views(scs_def@);
    assert forall|i: int| 0 <= i < defs.len() implies {
        let sc = #[trigger] defs[i];
        &&& has_named(connections@, sc.0)
        &&& forall|j: int| 0 <= j < sc.1.len() ==> has_named(connections@, #[trigger] sc.1[j].0)
    } by {
        assert(parse_all::<SwitchableConnection>(
            groups_containing(config.groups(), "switchable_connection"@),
        )->Ok_0[i] == defs[i]);
    }
    let mut switchable_connections: Vec<ConnectionSwitch> = Vec::new();
    let mut s: usize = 0;
    while s < scs_def.len()
        invariant
            defs == views(scs_def@),
            forall|i: int|
                0 <= i < defs.len() ==> {
                    let sc = #[trigger] defs[i];
                    &&& has_named(connections@, sc.0)
                    &&& forall|j: int|
                        0 <= j < sc.1.len() ==> has_named(connections@, #[trigger] sc.1[j].0)
                },
            s <= scs_def.len(),
            switchable_connections.len() == s,
            forall|i: int|
                0 <= i < s ==> {
                    &&& (#[trigger] switchable_connections@[i]@).0 == named(connections@, defs[i].0)
                    &&& switchable_connections@[i]@.1.len() == defs[i].1.len()
                    &&& forall|j: int|
                        0 <= j < defs[i].1.len() ==> #[trigger] switchable_connections@[i]@.1[j] == (
                            defs[i].1[j].1,
                            named(connections@, defs[i].1[j].0),
                        )
                },
        decreases scs_def.len() - s,
    {
        let sc_def = &scs_def[s];
        let ghost sc = defs[s as int];
        assert(sc == sc_def@);
        let mcs_def = &sc_def.connections;
        let mut muteable_connections: Vec<ChangeableConnection> = Vec::new();
        let mut i: usize = 0;
        while i < mcs_def.len()
            invariant
                sc == sc_def@,
                mcs_def == &sc_def.connections,
                forall|j: int| 0 <= j < sc.1.len() ==> has_named(connections@, #[trigger] sc.1[j].0),
                i <= mcs_def.len(),
                muteable_connections.len() == i,
                forall|j: int|
                    0 <= j < i ==> #[trigger] muteable_connections@[j]@ == (
                        sc.1[j].1,
                        named(connections@, sc.1[j].0),
                    ),
            decreases mcs_def.len() - i,
        {
            assert(sc.1[i as int] == mcs_def@[i as int]@);
            assert(has_named(connections@, sc.1[i as int].0));
            let found = Connection::find_connection_by_name(
                mcs_def[i].connection.as_str(),
                connections,
            );
            muteable_connections.push(ChangeableConnection::new(mcs_def[i].shortcut, found));
            i = i + 1;
        }
        assert(has_named(connections@, sc.0));
        let standard = Connection::find_connection_by_name(sc_def.default.as_str(), connections);
        let switch = ConnectionSwitch { standard, connections: muteable_connections };
        assert(switch@.1.len() == sc.1.len());
        assert forall|j: int| 0 <= j < sc.1.len() implies #[trigger] switch@.1[j] == (
            sc.1[j].1,
            named(connections@, sc.1[j].0),
        ) by {
            assert(switch@.1[j] == switch.connections@[j]@);
        }
        switchable_connections.push(switch);
        s = s + 1;
    }
    switchable_connections
}

/// Connects, in order, each connection that is made at start-up.
pub fn init_connections(connections: &Vec<Connection>) -> (r: LinkRun)
    ensures
        r@ == LinkRunView::start(
            started(connection_views(connections@)),
            LinkMode::Init,
            LinkStep::ConnectProbe,
        ),
{
    let mut links: Vec<Connection> = Vec::new();
    let mut i: usize = 0;
    assert(connection_views(connections@).take(0) =~= Seq::<ConnectionView>::empty());
    assert(connection_views(links@) =~= Seq::<ConnectionView>::empty());
    while i < connections.len()
        invariant
            i <= connections.len(),
            connection_views(links@) == started(connection_views(connections@).take(i as int)),
        decreases connections.len() - i,
    {
        let ghost all = connection_views(connections@);
        assert(all.take(i + 1).drop_last() =~= all.take(i as int));
        assert(all.take(i + 1).last() == connections@[i as int]@);
        let ghost before = links@;
        if connections[i].init_connected {
            links.push(connections[i].duplicate());
            assert(connection_views(links@) =~= connection_views(before).push(connections@[i as int]@));
        }
        i = i + 1;
    }
    assert(connection_views(connections@).take(connections.len() as int) =~= connection_views(
        connections@,
    ));
    LinkRun::new(links, LinkMode::Init, LinkStep::ConnectProbe)
}

/// What the server loop does with one line of user input.
#[derive(Clone, Copy, Debug, PartialEq, Eq, Structural)]
pub struct Command {
    /// The line is one or two bytes long, and its shortcuts are acted on.
    pub handle: bool,
    /// The line asks the program to stop.
    pub exit: bool,
}

/// A line of one or two bytes is acted on; in such a line, `e` stops the program.
pub fn read_command(user_input: &String) -> (r: Command)
    ensures
        r.handle == (1 <= (vstd::utf8::encode_utf8(user_input@).len() as usize) <= 2),
        r.exit == (r.handle && user_input@.contains('e')),
{
    let bytes = user_input.as_str().len();
    let handle = bytes <= 2 && bytes >= 1;
    let exit = handle && contains_char(user_input.as_str(), 'e');
    Command { handle, exit }
}

} // verus!
