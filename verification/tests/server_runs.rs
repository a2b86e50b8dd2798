use std::collections::HashSet;

use jackmute::connections::changeable_connection::ChangeableConnection;
use jackmute::connections::connection::Connection;
use jackmute::connections::connection_switch::{ConnectionSwitch, SwitchRun};
use jackmute::connections::link::{Reply, Request, RequestKind};
use jackmute::connections::link_run::LinkRun;
use jackmute::connections::port_connection::PortConnection;

type World = HashSet<(String, String)>;

fn conn(name: &str, audio_in: &str, audio_out: &str, init: bool) -> Connection {
    Connection::new(name, init, PortConnection::new(audio_in, audio_out))
}

fn pair(c: &Connection) -> (String, String) {
    (c.port_connections.audio_in.clone(), c.port_connections.audio_out.clone())
}

/// An audio server that answers from `world` and carries out every request.
fn obey(world: &mut World, req: &Request) -> Reply {
    let p = (req.ports.audio_in.clone(), req.ports.audio_out.clone());
    match req.kind {
        RequestKind::Probe => Reply::Linked(world.contains(&p)),
        RequestKind::Connect => {
            world.insert(p);
            Reply::Accepted
        }
        RequestKind::Disconnect => {
            world.remove(&p);
            Reply::Accepted
        }
    }
}

fn drive_links(run: &mut LinkRun, world: &mut World) -> usize {
    let mut requests = 0;
    while let Some(req) = run.request() {
        let reply = obey(world, &req);
        run.reply(reply);
        requests += 1;
    }
    requests
}

fn drive_switch(run: &mut SwitchRun, world: &mut World) -> usize {
    let mut requests = 0;
    while let Some(req) = run.request() {
        let reply = obey(world, &req);
        run.reply(reply);
        requests += 1;
    }
    requests
}

/// Answers the requests of `run` with `replies`, in order, and gives back the requests.
fn scripted(run: &mut LinkRun, replies: &[Reply]) -> Vec<RequestKind> {
    let mut kinds = Vec::new();
    for r in replies {
        let req = run.request().expect("a pending request");
        kinds.push(req.kind);
        run.reply(*r);
    }
    assert!(run.is_done());
    kinds
}

fn muteables() -> Vec<ChangeableConnection> {
    vec![
        ChangeableConnection::new('m', conn("mikrofon -> 1lt_jackmute", "rode:capture_1", "1lt_jackmute:mikro_in", false)),
        ChangeableConnection::new('s', conn("system_L", "ardour:out_l", "1lt_jackmute:system_in_l", true)),
        ChangeableConnection::new('s', conn("system_R", "ardour:out_r", "1lt_jackmute:system_in_r", true)),
    ]
}

#[test]
fn toggle_flips_the_typed_connections() {
    let ms = muteables();
    let mut world = World::new();
    world.insert(pair(&ms[1].connection));
    let mut run = ChangeableConnection::toggle(&ms, &"s\n".to_string());
    let requests = drive_links(&mut run, &mut world);
    assert_eq!(requests, 6);
    assert_eq!(run.result(), Ok(()));
    assert!(!world.contains(&pair(&ms[0].connection)));
    assert!(!world.contains(&pair(&ms[1].connection)));
    assert!(world.contains(&pair(&ms[2].connection)));
}

#[test]
fn toggle_twice_restores_the_links() {
    let ms = muteables();
    let mut world = World::new();
    world.insert(pair(&ms[0].connection));
    world.insert(("a".to_string(), "b".to_string()));
    let before = world.clone();
    for _ in 0..2 {
        let mut run = ChangeableConnection::toggle(&ms, &"ms".to_string());
        drive_links(&mut run, &mut world);
        assert_eq!(run.result(), Ok(()));
    }
    assert_eq!(world, before);
}

#[test]
fn toggle_without_typed_shortcut_asks_nothing() {
    let ms = muteables();
    let run = ChangeableConnection::toggle(&ms, &"x\n".to_string());
    assert!(run.request().is_none());
    assert!(run.is_done());
    assert_eq!(run.result(), Ok(()));
}

#[test]
fn toggle_reports_each_failure() {
    let ms = muteables();
    let mut run = ChangeableConnection::toggle(&ms, &"ms".to_string());
    // first: linked, then gone before the disconnect; second: refused connect; third: refused disconnect
    scripted(
        &mut run,
        &[
            Reply::Linked(true),
            Reply::Linked(false),
            Reply::NoSuchPort,
            Reply::QueryFailed,
            Reply::Refused,
            Reply::Linked(true),
            Reply::Linked(true),
            Reply::Refused,
        ],
    );
    assert_eq!(
        run.result(),
        Err(vec![
            "Connection toggle: already disconnected mikrofon -> 1lt_jackmute".to_string(),
            "Connection toggle: could not connect system_L".to_string(),
            "Connection toggle: could not disconnect system_R".to_string(),
        ])
    );
}

#[test]
fn toggle_connection_words_a_connect_failure() {
    let c = ChangeableConnection::new('m', conn("mic", "a", "b", false));
    let mut run = c.toggle_connection();
    let kinds = scripted(&mut run, &[Reply::Linked(false), Reply::Linked(true)]);
    assert_eq!(kinds, vec![RequestKind::Probe, RequestKind::Probe]);
    assert_eq!(run.outcome(), Err("Connection toggle: could not connect mic".to_string()));
}

#[test]
fn connect_and_disconnect_outcomes() {
    let c = conn("mic", "a", "b", false);
    let mut run = c.connect();
    let kinds = scripted(&mut run, &[Reply::Linked(false), Reply::Accepted]);
    assert_eq!(kinds, vec![RequestKind::Probe, RequestKind::Connect]);
    assert_eq!(run.outcome(), Ok(()));

    let mut run = c.connect();
    scripted(&mut run, &[Reply::Linked(true)]);
    assert_eq!(run.outcome(), Err("already connected mic".to_string()));

    let mut run = c.connect();
    scripted(&mut run, &[Reply::NoSuchPort, Reply::Refused]);
    assert_eq!(run.outcome(), Err("could not connect mic".to_string()));

    let mut run = c.disconnect();
    let kinds = scripted(&mut run, &[Reply::Linked(true), Reply::Accepted]);
    assert_eq!(kinds, vec![RequestKind::Probe, RequestKind::Disconnect]);
    assert_eq!(run.outcome(), Ok(()));

    let mut run = c.disconnect();
    scripted(&mut run, &[Reply::QueryFailed]);
    assert_eq!(run.outcome(), Err("already disconnected mic".to_string()));

    let mut run = c.disconnect();
    scripted(&mut run, &[Reply::Linked(true), Reply::Refused]);
    assert_eq!(run.outcome(), Err("could not disconnect mic".to_string()));
}

#[test]
fn init_connects_only_start_up_connections() {
    let off = conn("off", "x", "y", false);
    let run = off.init();
    assert!(run.request().is_none());
    assert_eq!(run.outcome(), Ok(()));

    let on = conn("on", "x", "y", true);
    let mut run = on.init();
    scripted(&mut run, &[Reply::Linked(true)]);
    assert_eq!(run.outcome(), Err("Init: already connected on".to_string()));

    let mut run = on.init();
    scripted(&mut run, &[Reply::Linked(false), Reply::Refused]);
    assert_eq!(run.outcome(), Err("Init: could not connect on".to_string()));
}

#[test]
fn probe_and_connected() {
    let c = conn("mic", "in_port", "out_port", false);
    let q = c.probe();
    assert!(q.kind == RequestKind::Probe);
    assert_eq!(q.ports.audio_in, "in_port");
    assert_eq!(q.ports.audio_out, "out_port");
    assert!(Connection::connected(Reply::Linked(true)));
    assert!(!Connection::connected(Reply::Linked(false)));
    assert!(!Connection::connected(Reply::NoSuchPort));
    assert!(!Connection::connected(Reply::QueryFailed));
    assert!(!Connection::connected(Reply::Accepted));
}

#[test]
fn find_connection_by_name_takes_the_first() {
    let cs = vec![conn("a", "1", "2", false), conn("b", "3", "4", false), conn("b", "5", "6", true)];
    let found = Connection::find_connection_by_name("b", &cs);
    assert_eq!(found.name, "b");
    assert_eq!(found.port_connections.audio_in, "3");
    assert!(!found.init_connected);
    let copy = found.duplicate();
    assert_eq!(copy.port_connections.audio_out, "4");
}

fn readme_switch() -> ConnectionSwitch {
    let alt = |i: u8| {
        ChangeableConnection::new(
            char::from(b'0' + i),
            conn(&format!("1lt_jackmute -> ardour_effect{}", i), "1lt_jackmute:mikro_out", &format!("ardour:effect{}", i), false),
        )
    };
    ConnectionSwitch {
        standard: conn("jackmute_mikrofon -> ardour_standard", "1lt_jackmute:mikro_out", "ardour:standard", true),
        connections: vec![alt(1), alt(2), alt(3), alt(4)],
    }
}

#[test]
fn switch_links_the_pressed_alternative_in_place_of_the_default() {
    let sw = readme_switch();
    let mut world = World::new();
    world.insert(pair(&sw.standard));
    let switches = vec![sw.duplicate()];
    let mut run = ConnectionSwitch::switch(&switches, &"2\n".to_string());
    drive_switch(&mut run, &mut world);
    assert_eq!(run.result(), Ok(()));
    assert!(!world.contains(&pair(&sw.standard)));
    for (i, alt) in sw.connections.iter().enumerate() {
        assert_eq!(world.contains(&pair(&alt.connection)), i == 1);
    }
}

#[test]
fn switch_pressed_twice_restores_the_default() {
    let sw = readme_switch();
    let mut world = World::new();
    world.insert(pair(&sw.standard));
    let switches = vec![sw.duplicate()];
    for _ in 0..2 {
        let mut run = ConnectionSwitch::switch(&switches, &"3".to_string());
        drive_switch(&mut run, &mut world);
        assert_eq!(run.result(), Ok(()));
    }
    let mut expected = World::new();
    expected.insert(pair(&sw.standard));
    assert_eq!(world, expected);
}

#[test]
fn switch_moves_from_one_alternative_to_another() {
    let sw = readme_switch();
    let mut world = World::new();
    world.insert(pair(&sw.connections[0].connection));
    world.insert(("other".to_string(), "pair".to_string()));
    let switches = vec![sw.duplicate()];
    let mut run = ConnectionSwitch::switch(&switches, &"4".to_string());
    let requests = drive_switch(&mut run, &mut world);
    assert_eq!(requests, 1 + 1 + 4 + 3 + 3);
    assert!(run.errors().is_empty());
    let mut expected = World::new();
    expected.insert(pair(&sw.connections[3].connection));
    expected.insert(("other".to_string(), "pair".to_string()));
    assert_eq!(world, expected);
}

#[test]
fn switch_without_pressed_shortcut_asks_nothing() {
    let switches = vec![readme_switch()];
    let run = ConnectionSwitch::switch(&switches, &"m\n".to_string());
    assert!(run.is_done());
    assert!(run.request().is_none());
    assert_eq!(run.result(), Ok(()));
}

#[test]
fn switch_reports_failures_in_order() {
    let switches = vec![readme_switch()];
    let mut run = ConnectionSwitch::switch(&switches, &"1".to_string());
    // pressed alternative not linked; default linked but its disconnect is refused
    let replies = [Reply::Linked(false), Reply::Linked(true), Reply::Linked(true), Reply::Refused];
    for r in replies {
        assert!(run.request().is_some());
        run.reply(r);
    }
    // the sweep finds no alternative linked
    for _ in 0..4 {
        let q = run.request().unwrap();
        assert!(q.kind == RequestKind::Probe);
        run.reply(Reply::Linked(false));
    }
    // the pressed alternative is toggled on, but the server refuses
    run.reply(Reply::Linked(false));
    run.reply(Reply::Linked(false));
    let q = run.request().unwrap();
    assert!(q.kind == RequestKind::Connect);
    assert_eq!(q.ports.audio_out, "ardour:effect1");
    run.reply(Reply::Refused);
    assert!(run.is_done());
    assert_eq!(
        run.result(),
        Err(vec![
            "could not disconnect jackmute_mikrofon -> ardour_standard".to_string(),
            "Connection toggle: could not connect 1lt_jackmute -> ardour_effect1".to_string(),
        ])
    );
}

#[test]
fn replies_after_the_end_change_nothing() {
    let ms = muteables();
    let mut run = ChangeableConnection::toggle(&ms, &"".to_string());
    run.reply(Reply::Refused);
    assert_eq!(run.result(), Ok(()));
    let switches = vec![readme_switch()];
    let mut run = ConnectionSwitch::switch(&switches, &"".to_string());
    run.reply(Reply::Refused);
    assert_eq!(run.result(), Ok(()));
}
