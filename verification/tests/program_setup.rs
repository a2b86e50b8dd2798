use std::collections::HashSet;

use jackmute::config::config::Config;
use jackmute::config::data::{ConfigAttribute, ConfigFile, ConfigGroup};
use jackmute::connections::changeable_connection::ChangeableConnection;
use jackmute::connections::connection::Connection;
use jackmute::connections::connection_switch::ConnectionSwitch;
use jackmute::connections::link::{Reply, RequestKind};
use jackmute::program::{
    get_connections, get_muteable_connections, get_switchable_connections, init_connections, read_command,
};
use jackmute::status::StatusRun;

fn group(name: &str, attributes: &[(&str, &str)]) -> ConfigGroup {
    ConfigGroup {
        name: name.to_string(),
        attributes: attributes.iter().map(|(n, v)| ConfigAttribute::new(n, v)).collect(),
    }
}

fn connection_group(name: &str, init: &str, out: &str, inp: &str) -> ConfigGroup {
    group(name, &[("name", init_name(name)), ("connect_init", init), ("port_out", out), ("port_in", inp)])
}

fn init_name(group_name: &str) -> &str {
    match group_name {
        "connections1" => "mikrofon -> 1lt_jackmute",
        "connections2" => "jackmute_mikrofon -> ardour_standard",
        "connections3" => "1lt_jackmute -> ardour_effect1",
        _ => "1lt_jackmute -> ardour_effect2",
    }
}

fn config() -> Config {
    Config::new(
        "1lt_jackmute",
        "0.1.0",
        ConfigFile {
            config_groups: vec![
                connection_group("connections1", "false", "rode:capture_1", "1lt_jackmute:mikro_in"),
                connection_group("connections2", "true", "1lt_jackmute:mikro_out", "ardour:standard"),
                connection_group("connections3", "false", "1lt_jackmute:mikro_out", "ardour:effect1"),
                connection_group("connections4", "true", "1lt_jackmute:mikro_out", "ardour:effect2"),
                group("muteable_connection1", &[("connection", "mikrofon -> 1lt_jackmute"), ("shortcut", "m")]),
                group(
                    "switchable_connection1",
                    &[
                        ("default", "jackmute_mikrofon -> ardour_standard"),
                        ("connection1", "1lt_jackmute -> ardour_effect1"),
                        ("shortcut1", "1"),
                        ("connection2", "1lt_jackmute -> ardour_effect2"),
                        ("shortcut2", "2"),
                    ],
                ),
            ],
        },
    )
}

#[test]
fn connections_link_port_in_to_port_out() {
    let cs = get_connections(&config());
    assert_eq!(cs.len(), 4);
    assert_eq!(cs[0].name, "mikrofon -> 1lt_jackmute");
    assert!(!cs[0].init_connected);
    assert_eq!(cs[0].port_connections.audio_in, "1lt_jackmute:mikro_in");
    assert_eq!(cs[0].port_connections.audio_out, "rode:capture_1");
    assert!(cs[1].init_connected);
}

#[test]
fn muteable_and_switchable_take_connections_by_name() {
    let c = config();
    let cs = get_connections(&c);
    let ms = get_muteable_connections(&c, &cs);
    assert_eq!(ms.len(), 1);
    assert_eq!(ms[0].shortcut, 'm');
    assert_eq!(ms[0].connection.port_connections.audio_out, "rode:capture_1");
    let sws = get_switchable_connections(&c, &cs);
    assert_eq!(sws.len(), 1);
    assert_eq!(sws[0].standard.name, "jackmute_mikrofon -> ardour_standard");
    assert_eq!(sws[0].connections.len(), 2);
    assert_eq!(sws[0].connections[1].shortcut, '2');
    assert_eq!(sws[0].connections[1].connection.port_connections.audio_in, "ardour:effect2");
}

#[test]
fn init_connections_links_start_up_connections() {
    let cs = get_connections(&config());
    let mut world: HashSet<(String, String)> = HashSet::new();
    world.insert(("ardour:standard".to_string(), "1lt_jackmute:mikro_out".to_string()));
    let mut run = init_connections(&cs);
    while let Some(req) = run.request() {
        let p = (req.ports.audio_in.clone(), req.ports.audio_out.clone());
        let reply = match req.kind {
            RequestKind::Probe => Reply::Linked(world.contains(&p)),
            RequestKind::Connect => {
                world.insert(p);
                Reply::Accepted
            }
            RequestKind::Disconnect => {
                world.remove(&p);
                Reply::Accepted
            }
        };
        run.reply(reply);
    }
    assert_eq!(run.errors().clone(), vec!["Init: already connected jackmute_mikrofon -> ardour_standard".to_string()]);
    assert!(world.contains(&("ardour:effect2".to_string(), "1lt_jackmute:mikro_out".to_string())));
    assert!(!world.contains(&("1lt_jackmute:mikro_in".to_string(), "rode:capture_1".to_string())));
    assert_eq!(world.len(), 2);
}

#[test]
fn commands_of_one_or_two_bytes() {
    let c = read_command(&"m\n".to_string());
    assert!(c.handle && !c.exit);
    let c = read_command(&"e\n".to_string());
    assert!(c.handle && c.exit);
    let c = read_command(&"e".to_string());
    assert!(c.handle && c.exit);
    let c = read_command(&"".to_string());
    assert!(!c.handle && !c.exit);
    let c = read_command(&"me\n".to_string());
    assert!(!c.handle && !c.exit);
    let c = read_command(&"é".to_string());
    assert!(c.handle && !c.exit);
    let c = read_command(&"é\n".to_string());
    assert!(!c.handle);
}

#[test]
fn status_screen_shows_every_connection() {
    let c = config();
    let cs = get_connections(&c);
    let ms: Vec<ChangeableConnection> = get_muteable_connections(&c, &cs);
    let sws: Vec<ConnectionSwitch> = get_switchable_connections(&c, &cs);
    let mut status = StatusRun::new(&ms, &sws);
    let mut asked = Vec::new();
    let linked = ["ardour:effect2".to_string()];
    while let Some(req) = status.request() {
        assert!(req.kind == RequestKind::Probe);
        asked.push(req.ports.audio_in.clone());
        status.reply(Reply::Linked(linked.contains(&req.ports.audio_in)));
    }
    assert!(status.is_done());
    assert_eq!(asked, vec!["1lt_jackmute:mikro_in", "ardour:effect1", "ardour:effect2"]);
    let lines = status.print_status(&c.program_name(), &c.program_version(), &vec!["boom".to_string()]);
    assert_eq!(
        lines,
        vec![
            "1lt_jackmute 0.1.0\n",
            "Muteable:",
            "mikrofon -> 1lt_jackmute: muted",
            "",
            "Switchable:",
            "1lt_jackmute -> ardour_effect1: inactive",
            "1lt_jackmute -> ardour_effect2: active",
            "",
            "\n errors:",
            "boom",
        ]
    );
}

#[test]
fn status_screen_without_connections_or_errors() {
    let status = StatusRun::new(&Vec::new(), &Vec::new());
    assert!(status.request().is_none());
    let lines = status.print_status(&"p".to_string(), &"v".to_string(), &Vec::new());
    assert_eq!(lines, vec!["p v\n"]);
}

#[test]
fn status_screen_counts_unanswered_as_not_linked() {
    let m = ChangeableConnection::new(
        'm',
        Connection::new("mic", false, jackmute::connections::port_connection::PortConnection::new("a", "b")),
    );
    let sw = ConnectionSwitch { standard: m.connection.duplicate(), connections: vec![] };
    let mut status = StatusRun::new(&vec![m], &vec![sw]);
    assert!(!status.is_done());
    status.reply(Reply::Linked(true));
    assert!(status.is_done());
    let lines = status.print_status(&"p".to_string(), &"v".to_string(), &Vec::new());
    assert_eq!(lines, vec!["p v\n", "Muteable:", "mic: unmuted", "", "Switchable:"]);
}
