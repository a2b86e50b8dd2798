use jackmute::config::config::{Config, New};
use jackmute::config::connection::Connection;
use jackmute::config::data::{ConfigAttribute, ConfigFile, ConfigGroup};
use jackmute::config::muteable_connections::MuteableConnection;
use jackmute::config::ports::Ports;
use jackmute::config::switchable_connections::SwitchableConnection;

const PREFIX: &str = "Error while parsing ports from config file:";

fn group(name: &str, attributes: &[(&str, &str)]) -> ConfigGroup {
    ConfigGroup {
        name: name.to_string(),
        attributes: attributes.iter().map(|(n, v)| ConfigAttribute::new(n, v)).collect(),
    }
}

fn refusal<T: New>(g: &ConfigGroup) -> String {
    match T::parse(g) {
        Ok(_) => panic!("group {} was not refused", g.name),
        Err(e) => e,
    }
}

#[test]
fn ports_read_in_and_out() {
    let p = Ports::parse(&group("ports1", &[("in", "mikro_in"), ("out", "mikro_out")])).unwrap();
    assert_eq!(p.port_in, "mikro_in");
    assert_eq!(p.port_out, "mikro_out");
}

#[test]
fn ports_in_any_order() {
    let p = Ports::parse(&group("ports1", &[("out", "b"), ("in", "a")])).unwrap();
    assert_eq!(p.port_in, "a");
    assert_eq!(p.port_out, "b");
}

#[test]
fn ports_new_reads_an_accepted_group() {
    let p = Ports::new(group("ports2", &[("in", "system_in_l"), ("out", "system_out_l")]));
    assert_eq!(p.port_in, "system_in_l");
    assert_eq!(p.port_out, "system_out_l");
}

#[test]
fn ports_refused_for_attribute_count() {
    assert_eq!(
        refusal::<Ports>(&group("ports1", &[("in", "a")])),
        format!("{} There must be 2 attributes in the 'Ports' config group ports1", PREFIX)
    );
}

#[test]
fn ports_refused_for_attribute_names() {
    assert_eq!(
        refusal::<Ports>(&group("ports1", &[("in", "a"), ("in", "b")])),
        format!("{} Attribute names of Ports config group ports1 must be 'in' and 'out'", PREFIX)
    );
}

#[test]
fn connection_read_from_group() {
    let c = Connection::parse(&group(
        "connections2",
        &[
            ("name", "jackmute_mikrofon -> ardour_standard"),
            ("connect_init", "true"),
            ("port_out", "1lt_jackmute:mikro_out"),
            ("port_in", "ardour:RODE_Podcaster/audio_in 1"),
        ],
    ))
    .unwrap();
    assert_eq!(c.name, "jackmute_mikrofon -> ardour_standard");
    assert!(c.connect_init);
    assert_eq!(c.port_out, "1lt_jackmute:mikro_out");
    assert_eq!(c.port_in, "ardour:RODE_Podcaster/audio_in 1");
}

#[test]
fn connection_in_any_order() {
    let c = Connection::parse(&group(
        "connections1",
        &[("port_in", "i"), ("connect_init", "false"), ("name", "n"), ("port_out", "o")],
    ))
    .unwrap();
    assert_eq!(c.name, "n");
    assert!(!c.connect_init);
    assert_eq!(c.port_out, "o");
    assert_eq!(c.port_in, "i");
}

#[test]
fn connection_refused_for_connect_init_value() {
    let g = group(
        "connections1",
        &[("name", "n"), ("connect_init", "yes"), ("port_out", "o"), ("port_in", "i")],
    );
    assert_eq!(
        refusal::<Connection>(&g),
        format!("{} connect_init value of config group connections1 must be true or false", PREFIX)
    );
}

#[test]
fn connection_refused_for_attribute_names() {
    let g = group(
        "connections1",
        &[("name", "n"), ("connect_init", "true"), ("port_out", "o"), ("port", "i")],
    );
    assert_eq!(
        refusal::<Connection>(&g),
        format!(
            "{} Attribute names of 'Connection' config group connections1 must be name, connect_init, port_out and port_in",
            PREFIX
        )
    );
}

#[test]
fn connection_refused_for_attribute_count() {
    let g = group("connections1", &[("name", "n"), ("connect_init", "true")]);
    assert_eq!(
        refusal::<Connection>(&g),
        format!("{} There must be 4 attributes in the 'Connection' config group connections1", PREFIX)
    );
}

#[test]
fn muteable_read_from_group() {
    let m = MuteableConnection::parse(&group(
        "muteable_connection1",
        &[("connection", "mikrofon -> 1lt_jackmute"), ("shortcut", "m")],
    ))
    .unwrap();
    assert_eq!(m.connection, "mikrofon -> 1lt_jackmute");
    assert_eq!(m.shortcut, 'm');
    let m = MuteableConnection::parse(&group(
        "muteable_connection2",
        &[("shortcut", "s"), ("connection", "ardour_system_L -> 1lt_jackmute")],
    ))
    .unwrap();
    assert_eq!(m.connection, "ardour_system_L -> 1lt_jackmute");
    assert_eq!(m.shortcut, 's');
}

#[test]
fn muteable_refusals() {
    assert_eq!(
        refusal::<MuteableConnection>(&group("mc", &[("connection", "c"), ("shortcut", "mm")])),
        format!("{} 'MuteableConnection' config group mc shortcut value must be a single char", PREFIX)
    );
    assert_eq!(
        refusal::<MuteableConnection>(&group("mc", &[("connection", "c"), ("key", "m")])),
        format!(
            "{} Attribute names of 'MuteableConnection' config group mc must be connection and shortcut",
            PREFIX
        )
    );
    assert_eq!(
        refusal::<MuteableConnection>(&group("mc", &[("connection", "c")])),
        format!("{} There must be 2 attributes in the 'MuteableConnection' config group mc", PREFIX)
    );
}

#[test]
fn shortcut_char_is_a_single_character() {
    assert_eq!(MuteableConnection::get_shortcut_char(&"m".to_string()), Ok('m'));
    assert_eq!(MuteableConnection::get_shortcut_char(&"é".to_string()), Ok('é'));
    assert_eq!(MuteableConnection::get_shortcut_char(&"".to_string()), Err(()));
    assert_eq!(MuteableConnection::get_shortcut_char(&"ab".to_string()), Err(()));
}

fn readme_switch() -> ConfigGroup {
    group(
        "switchable_connection1",
        &[
            ("default", "jackmute_mikrofon -> ardour_standard"),
            ("connection1", "1lt_jackmute -> ardour_effect1"),
            ("shortcut1", "1"),
            ("connection2", "1lt_jackmute -> ardour_effect2"),
            ("shortcut2", "2"),
            ("connection3", "1lt_jackmute -> ardour_effect3"),
            ("shortcut3", "3"),
            ("connection4", "1lt_jackmute -> ardour_effect4"),
            ("shortcut4", "4"),
        ],
    )
}

#[test]
fn switchable_read_from_readme_example() {
    let s = SwitchableConnection::parse(&readme_switch()).unwrap();
    assert_eq!(s.default, "jackmute_mikrofon -> ardour_standard");
    assert_eq!(s.connections.len(), 4);
    for (i, m) in s.connections.iter().enumerate() {
        assert_eq!(m.connection, format!("1lt_jackmute -> ardour_effect{}", i + 1));
        assert_eq!(m.shortcut, char::from(b'1' + i as u8));
    }
}

#[test]
fn switchable_reads_a_default_with_one_pair() {
    let g = group("sw", &[("default", "d"), ("connection1", "c1"), ("shortcut1", "1")]);
    let s = SwitchableConnection::parse(&g).unwrap();
    assert_eq!(s.default, "d");
    assert_eq!(s.connections.len(), 1);
    assert_eq!(s.connections[0].connection, "c1");
    assert_eq!(s.connections[0].shortcut, '1');
    let n = SwitchableConnection::new(g);
    assert_eq!(n.default, "d");
    assert_eq!(n.connections.len(), 1);
}

#[test]
fn switchable_pairs_by_identifier() {
    let s = SwitchableConnection::parse(&group(
        "sw",
        &[
            ("shortcutb", "y"),
            ("connectiona", "A"),
            ("default", "D"),
            ("connectionb", "B"),
            ("shortcuta", "x"),
        ],
    ))
    .unwrap();
    assert_eq!(s.default, "D");
    assert_eq!(s.connections.len(), 2);
    assert_eq!(s.connections[0].connection, "A");
    assert_eq!(s.connections[0].shortcut, 'x');
    assert_eq!(s.connections[1].connection, "B");
    assert_eq!(s.connections[1].shortcut, 'y');
}

#[test]
fn switchable_refusals() {
    let words = |after: &str| format!("{} 'SwitchableConnection' config group sw{}", PREFIX, after);
    assert_eq!(
        refusal::<SwitchableConnection>(&group("sw", &[("default", "a"), ("connection1", "b")])),
        format!("{} There must be 2 attributes in the 'SwitchableConnection' config group sw", PREFIX)
    );
    assert_eq!(
        refusal::<SwitchableConnection>(&group(
            "sw",
            &[("default", "a"), ("connection1", "b"), ("shortcut1", "1"), ("x", "y")]
        )),
        format!("{} There must be 2 attributes in the 'SwitchableConnection' config group sw", PREFIX)
    );
    assert_eq!(
        refusal::<SwitchableConnection>(&group(
            "sw",
            &[("default", "a"), ("default", "b"), ("connection1", "c"), ("shortcut1", "1"), ("x", "y")]
        )),
        words(" must only have one default attribute")
    );
    assert_eq!(
        refusal::<SwitchableConnection>(&group(
            "sw",
            &[("default", "a"), ("connection", "c"), ("shortcut1", "1"), ("x", "y"), ("z", "w")]
        )),
        words(" connection attributes must have a identifier")
    );
    assert_eq!(
        refusal::<SwitchableConnection>(&group(
            "sw",
            &[("default", "a"), ("connection1", "c"), ("shortcut", "1"), ("x", "y"), ("z", "w")]
        )),
        words(" shortcut attributes must have a identifier")
    );
    assert_eq!(
        refusal::<SwitchableConnection>(&group(
            "sw",
            &[("default", "a"), ("connection1", "c"), ("shortcut2", "1"), ("x", "y"), ("z", "w")]
        )),
        words(" each connection must have a shortcut with identical identifier")
    );
    assert_eq!(
        refusal::<SwitchableConnection>(&group(
            "sw",
            &[("default", "a"), ("connection1", "c"), ("shortcut1", "12"), ("x", "y"), ("z", "w")]
        )),
        words(" shortcut values must be a single char")
    );
    assert_eq!(
        refusal::<SwitchableConnection>(&group(
            "sw",
            &[("fallback", "a"), ("connection1", "c"), ("shortcut1", "1"), ("x", "y"), ("z", "w")]
        )),
        format!(
            "{} Attribute names of 'SwitchableConnection' config group sw must be connection and shortcut",
            PREFIX
        )
    );
}

fn sample_file() -> ConfigFile {
    ConfigFile {
        config_groups: vec![
            group("ports1", &[("in", "mikro_in"), ("out", "mikro_out")]),
            group(
                "connections1",
                &[
                    ("name", "mikrofon -> 1lt_jackmute"),
                    ("connect_init", "false"),
                    ("port_out", "rode:capture_1"),
                    ("port_in", "1lt_jackmute:mikro_in"),
                ],
            ),
            group("ports2", &[("in", "system_in_l"), ("out", "system_out_l")]),
            group("muteable_connection1", &[("connection", "mikrofon -> 1lt_jackmute"), ("shortcut", "m")]),
            readme_switch(),
        ],
    }
}

#[test]
fn config_keeps_name_and_version() {
    let config = Config::new("1lt_jackmute", "0.1.0", sample_file());
    assert_eq!(config.program_name(), "1lt_jackmute");
    assert_eq!(config.program_version(), "0.1.0");
}

#[test]
fn config_groups_selected_by_name_in_file_order() {
    let config = Config::new("p", "v", sample_file());
    let names: Vec<String> = config.get_config_groups_contains("ports").iter().map(|g| g.name.clone()).collect();
    assert_eq!(names, vec!["ports1".to_string(), "ports2".to_string()]);
    let names: Vec<String> =
        config.get_config_groups_contains("connection").iter().map(|g| g.name.clone()).collect();
    assert_eq!(
        names,
        vec![
            "connections1".to_string(),
            "muteable_connection1".to_string(),
            "switchable_connection1".to_string()
        ]
    );
    assert_eq!(config.get_config_groups_contains("nothing").len(), 0);
}

#[test]
fn config_getters_read_every_group() {
    let config = Config::new("p", "v", sample_file());
    let ports = config.get_ports();
    assert_eq!(ports.len(), 2);
    assert_eq!(ports[1].port_out, "system_out_l");
    let connections = config.get_connections();
    assert_eq!(connections.len(), 1);
    assert_eq!(connections[0].port_out, "rode:capture_1");
    let muteable = config.get_muteable_connections();
    assert_eq!(muteable.len(), 1);
    assert_eq!(muteable[0].shortcut, 'm');
    let switchable = config.get_switchable_connections();
    assert_eq!(switchable.len(), 1);
    assert_eq!(switchable[0].connections.len(), 4);
}

#[test]
fn config_parse_gives_first_refusal() {
    let file = ConfigFile {
        config_groups: vec![
            group("ports1", &[("in", "a"), ("out", "b")]),
            group("ports2", &[("in", "a")]),
            group("ports3", &[("out", "a"), ("x", "b")]),
        ],
    };
    let config = Config::new("p", "v", file);
    match config.parse::<Ports>("ports") {
        Ok(_) => panic!("expected a refusal"),
        Err(e) => assert_eq!(
            e,
            format!("{} There must be 2 attributes in the 'Ports' config group ports2", PREFIX)
        ),
    }
    assert!(config.parse::<Connection>("connections").unwrap().is_empty());
}

#[test]
fn group_copies_and_accessors() {
    let g = group("ports1", &[("in", "a"), ("out", "b")]);
    let c = g.duplicate();
    assert_eq!(c.group_name(), "ports1");
    assert_eq!(c.config_attributes().len(), 2);
    assert_eq!(c.config_attributes()[1].name, "out");
    assert_eq!(c.config_attributes()[1].value, "b");
    assert!(c.config_attributes()[0].is_named("in"));
    assert!(!c.config_attributes()[0].is_named("out"));
}
