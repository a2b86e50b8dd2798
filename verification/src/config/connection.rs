use vstd::prelude::*;
use crate::config::data::{ConfigAttribute, ConfigGroup, position_of, find_attribute};
use crate::config::config::{New, group_message};

verus! {

/// A link between an output port and an input port, as the config file defines it.
pub struct Connection {
    pub name: String,
    pub connect_init: bool,
    pub port_out: String,
    pub port_in: String,
}

impl View for Connection {
    type V = (Seq<char>, bool, Seq<char>, Seq<char>);

    open spec fn view(&self) -> (Seq<char>, bool, Seq<char>, Seq<char>) {
        (self.name@, self.connect_init, self.port_out@, self.port_in@)
    }
}

/// The value of a `connect_init` attribute: `true` or `false`, nothing else.
pub open spec fn connect_init_value(value: Seq<char>) -> Option<bool> {
    if value == "true"@ {
        Some(true)
    } else if value == "false"@ {
        Some(false)
    } else {
        None
    }
}

/// A `connections` group: exactly four attributes, called `name`, `connect_init`, `port_out`
/// and `port_in`, where `connect_init` is `true` or `false`.
pub open spec fn connection_from_group(g: ConfigGroup) -> Result<
    (Seq<char>, bool, Seq<char>, Seq<char>),
    Seq<char>,
> {
    let attrs = g.attributes@;
    if attrs.len() == 4 {
        let iname = position_of(attrs, "name"@);
        let iinit = position_of(attrs, "connect_init"@);
        let iout = position_of(attrs, "port_out"@);
        let iin = position_of(attrs, "port_in"@);
        if iname < 4 && iinit < 4 && iout < 4 && iin < 4 {
            match connect_init_value(attrs[iinit].value@) {
                Some(init) => Ok((attrs[iname].value@, init, attrs[iout].value@, attrs[iin].value@)),
                None => Err(
                    group_message(
                        " connect_init value of config group "@,
                        g.name@,
                        " must be true or false"@,
                    ),
                ),
            }
        } else {
            Err(
                group_message(
                    " Attribute names of 'Connection' config group "@,
                    g.name@,
                    " must be name, connect_init, port_out and port_in"@,
                ),
            )
        }
    } else {
        Err(
            group_message(
                " There must be 4 attributes in the 'Connection' config group "@,
                g.name@,
                ""@,
            ),
        )
    }
}

impl Connection {
    /// Reads a `connect_init` value: `true` or `false`.
    fn get_connect_init(cfg_attribute: &ConfigAttribute) -> (r: Result<bool, ()>)
        ensures
            match connect_init_value(cfg_attribute.value@) {
                Some(b) => r == Ok::<bool, ()>(b),
                None => r is Err,
            },
    {
        let yes = String::from_str("true");
        let no = String::from_str("false");
        if cfg_attribute.value == yes {
            Ok(true)
        } else if cfg_attribute.value == no {
            Ok(false)
        } else {
            Err(())
        }
    }
}

impl New for Connection {
    open spec fn from_group(cfg_group: ConfigGroup) -> Result<
        (Seq<char>, bool, Seq<char>, Seq<char>),
        Seq<char>,
    > {
        connection_from_group(cfg_group)
    }

    fn parse(cfg_group: &ConfigGroup) -> (r: Result<Connection, String>) {
        let attrs = cfg_group.config_attributes();
        if attrs.len() == 4 {
            let iname = find_attribute(attrs, "name");
            let iinit = find_attribute(attrs, "connect_init");
            let iout = find_attribute(attrs, "port_out");
            let iin = find_attribute(attrs, "port_in");
            if iname < 4 && iinit < 4 && iout < 4 && iin < 4 {
                match Connection::get_connect_init(&attrs[iinit]) {
                    Ok(init) => Ok(
                        Connection {
                            name: attrs[iname].value.clone(),
                            connect_init: init,
                            port_out: attrs[iout].value.clone(),
                            port_in: attrs[iin].value.clone(),
                        },
                    ),
                    Err(()) => Err(
                        Self::group_error(
                            " connect_init value of config group ",
                            &cfg_group.name,
                            " must be true or false",
                        ),
                    ),
                }
            } else {
                Err(
                    Self::group_error(
                        " Attribute names of 'Connection' config group ",
                        &cfg_group.name,
                        " must be name, connect_init, port_out and port_in",
                    ),
                )
            }
        } else {
            Err(
                Self::group_error(
                    " There must be 4 attributes in the 'Connection' config group ",
                    &cfg_group.name,
                    "",
                ),
            )
        }
    }
}

} // verus!
