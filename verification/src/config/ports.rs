use vstd::prelude::*;
use crate::config::data::{ConfigGroup, position_of, find_attribute};
use crate::config::config::{New, group_message};

verus! {

/// An input and an output port that the client registers.
pub struct Ports {
    pub port_in: String,
    pub port_out: String,
}

impl View for Ports {
    type V = (Seq<char>, Seq<char>);

    open spec fn view(&self) -> (Seq<char>, Seq<char>) {
        (self.port_in@, self.port_out@)
    }
}

/// A `ports` group: exactly two attributes, called `in` and `out`.
pub open spec fn ports_from_group(g: ConfigGroup) -> Result<(Seq<char>, Seq<char>), Seq<char>> {
    let attrs = g.attributes@;
    if attrs.len() == 2 {
        let iin = position_of(attrs, "in"@);
        let iout = position_of(attrs, "out"@);
        if iin < 2 && iout < 2 {
            Ok((attrs[iin].value@, attrs[iout].value@))
        } else {
            Err(
                group_message(
                    " Attribute names of Ports config group "@,
                    g.name@,
                    " must be 'in' and 'out'"@,
                ),
            )
        }
    } else {
        Err(group_message(" There must be 2 attributes in the 'Ports' config group "@, g.name@, ""@))
    }
}

impl New for Ports {
    open spec fn from_group(cfg_group: ConfigGroup) -> Result<(Seq<char>, Seq<char>), Seq<char>> {
        ports_from_group(cfg_group)
    }

    fn parse(cfg_group: &ConfigGroup) -> (r: Result<Ports, String>) {
        let attrs = cfg_group.config_attributes();
        if attrs.len() == 2 {
            let iin = find_attribute(attrs, "in");
            let iout = find_attribute(attrs, "out");
            if iin < 2 && iout < 2 {
                Ok(Ports { port_in: attrs[iin].value.clone(), port_out: attrs[iout].value.clone() })
            } else {
                Err(
                    Self::group_error(
                        " Attribute names of Ports config group ",
                        &cfg_group.name,
                        " must be 'in' and 'out'",
                    ),
                )
            }
        } else {
            Err(
                Self::group_error(
                    " There must be 2 attributes in the 'Ports' config group ",
                    &cfg_group.name,
                    "",
                ),
            )
        }
    }
}

} // verus!
