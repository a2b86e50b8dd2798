use vstd::prelude::*;
use crate::config::data::{ConfigGroup, position_of, find_attribute};
use crate::config::config::{New, group_message};

verus! {

/// A connection that one character toggles.
pub struct MuteableConnection {
    pub connection: String,
    pub shortcut: char,
}

impl View for MuteableConnection {
    type V = (Seq<char>, char);

    open spec fn view(&self) -> (Seq<char>, char) {
        (self.connection@, self.shortcut)
    }
}

/// A shortcut value is a single character.
pub open spec fn shortcut_value(value: Seq<char>) -> Option<char> {
    if value.len() == 1 {
        Some(value[0])
    } else {
        None
    }
}

/// A `muteable_connection` group: exactly two attributes, called `connection` and
/// `shortcut`, where the shortcut is a single character.
pub open spec fn muteable_from_group(g: ConfigGroup) -> Result<(Seq<char>, char), Seq<char>> {
    let attrs = g.attributes@;
    if attrs.len() == 2 {
        let iconnection = position_of(attrs, "connection"@);
        let ishortcut = position_of(attrs, "shortcut"@);
        if iconnection < 2 && ishortcut < 2 {
            match shortcut_value(attrs[ishortcut].value@) {
                Some(c) => Ok((attrs[iconnection].value@, c)),
                None => Err(
                    group_message(
                        " 'MuteableConnection' config group "@,
                        g.name@,
                        " shortcut value must be a single char"@,
                    ),
                ),
            }
        } else {
            Err(
                group_message(
                    " Attribute names of 'MuteableConnection' config group "@,
                    g.name@,
                    " must be connection and shortcut"@,
                ),
            )
        }
    } else {
        Err(
            group_message(
                " There must be 2 attributes in the 'MuteableConnection' config group "@,
                g.name@,
                ""@,
            ),
        )
    }
}

impl MuteableConnection {
    /// The character of a one-character shortcut value; any other value is refused.
    pub fn get_shortcut_char(shortcut: &String) -> (r: Result<char, ()>)
        ensures
            match shortcut_value(shortcut@) {
                Some(c) => r == Ok::<char, ()>(c),
                None => r == Err::<char, ()>(()),
            },
    {
        let s = shortcut.as_str();
        if s.unicode_len() == 1 {
            Ok(s.get_char(0))
        } else {
            Err(())
        }
    }
}

impl New for MuteableConnection {
    open spec fn from_group(cfg_group: ConfigGroup) -> Result<(Seq<char>, char), Seq<char>> {
        muteable_from_group(cfg_group)
    }

    fn parse(cfg_group: &ConfigGroup) -> (r: Result<MuteableConnection, String>) {
        let attrs = cfg_group.config_attributes();
        if attrs.len() == 2 {
            let iconnection = find_attribute(attrs, "connection");
            let ishortcut = find_attribute(attrs, "shortcut");
            if iconnection < 2 && ishortcut < 2 {
                match Self::get_shortcut_char(&attrs[ishortcut].value) {
                    Ok(c) => Ok(
                        MuteableConnection { connection: attrs[iconnection].value.clone(), shortcut: c },
                    ),
                    Err(()) => Err(
                        Self::group_error(
                            " 'MuteableConnection' config group ",
                            &cfg_group.name,
                            " shortcut value must be a single char",
                        ),
                    ),
                }
            } else {
                Err(
                    Self::group_error(
                        " Attribute names of 'MuteableConnection' config group ",
                        &cfg_group.name,
                        " must be connection and shortcut",
                    ),
                )
            }
        } else {
            Err(
                Self::group_error(
                    " There must be 2 attributes in the 'MuteableConnection' config group ",
                    &cfg_group.name,
                    "",
                ),
            )
        }
    }
}

} // verus!
