use vstd::prelude::*;
use crate::config::data::ConfigGroup;
use crate::config::config::{New, group_message};
use crate::config::muteable_connections::{MuteableConnection, shortcut_value};
use crate::text::{has_infix, strip_all, chars_of, contains_chars, strip_chars, same_chars};

verus! {

/// A default connection and the alternatives that can be switched on in its place.
pub struct SwitchableConnection {
    pub default: String,
    pub connections: Vec<MuteableConnection>,
}

impl View for SwitchableConnection {
    type V = (Seq<char>, Seq<(Seq<char>, char)>);

    open spec fn view(&self) -> (Seq<char>, Seq<(Seq<char>, char)>) {
        (self.default@, self.connections@.map_values(|m: MuteableConnection| m@))
    }
}

/// The refusal of the switchable group `g` with the words `after`.
pub open spec fn switch_message(g: ConfigGroup, after: Seq<char>) -> Seq<char> {
    group_message(" 'SwitchableConnection' config group "@, g.name@, after)
}

/// Looks, from attribute `f` on, for the shortcut attribute whose identifier is `cid`,
/// the identifier of the connection attribute `ci`.
pub open spec fn pair_search(g: ConfigGroup, ci: int, cid: Seq<char>, f: int) -> Result<
    (Seq<char>, char),
    Seq<char>,
>
    decreases g.attributes@.len() - f,
{
    let attrs = g.attributes@;
    if f >= attrs.len() {
        Err(switch_message(g, " each connection must have a shortcut with identical identifier"@))
    } else if has_infix(attrs[f].name@, "shortcut"@) {
        let sid = strip_all(attrs[f].name@, "shortcut"@);
        if sid.len() > 0 {
            if cid == sid {
                match shortcut_value(attrs[f].value@) {
                    Some(c) => Ok((attrs[ci].value@, c)),
                    None => Err(switch_message(g, " shortcut values must be a single char"@)),
                }
            } else {
                pair_search(g, ci, cid, f + 1)
            }
        } else {
            Err(switch_message(g, " shortcut attributes must have a identifier"@))
        }
    } else {
        pair_search(g, ci, cid, f + 1)
    }
}

/// The alternative that the connection attribute `ci` defines: its value, and the character
/// of the first shortcut attribute with the same identifier (the name without the word).
pub open spec fn pair_from(g: ConfigGroup, ci: int) -> Result<(Seq<char>, char), Seq<char>> {
    let cid = strip_all(g.attributes@[ci].name@, "connection"@);
    if cid.len() > 0 {
        pair_search(g, ci, cid, 0)
    } else {
        Err(switch_message(g, " connection attributes must have a identifier"@))
    }
}

/// The first `n` attributes read in order: the index of the `default` attribute (-1 while
/// there is none) and the alternatives found so far, or the first refusal met.
pub open spec fn switch_scan(g: ConfigGroup, n: int) -> Result<
    (int, Seq<(Seq<char>, char)>),
    Seq<char>,
>
    decreases n,
{
    if n <= 0 {
        Ok((-1, Seq::empty()))
    } else {
        match switch_scan(g, n - 1) {
            Err(e) => Err(e),
            Ok((d, v)) => {
                let name = g.attributes@[n - 1].name@;
                if name == "default"@ {
                    if d < 0 {
                        Ok((n - 1, v))
                    } else {
                        Err(switch_message(g, " must only have one default attribute"@))
                    }
                } else if has_infix(name, "connection"@) {
                    match pair_from(g, n - 1) {
                        Ok(m) => Ok((d, v.push(m))),
                        Err(e) => Err(e),
                    }
                } else {
                    Ok((d, v))
                }
            },
        }
    }
}

/// A `switchable_connection` group: an odd number of attributes, at least three; one
/// `default` attribute and at least one connection attribute, each with its shortcut.
pub open spec fn switchable_from_group(g: ConfigGroup) -> Result<
    (Seq<char>, Seq<(Seq<char>, char)>),
    Seq<char>,
> {
    let attrs = g.attributes@;
    if attrs.len() >= 3 && attrs.len() % 2 == 1 {
        match switch_scan(g, attrs.len() as int) {
            Err(e) => Err(e),
            Ok((d, v)) => {
                if d >= 0 && v.len() > 0 {
                    Ok((attrs[d].value@, v))
                } else {
                    Err(
                        group_message(
                            " Attribute names of 'SwitchableConnection' config group "@,
                            g.name@,
                            " must be connection and shortcut"@,
                        ),
                    )
                }
            },
        }
    } else {
        Err(
            group_message(
                " There must be 2 attributes in the 'SwitchableConnection' config group "@,
                g.name@,
                ""@,
            ),
        )
    }
}

/// Once the scan meets a refusal, reading further attributes keeps that refusal.
pub proof fn lemma_scan_refusal_stays(g: ConfigGroup, n: int, m: int)
    requires
        n <= m,
        switch_scan(g, n) is Err,
    ensures
        switch_scan(g, m) == switch_scan(g, n),
    decreases m - n,
{
    if n < m {
        lemma_scan_refusal_stays(g, n, m - 1);
    }
}

/// What a search from `f0` on finds is the value of the connection attribute `ci` and the
/// character of the first shortcut attribute, from `f0` on, whose identifier is `cid`.
proof fn lemma_pair_search_found(g: ConfigGroup, ci: int, cid: Seq<char>, f0: int)
    requires
        0 <= f0,
    ensures
        pair_search(g, ci, cid, f0) is Ok ==> {
            let (v, c) = pair_search(g, ci, cid, f0)->Ok_0;
            let attrs = g.attributes@;
            &&& v == attrs[ci].value@
            &&& exists|f: int|
                #![trigger attrs[f]]
                f0 <= f < attrs.len() && has_infix(attrs[f].name@, "shortcut"@) && strip_all(
                    attrs[f].name@,
                    "shortcut"@,
                ) == cid && shortcut_value(attrs[f].value@) == Some(c) && forall|e: int|
                    f0 <= e < f && has_infix(attrs[e].name@, "shortcut"@) ==> strip_all(
                        #[trigger] attrs[e].name@,
                        "shortcut"@,
                    ) != cid
        },
    decreases g.attributes@.len() - f0,
{
    let attrs = g.attributes@;
    if f0 < attrs.len() {
        lemma_pair_search_found(g, ci, cid, f0 + 1);
        let r = pair_search(g, ci, cid, f0);
        if r is Ok {
            let c = r->Ok_0.1;
            let here = has_infix(attrs[f0].name@, "shortcut"@) && strip_all(attrs[f0].name@, "shortcut"@)
                == cid;
            if here {
                assert(f0 <= f0 < attrs.len() && has_infix(attrs[f0].name@, "shortcut"@) && strip_all(
                    attrs[f0].name@,
                    "shortcut"@,
                ) == cid && shortcut_value(attrs[f0].value@) == Some(c));
            } else {
                assert(r == pair_search(g, ci, cid, f0 + 1));
                let f = choose|f: int|
                    #![trigger attrs[f]]
                    f0 + 1 <= f < attrs.len() && has_infix(attrs[f].name@, "shortcut"@) && strip_all(
                        attrs[f].name@,
                        "shortcut"@,
                    ) == cid && shortcut_value(attrs[f].value@) == Some(c) && forall|e: int|
                        f0 + 1 <= e < f && has_infix(attrs[e].name@, "shortcut"@) ==> strip_all(
                            #[trigger] attrs[e].name@,
                            "shortcut"@,
                        ) != cid;
                assert(attrs[f] == attrs[f]);
            }
        }
    }
}

/// A connection attribute is paired only with a shortcut attribute of exactly its own
/// identifier: when the alternative of attribute `ci` is read, its connection is that
/// attribute's value and its character is the value of the first attribute whose name holds
/// `shortcut` and whose identifier (the name without `shortcut`) equals the connection's
/// identifier (the name without `connection`).
pub proof fn law_pair_has_own_identifier(g: ConfigGroup, ci: int)
    requires
        0 <= ci < g.attributes@.len(),
    ensures
        pair_from(g, ci) is Ok ==> {
            let (v, c) = pair_from(g, ci)->Ok_0;
            let attrs = g.attributes@;
            let cid = strip_all(attrs[ci].name@, "connection"@);
            &&& v == attrs[ci].value@
            &&& exists|f: int|
                #![trigger attrs[f]]
                0 <= f < attrs.len() && has_infix(attrs[f].name@, "shortcut"@) && strip_all(
                    attrs[f].name@,
                    "shortcut"@,
                ) == cid && shortcut_value(attrs[f].value@) == Some(c) && forall|e: int|
                    0 <= e < f && has_infix(attrs[e].name@, "shortcut"@) ==> strip_all(
                        #[trigger] attrs[e].name@,
                        "shortcut"@,
                    ) != cid
        },
{
    let cid = strip_all(g.attributes@[ci].name@, "connection"@);
    lemma_pair_search_found(g, ci, cid, 0);
}

/// The scan of the first `n` attributes of a group with one `default` attribute, at `d`,
/// whose connection attributes all have their shortcuts: it finds the default once it has
/// read it, and every alternative it has read.
proof fn lemma_scan_reads_all(g: ConfigGroup, d: int, n: int)
    requires
        0 <= n <= g.attributes@.len(),
        0 <= d < g.attributes@.len(),
        g.attributes@[d].name@ == "default"@,
        forall|i: int|
            0 <= i < g.attributes@.len() && i != d ==> (#[trigger] g.attributes@[i]).name@ != "default"@,
        forall|i: int|
            0 <= i < g.attributes@.len() && i != d && has_infix(
                (#[trigger] g.attributes@[i]).name@,
                "connection"@,
            ) ==> pair_from(g, i) is Ok,
    ensures
        switch_scan(g, n) is Ok,
        switch_scan(g, n)->Ok_0.0 == if d < n {
            d
        } else {
            -1
        },
        forall|i: int|
            0 <= i < n && i != d && has_infix((#[trigger] g.attributes@[i]).name@, "connection"@)
                ==> switch_scan(g, n)->Ok_0.1.contains(pair_from(g, i)->Ok_0),
    decreases n,
{
    if n > 0 {
        lemma_scan_reads_all(g, d, n - 1);
        let v = switch_scan(g, n - 1)->Ok_0.1;
        let attrs = g.attributes@;
        let k = n - 1;
        if k != d && has_infix(attrs[k].name@, "connection"@) {
            let m = pair_from(g, k)->Ok_0;
            assert(switch_scan(g, n)->Ok_0.1 == v.push(m));
            assert forall|i: int|
                0 <= i < n && i != d && has_infix((#[trigger] attrs[i]).name@, "connection"@)
                    implies v.push(m).contains(pair_from(g, i)->Ok_0) by {
                if i < k {
                    let x = choose|x: int| 0 <= x < v.len() && v[x] == pair_from(g, i)->Ok_0;
                    assert(v.push(m)[x] == v[x]);
                } else {
                    assert(v.push(m)[v.len() as int] == m);
                }
            }
        }
    }
}

/// A switchable group is read wherever its one `default` attribute stands, the last place
/// included: with an odd number of attributes, at least three, one attribute called
/// `default`, at least one other attribute whose name holds `connection`, and each such
/// attribute paired with its shortcut, the group is read; its default is the value of the
/// `default` attribute, and every such attribute's alternative is among its alternatives.
pub proof fn law_switchable_reads_default_anywhere(g: ConfigGroup, d: int)
    requires
        g.attributes@.len() >= 3,
        g.attributes@.len() % 2 == 1,
        0 <= d < g.attributes@.len(),
        g.attributes@[d].name@ == "default"@,
        forall|i: int|
            0 <= i < g.attributes@.len() && i != d ==> (#[trigger] g.attributes@[i]).name@ != "default"@,
        exists|i: int|
            0 <= i < g.attributes@.len() && i != d && has_infix(
                (#[trigger] g.attributes@[i]).name@,
                "connection"@,
            ),
        forall|i: int|
            0 <= i < g.attributes@.len() && i != d && has_infix(
                (#[trigger] g.attributes@[i]).name@,
                "connection"@,
            ) ==> pair_from(g, i) is Ok,
    ensures
        switchable_from_group(g) is Ok,
        switchable_from_group(g)->Ok_0.0 == g.attributes@[d].value@,
        forall|i: int|
            0 <= i < g.attributes@.len() && i != d && has_infix(
                (#[trigger] g.attributes@[i]).name@,
                "connection"@,
            ) ==> switchable_from_group(g)->Ok_0.1.contains(pair_from(g, i)->Ok_0),
{
    let n = g.attributes@.len() as int;
    lemma_scan_reads_all(g, d, n);
    let i = choose|i: int|
        0 <= i < n && i != d && has_infix((#[trigger] g.attributes@[i]).name@, "connection"@);
    assert(switch_scan(g, n)->Ok_0.1.contains(pair_from(g, i)->Ok_0));
}

impl SwitchableConnection {
    /// The alternative that the connection attribute at `connection_index` defines.
    fn get_connection_shortcut_pair(cfg_group: &ConfigGroup, connection_index: usize) -> (r: Result<
        MuteableConnection,
        String,
    >)
        requires
            connection_index < cfg_group.attributes@.len(),
        ensures
            match r {
                Ok(m) => pair_from(*cfg_group, connection_index as int) == Ok::<
                    (Seq<char>, char),
                    Seq<char>,
                >(m@),
                Err(e) => pair_from(*cfg_group, connection_index as int) == Err::<
                    (Seq<char>, char),
                    Seq<char>,
                >(e@),
            },
    {
        let attrs = cfg_group.config_attributes();
        let connection_word = chars_of("connection");
        let cid = strip_chars(&chars_of(attrs[connection_index].name.as_str()), &connection_word);
        if cid.len() > 0 {
            let shortcut_word = chars_of("shortcut");
            let mut f: usize = 0;
            while f < attrs.len()
                invariant
                    attrs == &cfg_group.attributes,
                    connection_index < attrs.len(),
                    f <= attrs.len(),
                    cid@ == strip_all(attrs@[connection_index as int].name@, "connection"@),
                    cid@.len() > 0,
                    shortcut_word@ == "shortcut"@,
                    pair_search(*cfg_group, connection_index as int, cid@, 0) == pair_search(
                        *cfg_group,
                        connection_index as int,
                        cid@,
                        f as int,
                    ),
                decreases attrs.len() - f,
            {
                let name = chars_of(attrs[f].name.as_str());
                if contains_chars(&name, &shortcut_word) {
                    let sid = strip_chars(&name, &shortcut_word);
                    if sid.len() > 0 {
                        if same_chars(&cid, &sid) {
                            return match MuteableConnection::get_shortcut_char(&attrs[f].value) {
                                Ok(c) => Ok(
                                    MuteableConnection {
                                        connection: attrs[connection_index].value.clone(),
                                        shortcut: c,
                                    },
                                ),
                                Err(()) => Err(
                                    Self::group_error(
                                        " 'SwitchableConnection' config group ",
                                        &cfg_group.name,
                                        " shortcut values must be a single char",
                                    ),
                                ),
                            };
                        }
                    } else {
                        return Err(
                            Self::group_error(
                                " 'SwitchableConnection' config group ",
                                &cfg_group.name,
                                " shortcut attributes must have a identifier",
                            ),
                        );
                    }
                }
                f = f + 1;
            }
            Err(
                Self::group_error(
                    " 'SwitchableConnection' config group ",
                    &cfg_group.name,
                    " each connection must have a shortcut with identical identifier",
                ),
            )
        } else {
            Err(
                Self::group_error(
                    " 'SwitchableConnection' config group ",
                    &cfg_group.name,
                    " connection attributes must have a identifier",
                ),
            )
        }
    }
}

impl New for SwitchableConnection {
    open spec fn from_group(cfg_group: ConfigGroup) -> Result<
        (Seq<char>, Seq<(Seq<char>, char)>),
        Seq<char>,
    > {
        switchable_from_group(cfg_group)
    }

    fn parse(cfg_group: &ConfigGroup) -> (r: Result<SwitchableConnection, String>) {
        let attrs = cfg_group.config_attributes();
        let len = attrs.len();
        if len >= 3 && len % 2 == 1 {
            let connection_word = chars_of("connection");
            let mut idefault: usize = 0;
            let mut bdefault = false;
            let mut vconnections: Vec<MuteableConnection> = Vec::new();
            let mut i: usize = 0;
            assert(vconnections@.map_values(|m: MuteableConnection| m@) =~= Seq::<
                (Seq<char>, char),
            >::empty());
            while i < len
                invariant
                    attrs == &cfg_group.attributes,
                    len == attrs.len(),
                    len >= 3 && len % 2 == 1,
                    i <= len,
                    connection_word@ == "connection"@,
                    bdefault ==> idefault < i,
                    switch_scan(*cfg_group, i as int) == Ok::<
                        (int, Seq<(Seq<char>, char)>),
                        Seq<char>,
                    >(
                        (
                            if bdefault {
                                idefault as int
                            } else {
                                -1
                            },
                            vconnections@.map_values(|m: MuteableConnection| m@),
                        ),
                    ),
                decreases len - i,
            {
                if attrs[i].is_named("default") {
                    if !bdefault {
                        idefault = i;
                        bdefault = true;
                    } else {
                        proof {
                            lemma_scan_refusal_stays(*cfg_group, i + 1, len as int);
                        }
                        return Err(
                            Self::group_error(
                                " 'SwitchableConnection' config group ",
                                &cfg_group.name,
                                " must only have one default attribute",
                            ),
                        );
                    }
                } else if contains_chars(&chars_of(attrs[i].name.as_str()), &connection_word) {
                    match Self::get_connection_shortcut_pair(cfg_group, i) {
                        Ok(m) => {
                            let ghost before = vconnections@;
                            vconnections.push(m);
                            assert(vconnections@.map_values(|m: MuteableConnection| m@)
                                =~= before.map_values(|m: MuteableConnection| m@).push(m@));
                        },
                        Err(e) => {
                            proof {
                                lemma_scan_refusal_stays(*cfg_group, i + 1, len as int);
                            }
                            return Err(e);
                        },
                    }
                }
                i = i + 1;
            }
            if bdefault && vconnections.len() > 0 {
                Ok(
                    SwitchableConnection {
                        default: attrs[idefault].value.clone(),
                        connections: vconnections,
                    },
                )
            } else {
                Err(
                    Self::group_error(
                        " Attribute names of 'SwitchableConnection' config group ",
                        &cfg_group.name,
                        " must be connection and shortcut",
                    ),
                )
            }
        } else {
            Err(
                Self::group_error(
                    " There must be 2 attributes in the 'SwitchableConnection' config group ",
                    &cfg_group.name,
                    "",
                ),
            )
        }
    }
}

} // verus!
