use vstd::prelude::*;
use crate::config::data::{ConfigGroup, ConfigFile};
use crate::config::ports::Ports;
use crate::config::connection::Connection;
use crate::config::muteable_connections::MuteableConnection;
use crate::config::switchable_connections::SwitchableConnection;
use crate::text::{has_infix, chars_of, contains_chars};

verus! {

/// The words every refusal of a config group starts with.
pub open spec fn error_prefix() -> Seq<char> {
    "Error while parsing ports from config file:"@
}

/// The refusal of the group called `group`: the prefix, `before`, the group's name and `after`.
pub open spec fn group_message(before: Seq<char>, group: Seq<char>, after: Seq<char>) -> Seq<char> {
    error_prefix() + before + group + after
}

/// A value that is read from one group of the config file.
pub trait New: Sized + View {
    /// What `cfg_group` reads as, or the message with which it is refused.
    spec fn from_group(cfg_group: ConfigGroup) -> Result<Self::V, Seq<char>>;

    /// Reads the value from `cfg_group`, or refuses the group with a message.
    fn parse(cfg_group: &ConfigGroup) -> (r: Result<Self, String>)
        ensures
            match r {
                Ok(v) => Self::from_group(*cfg_group) == Ok::<Self::V, Seq<char>>(v@),
                Err(e) => Self::from_group(*cfg_group) == Err::<Self::V, Seq<char>>(e@),
            },
    ;

    /// Reads the value from a group that is not refused.
    fn new(cfg_group: ConfigGroup) -> (r: Self)
        requires
            Self::from_group(cfg_group) is Ok,
        ensures
            Self::from_group(cfg_group) == Ok::<Self::V, Seq<char>>(r@),
    {
        match Self::parse(&cfg_group) {
            Ok(v) => v,
            Err(e) => {
                let r: Result<Self, String> = Err(e);
                r.unwrap()
            },
        }
    }

    /// The words every refusal starts with.
    fn error_text_start() -> (s: String)
        ensures
            s@ == error_prefix(),
    {
        String::from_str("Error while parsing ports from config file:")
    }

    /// The refusal of `group_name`: the prefix, `before`, the name and `after`.
    fn group_error(before: &str, group_name: &String, after: &str) -> (s: String)
        ensures
            s@ == group_message(before@, group_name@, after@),
    {
        let mut s = Self::error_text_start();
        s.append(before);
        s.append(group_name.as_str());
        s.append(after);
        s
    }
}

/// The groups whose names contain `pattern`, in file order.
pub open spec fn groups_containing(groups: Seq<ConfigGroup>, pattern: Seq<char>) -> Seq<ConfigGroup>
    decreases groups.len(),
{
    if groups.len() == 0 {
        Seq::empty()
    } else {
        let before = groups_containing(groups.drop_last(), pattern);
        if has_infix(groups.last().name@, pattern) {
            before.push(groups.last())
        } else {
            before
        }
    }
}

/// Each group read in order as a `T`, or the refusal of the first group that is refused.
pub open spec fn parse_all<T: New>(groups: Seq<ConfigGroup>) -> Result<Seq<T::V>, Seq<char>>
    decreases groups.len(),
{
    if groups.len() == 0 {
        Ok(Seq::empty())
    } else {
        match parse_all::<T>(groups.drop_last()) {
            Err(e) => Err(e),
            Ok(vs) => match T::from_group(groups.last()) {
                Ok(v) => Ok(vs.push(v)),
                Err(e) => Err(e),
            },
        }
    }
}

/// The views of a vector of values.
pub open spec fn views<T: View>(v: Seq<T>) -> Seq<T::V> {
    v.map_values(|x: T| x@)
}

/// Once the groups read so far hold a refusal, the groups after them keep it.
pub proof fn lemma_refusal_stays<T: New>(groups: Seq<ConfigGroup>, pattern: Seq<char>, n: int, m: int)
    requires
        0 <= n <= m <= groups.len(),
        parse_all::<T>(groups_containing(groups.take(n), pattern)) is Err,
    ensures
        parse_all::<T>(groups_containing(groups.take(m), pattern)) == parse_all::<T>(
            groups_containing(groups.take(n), pattern),
        ),
    decreases m - n,
{
    if n < m {
        lemma_refusal_stays::<T>(groups, pattern, n, m - 1);
        assert(groups.take(m).drop_last() =~= groups.take(m - 1));
        let sel = groups_containing(groups.take(m), pattern);
        if sel.len() > 0 && sel != groups_containing(groups.take(m - 1), pattern) {
            assert(sel.drop_last() =~= groups_containing(groups.take(m - 1), pattern));
        }
    }
}

/// The program's name and version and the config file it was started with.
pub struct Config {
    program_name: String,
    program_version: String,
    file: ConfigFile,
}

impl Config {
    /// A config for the program called `program_name`, of version `program_version`,
    /// that reads its settings from `file`.
    pub fn new(program_name: &str, program_version: &str, file: ConfigFile) -> (r: Config)
        ensures
            r.name() == program_name@,
            r.version() == program_version@,
            r.groups() == file.config_groups@,
    {
        Config {
            program_name: String::from_str(program_name),
            program_version: String::from_str(program_version),
            file,
        }
    }

    pub closed spec fn name(&self) -> Seq<char> {
        self.program_name@
    }

    pub closed spec fn version(&self) -> Seq<char> {
        self.program_version@
    }

    /// The groups of the config file, in file order.
    pub closed spec fn groups(&self) -> Seq<ConfigGroup> {
        self.file.config_groups@
    }

    pub fn program_name(&self) -> (r: String)
        ensures
            r@ == self.name(),
    {
        self.program_name.clone()
    }

    pub fn program_version(&self) -> (r: String)
        ensures
            r@ == self.version(),
    {
        self.program_version.clone()
    }

    /// Reads every group whose name contains `name` as a `T`, in file order; the first group
    /// that is refused gives the error.
    pub fn parse<T: New>(&self, name: &str) -> (r: Result<Vec<T>, String>)
        ensures
            match r {
                Ok(v) => parse_all::<T>(groups_containing(self.groups(), name@)) == Ok::<
                    Seq<T::V>,
                    Seq<char>,
                >(views(v@)),
                Err(e) => parse_all::<T>(groups_containing(self.groups(), name@)) == Err::<
                    Seq<T::V>,
                    Seq<char>,
                >(e@),
            },
    {
        let groups = &self.file.config_groups;
        let pattern = chars_of(name);
        let mut parsed: Vec<T> = Vec::new();
        let mut i: usize = 0;
        assert(views(parsed@) =~= Seq::<T::V>::empty());
        assert(groups@.take(0) =~= Seq::<ConfigGroup>::empty());
        while i < groups.len()
            invariant
                groups == &self.file.config_groups,
                i <= groups.len(),
                pattern@ == name@,
                parse_all::<T>(groups_containing(groups@.take(i as int), name@)) == Ok::<
                    Seq<T::V>,
                    Seq<char>,
                >(views(parsed@)),
            decreases groups.len() - i,
        {
            let ghost before = parsed@;
            assert(groups@.take(i + 1).drop_last() =~= groups@.take(i as int));
            assert(groups@.take(i + 1).last() == groups@[i as int]);
            let ghost sel = groups_containing(groups@.take(i as int), name@);
            if contains_chars(&chars_of(groups[i].name.as_str()), &pattern) {
                assert(groups_containing(groups@.take(i + 1), name@) == sel.push(groups@[i as int]));
                assert(sel.push(groups@[i as int]).drop_last() =~= sel);
                match T::parse(&groups[i]) {
                    Ok(v) => {
                        parsed.push(v);
                        assert(views(parsed@) =~= views(before).push(parsed@.last()@)) by {
                            assert(parsed@ =~= before.push(parsed@.last()));
                        }
                    },
                    Err(e) => {
                        proof {
                            lemma_refusal_stays::<T>(
                                groups@,
                                name@,
                                i + 1,
                                groups.len() as int,
                            );
                            assert(groups@.take(groups.len() as int) =~= groups@);
                        }
                        return Err(e);
                    },
                }
            } else {
                assert(groups_containing(groups@.take(i + 1), name@) == sel);
            }
            i = i + 1;
        }
        assert(groups@.take(groups.len() as int) =~= groups@);
        Ok(parsed)
    }

    /// Copies of the groups whose names contain `name_contains`, in file order.
    pub fn get_config_groups_contains(&self, name_contains: &str) -> (r: Vec<ConfigGroup>)
        ensures
            r@.len() == groups_containing(self.groups(), name_contains@).len(),
            forall|i: int|
                0 <= i < r@.len() ==> (#[trigger] r@[i]).same_as(
                    groups_containing(self.groups(), name_contains@)[i],
                ),
    {
        let groups = &self.file.config_groups;
        let pattern = chars_of(name_contains);
        let mut config_groups: Vec<ConfigGroup> = Vec::new();
        let mut i: usize = 0;
        assert(groups@.take(0) =~= Seq::<ConfigGroup>::empty());
        while i < groups.len()
            invariant
                groups == &self.file.config_groups,
                i <= groups.len(),
                pattern@ == name_contains@,
                config_groups@.len() == groups_containing(groups@.take(i as int), name_contains@).len(),
                forall|j: int|
                    0 <= j < config_groups@.len() ==> (#[trigger] config_groups@[j]).same_as(
                        groups_containing(groups@.take(i as int), name_contains@)[j],
                    ),
            decreases groups.len() - i,
        {
            let ghost sel = groups_containing(groups@.take(i as int), name_contains@);
            assert(groups@.take(i + 1).drop_last() =~= groups@.take(i as int));
            assert(groups@.take(i + 1).last() == groups@[i as int]);
            if contains_chars(&chars_of(groups[i].name.as_str()), &pattern) {
                assert(groups_containing(groups@.take(i + 1), name_contains@) == sel.push(
                    groups@[i as int],
                ));
                config_groups.push(groups[i].duplicate());
            } else {
                assert(groups_containing(groups@.take(i + 1), name_contains@) == sel);
            }
            i = i + 1;
        }
        assert(groups@.take(groups.len() as int) =~= groups@);
        config_groups
    }

    /// The port pairs of the `ports` groups, which must all be well formed.
    pub fn get_ports(&self) -> (r: Vec<Ports>)
        requires
            parse_all::<Ports>(groups_containing(self.groups(), "ports"@)) is Ok,
        ensures
            parse_all::<Ports>(groups_containing(self.groups(), "ports"@)) == Ok::<
                Seq<(Seq<char>, Seq<char>)>,
                Seq<char>,
            >(views(r@)),
    {
        self.parse("ports").unwrap()
    }

    /// The connections of the `connections` groups, which must all be well formed.
    pub fn get_connections(&self) -> (r: Vec<Connection>)
        requires
            parse_all::<Connection>(groups_containing(self.groups(), "connections"@)) is Ok,
        ensures
            parse_all::<Connection>(groups_containing(self.groups(), "connections"@)) == Ok::<
                Seq<(Seq<char>, bool, Seq<char>, Seq<char>)>,
                Seq<char>,
            >(views(r@)),
    {
        self.parse("connections").unwrap()
    }

    /// The muteable connections of the `muteable_connection` groups, which must all be well
    /// formed.
    pub fn get_muteable_connections(&self) -> (r: Vec<MuteableConnection>)
        requires
            parse_all::<MuteableConnection>(
                groups_containing(self.groups(), "muteable_connection"@),
            ) is Ok,
        ensures
            parse_all::<MuteableConnection>(
                groups_containing(self.groups(), "muteable_connection"@),
            ) == Ok::<Seq<(Seq<char>, char)>, Seq<char>>(views(r@)),
    {
        self.parse("muteable_connection").unwrap()
    }

    /// The switchable connections of the `switchable_connection` groups, which must all be
    /// well formed.
    pub fn get_switchable_connections(&self) -> (r: Vec<SwitchableConnection>)
        requires
            parse_all::<SwitchableConnection>(
                groups_containing(self.groups(), "switchable_connection"@),
            ) is Ok,
        ensures
            parse_all::<SwitchableConnection>(
                groups_containing(self.groups(), "switchable_connection"@),
            ) == Ok::<Seq<(Seq<char>, Seq<(Seq<char>, char)>)>, Seq<char>>(views(r@)),
    {
        self.parse("switchable_connection").unwrap()
    }
}

} // verus!