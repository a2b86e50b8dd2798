use vstd::prelude::*;

verus! {

/// One `name = value` line of a config group.
pub struct ConfigAttribute {
    pub name: String,
    pub value: String,
}

/// A `[name]` section of the config file with its attributes, in file order.
pub struct ConfigGroup {
    pub name: String,
    pub attributes: Vec<ConfigAttribute>,
}

/// The config file: its groups, in file order.
pub struct ConfigFile {
    pub config_groups: Vec<ConfigGroup>,
}

impl ConfigAttribute {
    pub fn new(name: &str, value: &str) -> (r: ConfigAttribute)
        ensures
            r.name@ == name@,
            r.value@ == value@,
    {
        ConfigAttribute { name: String::from_str(name), value: String::from_str(value) }
    }

    /// Whether this attribute is called `key`.
    pub fn is_named(&self, key: &str) -> (r: bool)
        ensures
            r == (self.name@ == key@),
    {
        let key = String::from_str(key);
        self.name == key
    }

    /// A copy of this attribute.
    pub fn duplicate(&self) -> (r: ConfigAttribute)
        ensures
            r.name@ == self.name@,
            r.value@ == self.value@,
    {
        ConfigAttribute { name: self.name.clone(), value: self.value.clone() }
    }
}

impl ConfigGroup {
    /// The name of the group.
    pub fn group_name(&self) -> (r: String)
        ensures
            r@ == self.name@,
    {
        self.name.clone()
    }

    /// The attributes of the group, in file order.
    pub fn config_attributes(&self) -> (r: &Vec<ConfigAttribute>)
        ensures
            r == &self.attributes,
    {
        &self.attributes
    }

    /// A copy of this group.
    pub fn duplicate(&self) -> (r: ConfigGroup)
        ensures
            r.same_as(*self),
    {
        let mut attributes: Vec<ConfigAttribute> = Vec::new();
        let mut i: usize = 0;
        while i < self.attributes.len()
            invariant
                i <= self.attributes.len(),
                attributes.len() == i,
                forall|j: int|
                    0 <= j < i ==> (#[trigger] attributes@[j]).name@ == self.attributes@[j].name@
                        && attributes@[j].value@ == self.attributes@[j].value@,
            decreases self.attributes.len() - i,
        {
            attributes.push(self.attributes[i].duplicate());
            i = i + 1;
        }
        ConfigGroup { name: self.name.clone(), attributes }
    }

    /// Two groups hold the same name and the same attributes in the same order.
    pub open spec fn same_as(self, other: ConfigGroup) -> bool {
        &&& self.name@ == other.name@
        &&& self.attributes@.len() == other.attributes@.len()
        &&& forall|j: int|
            0 <= j < self.attributes@.len() ==> (#[trigger] self.attributes@[j]).name@
                == other.attributes@[j].name@ && self.attributes@[j].value@
                == other.attributes@[j].value@
    }
}

/// Index of the last of the first `n` attributes that is called `key`, or -1 if none is.
pub open spec fn last_index_named(attrs: Seq<ConfigAttribute>, key: Seq<char>, n: int) -> int
    decreases n,
{
    if n <= 0 {
        -1
    } else if attrs[n - 1].name@ == key {
        n - 1
    } else {
        last_index_named(attrs, key, n - 1)
    }
}

/// Where the group's parsers find the attribute called `key`: its last occurrence, or the
/// number of attributes when there is none.
pub open spec fn position_of(attrs: Seq<ConfigAttribute>, key: Seq<char>) -> int {
    let k = last_index_named(attrs, key, attrs.len() as int);
    if k < 0 {
        attrs.len() as int
    } else {
        k
    }
}

pub proof fn lemma_last_index_named_bounds(attrs: Seq<ConfigAttribute>, key: Seq<char>, n: int)
    ensures
        -1 <= last_index_named(attrs, key, n) < n || (n <= 0 && last_index_named(attrs, key, n) == -1),
        last_index_named(attrs, key, n) >= 0 ==> attrs[last_index_named(attrs, key, n)].name@ == key,
        forall|j: int|
            last_index_named(attrs, key, n) < j < n ==> attrs[j].name@ != key,
    decreases n,
{
    if n > 0 {
        lemma_last_index_named_bounds(attrs, key, n - 1);
    }
}

/// The position of the attribute called `key` (see `position_of`).
pub fn find_attribute(attrs: &Vec<ConfigAttribute>, key: &str) -> (r: usize)
    ensures
        r as int == position_of(attrs@, key@),
{
    let mut found: usize = attrs.len();
    let mut i: usize = 0;
    while i < attrs.len()
        invariant
            i <= attrs.len(),
            found as int == (if last_index_named(attrs@, key@, i as int) < 0 {
                attrs.len() as int
            } else {
                last_index_named(attrs@, key@, i as int)
            }),
        decreases attrs.len() - i,
    {
        if attrs[i].is_named(key) {
            found = i;
        }
        i = i + 1;
    }
    found
}

} // verus!
