//! The attributes of a group may stand in any order.
use vstd::prelude::*;
use crate::config::data::{
    ConfigAttribute, ConfigGroup, last_index_named, position_of, lemma_last_index_named_bounds,
};
use crate::config::ports::ports_from_group;
use crate::config::connection::connection_from_group;
use crate::config::muteable_connections::muteable_from_group;

verus! {

/// `h` is the group `g` with its attributes in another order: attribute `x` of `h` is
/// attribute `perm[x]` of `g`, and `inv` undoes `perm`.
pub open spec fn permuted(g: ConfigGroup, h: ConfigGroup, perm: Seq<int>, inv: Seq<int>) -> bool {
    let a = g.attributes@;
    let b = h.attributes@;
    &&& g.name@ == h.name@
    &&& a.len() == b.len()
    &&& perm.len() == b.len()
    &&& inv.len() == a.len()
    &&& forall|x: int|
        0 <= x < b.len() ==> {
            &&& 0 <= #[trigger] perm[x] < a.len()
            &&& inv[perm[x]] == x
            &&& b[x].name@ == a[perm[x]].name@
            &&& b[x].value@ == a[perm[x]].value@
        }
    &&& forall|y: int| 0 <= y < a.len() ==> 0 <= #[trigger] inv[y] < b.len() && perm[inv[y]] == y
}

/// A key occurs in `g` exactly when it occurs in `h`.
proof fn lemma_present_permuted(
    g: ConfigGroup,
    h: ConfigGroup,
    perm: Seq<int>,
    inv: Seq<int>,
    key: Seq<char>,
)
    requires
        permuted(g, h, perm, inv),
    ensures
        (position_of(g.attributes@, key) < g.attributes@.len()) == (position_of(h.attributes@, key)
            < h.attributes@.len()),
{
    let a = g.attributes@;
    let b = h.attributes@;
    let n = a.len() as int;
    lemma_last_index_named_bounds(a, key, n);
    lemma_last_index_named_bounds(b, key, n);
    let la = last_index_named(a, key, n);
    let lb = last_index_named(b, key, n);
    if la >= 0 {
        let x = inv[la];
        assert(perm[x] == la);
        assert(b[x].name@ == key);
        assert(lb >= 0);
    }
    if lb >= 0 {
        let y = perm[lb];
        assert(a[y].name@ == key);
        assert(la >= 0);
    }
}

/// A key that occurs once is found where it occurs.
proof fn lemma_position_unique(a: Seq<ConfigAttribute>, key: Seq<char>, x: int)
    requires
        0 <= x < a.len(),
        a[x].name@ == key,
        forall|y: int| 0 <= y < a.len() && y != x ==> a[y].name@ != key,
    ensures
        position_of(a, key) == x,
{
    lemma_last_index_named_bounds(a, key, a.len() as int);
}

/// A key that occurs in `g` only at `p` is found at `p` in `g` and at `inv[p]` in `h`, and
/// the two attributes hold the same value.
proof fn lemma_found_permuted(
    g: ConfigGroup,
    h: ConfigGroup,
    perm: Seq<int>,
    inv: Seq<int>,
    key: Seq<char>,
    p: int,
)
    requires
        permuted(g, h, perm, inv),
        0 <= p < g.attributes@.len(),
        g.attributes@[p].name@ == key,
        forall|y: int| 0 <= y < g.attributes@.len() && y != p ==> g.attributes@[y].name@ != key,
    ensures
        position_of(g.attributes@, key) == p,
        position_of(h.attributes@, key) == inv[p],
        0 <= inv[p] < h.attributes@.len(),
        h.attributes@[inv[p]].value@ == g.attributes@[p].value@,
{
    let a = g.attributes@;
    let b = h.attributes@;
    lemma_position_unique(a, key, p);
    assert(perm[inv[p]] == p);
    assert forall|y: int| 0 <= y < b.len() && y != inv[p] implies b[y].name@ != key by {
        assert(b[y].name@ == a[perm[y]].name@);
        if perm[y] == p {
            assert(inv[perm[y]] == y);
        }
    }
    lemma_position_unique(b, key, inv[p]);
}

/// Among two attributes with two different keys present, each key occurs only where it is
/// found.
proof fn lemma_two_keys(g: ConfigGroup, k0: Seq<char>, k1: Seq<char>)
    requires
        g.attributes@.len() == 2,
        k0 != k1,
        position_of(g.attributes@, k0) < 2,
        position_of(g.attributes@, k1) < 2,
    ensures
        ({
            let a = g.attributes@;
            let p0 = position_of(a, k0);
            let p1 = position_of(a, k1);
            &&& 0 <= p0 < 2 && 0 <= p1 < 2
            &&& a[p0].name@ == k0 && a[p1].name@ == k1
            &&& forall|y: int| 0 <= y < 2 && y != p0 ==> a[y].name@ != k0
            &&& forall|y: int| 0 <= y < 2 && y != p1 ==> a[y].name@ != k1
        }),
{
    let a = g.attributes@;
    lemma_last_index_named_bounds(a, k0, 2);
    lemma_last_index_named_bounds(a, k1, 2);
    let p0 = position_of(a, k0);
    let p1 = position_of(a, k1);
    assert forall|y: int| 0 <= y < 2 && y != p0 implies a[y].name@ != k0 by {
        assert(y == p1);
    }
    assert forall|y: int| 0 <= y < 2 && y != p1 implies a[y].name@ != k1 by {
        assert(y == p0);
    }
}

/// A `ports` group reads the same whatever the order of its attributes.
pub proof fn law_ports_any_order(g: ConfigGroup, h: ConfigGroup, perm: Seq<int>, inv: Seq<int>)
    requires
        permuted(g, h, perm, inv),
    ensures
        ports_from_group(g) == ports_from_group(h),
{
    let a = g.attributes@;
    let k0 = "in"@;
    let k1 = "out"@;
    reveal_strlit("in");
    reveal_strlit("out");
    assert(k0 != k1) by {
        assert(k0.len() != k1.len());
    }
    lemma_present_permuted(g, h, perm, inv, k0);
    lemma_present_permuted(g, h, perm, inv, k1);
    if a.len() == 2 && position_of(a, k0) < 2 && position_of(a, k1) < 2 {
        lemma_two_keys(g, k0, k1);
        lemma_found_permuted(g, h, perm, inv, k0, position_of(a, k0));
        lemma_found_permuted(g, h, perm, inv, k1, position_of(a, k1));
    }
}

/// A `muteable_connection` group reads the same whatever the order of its attributes.
pub proof fn law_muteable_any_order(g: ConfigGroup, h: ConfigGroup, perm: Seq<int>, inv: Seq<int>)
    requires
        permuted(g, h, perm, inv),
    ensures
        muteable_from_group(g) == muteable_from_group(h),
{
    let a = g.attributes@;
    let k0 = "connection"@;
    let k1 = "shortcut"@;
    reveal_strlit("connection");
    reveal_strlit("shortcut");
    assert(k0 != k1) by {
        assert(k0.len() != k1.len());
    }
    lemma_present_permuted(g, h, perm, inv, k0);
    lemma_present_permuted(g, h, perm, inv, k1);
    if a.len() == 2 && position_of(a, k0) < 2 && position_of(a, k1) < 2 {
        lemma_two_keys(g, k0, k1);
        lemma_found_permuted(g, h, perm, inv, k0, position_of(a, k0));
        lemma_found_permuted(g, h, perm, inv, k1, position_of(a, k1));
    }
}

/// A `connections` group reads the same whatever the order of its attributes.
pub proof fn law_connection_any_order(
    g: ConfigGroup,
    h: ConfigGroup,
    perm: Seq<int>,
    inv: Seq<int>,
)
    requires
        permuted(g, h, perm, inv),
    ensures
        connection_from_group(g) == connection_from_group(h),
{
    let a = g.attributes@;
    reveal_strlit("name");
    reveal_strlit("connect_init");
    reveal_strlit("port_out");
    reveal_strlit("port_in");
    let k0 = "name"@;
    let k1 = "connect_init"@;
    let k2 = "port_out"@;
    let k3 = "port_in"@;
    assert(k0.len() == 4 && k1.len() == 12 && k2.len() == 8 && k3.len() == 7);
    lemma_present_permuted(g, h, perm, inv, k0);
    lemma_present_permuted(g, h, perm, inv, k1);
    lemma_present_permuted(g, h, perm, inv, k2);
    lemma_present_permuted(g, h, perm, inv, k3);
    if a.len() == 4 {
        let p0 = position_of(a, k0);
        let p1 = position_of(a, k1);
        let p2 = position_of(a, k2);
        let p3 = position_of(a, k3);
        if p0 < 4 && p1 < 4 && p2 < 4 && p3 < 4 {
            lemma_last_index_named_bounds(a, k0, 4);
            lemma_last_index_named_bounds(a, k1, 4);
            lemma_last_index_named_bounds(a, k2, 4);
            lemma_last_index_named_bounds(a, k3, 4);
            assert(p0 != p1 && p0 != p2 && p0 != p3 && p1 != p2 && p1 != p3 && p2 != p3);
            assert forall|y: int| 0 <= y < 4 && y != p0 implies a[y].name@ != k0 by {
                assert(y == p1 || y == p2 || y == p3);
            }
            assert forall|y: int| 0 <= y < 4 && y != p1 implies a[y].name@ != k1 by {
                assert(y == p0 || y == p2 || y == p3);
            }
            assert forall|y: int| 0 <= y < 4 && y != p2 implies a[y].name@ != k2 by {
                assert(y == p0 || y == p1 || y == p3);
            }
            assert forall|y: int| 0 <= y < 4 && y != p3 implies a[y].name@ != k3 by {
                assert(y == p0 || y == p1 || y == p2);
            }
            lemma_found_permuted(g, h, perm, inv, k0, p0);
            lemma_found_permuted(g, h, perm, inv, k1, p1);
            lemma_found_permuted(g, h, perm, inv, k2, p2);
            lemma_found_permuted(g, h, perm, inv, k3, p3);
        }
    }
}

} // verus!
