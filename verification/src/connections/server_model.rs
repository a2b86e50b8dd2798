//! How the runs behave against an obedient server: one that answers every probe from a set
//! of linked port pairs and carries out every connect and disconnect request.
use vstd::prelude::*;
use crate::connections::connection::ConnectionView;
use crate::connections::changeable_connection::{ChangeableView, pressed};
use crate::connections::link::{
    Reply, RequestKind, LinkMode, LinkStep, Pair, answer, apply, step_kind, already_connected,
    init_error,
};
use crate::connections::link_run::LinkRunView;
use crate::status::{
    StatusRunView, status_pairs, status_lines, state_line, alternate_pairs, blocks_len,
    lemma_alternate_pair_at, lemma_switch_line_at,
};
use crate::connections::connection_switch::{SwitchRunView, SwitchStage, SwitchView, presses_of, pressed_indices};

verus! {

/// The run after at most `fuel` requests, each answered and carried out by an obedient
/// server that starts with the links `world`, and the links that server then holds.
pub open spec fn drive_links(v: LinkRunView, world: Set<Pair>, fuel: nat) -> (LinkRunView, Set<Pair>)
    decreases fuel,
{
    if fuel == 0 || !v.pending() {
        (v, world)
    } else {
        let q = (step_kind(v.step), v.links[v.k].2);
        drive_links(v.next(answer(world, q)), apply(world, q), (fuel - 1) as nat)
    }
}

/// The port pairs of `links`.
pub open spec fn pairs_of(links: Seq<ConnectionView>) -> Seq<Pair> {
    links.map_values(|c: ConnectionView| c.2)
}

/// `world` with the pair `p` unlinked if it was linked, linked if not.
pub open spec fn flip(world: Set<Pair>, p: Pair) -> Set<Pair> {
    if world.contains(p) {
        world.remove(p)
    } else {
        world.insert(p)
    }
}

/// `world` with the pairs from index `k` on flipped one after the other.
pub open spec fn flip_all(world: Set<Pair>, pairs: Seq<Pair>, k: int) -> Set<Pair>
    decreases pairs.len() - k,
{
    if k < 0 || k >= pairs.len() {
        world
    } else {
        flip_all(flip(world, pairs[k]), pairs, k + 1)
    }
}

/// Once a run is over, more requests change nothing.
pub proof fn lemma_drive_links_over(v: LinkRunView, world: Set<Pair>, fuel: nat, more: nat)
    requires
        !drive_links(v, world, fuel).0.pending(),
        fuel <= more,
    ensures
        drive_links(v, world, more) == drive_links(v, world, fuel),
    decreases fuel,
{
    if fuel > 0 && v.pending() {
        let q = (step_kind(v.step), v.links[v.k].2);
        lemma_drive_links_over(
            v.next(answer(world, q)),
            apply(world, q),
            (fuel - 1) as nat,
            (more - 1) as nat,
        );
    }
}

/// One toggle takes three requests and flips the pair of its connection.
proof fn lemma_toggle_one(v: LinkRunView, world: Set<Pair>, fuel: nat)
    requires
        v.pending(),
        v.mode == LinkMode::Toggle,
        v.step == LinkStep::ToggleProbe,
        v.first == LinkStep::ToggleProbe,
        fuel >= 3,
    ensures
        drive_links(v, world, fuel) == drive_links(
            LinkRunView { k: v.k + 1, ..v },
            flip(world, v.links[v.k].2),
            (fuel - 3) as nat,
        ),
{
    let p = v.links[v.k].2;
    let c = world.contains(p);
    let v1 = v.next(Reply::Linked(c));
    let v2 = v1.next(Reply::Linked(c));
    let v3 = v2.next(Reply::Accepted);
    assert(drive_links(v, world, fuel) == drive_links(v1, world, (fuel - 1) as nat));
    assert(drive_links(v1, world, (fuel - 1) as nat) == drive_links(v2, world, (fuel - 2) as nat));
    let q3 = (step_kind(v2.step), p);
    assert(apply(world, q3) == flip(world, p));
    assert(drive_links(v2, world, (fuel - 2) as nat) == drive_links(
        v3,
        flip(world, p),
        (fuel - 3) as nat,
    ));
    assert(v3 == LinkRunView { k: v.k + 1, ..v });
}

proof fn lemma_toggle_rest(v: LinkRunView, world: Set<Pair>, fuel: nat)
    requires
        0 <= v.k <= v.links.len(),
        v.mode == LinkMode::Toggle,
        v.step == LinkStep::ToggleProbe,
        v.first == LinkStep::ToggleProbe,
        fuel >= 3 * (v.links.len() - v.k),
    ensures
        drive_links(v, world, fuel) == (
            LinkRunView { k: v.links.len() as int, ..v },
            flip_all(world, pairs_of(v.links), v.k),
        ),
    decreases v.links.len() - v.k,
{
    if v.k == v.links.len() {
        assert(LinkRunView { k: v.links.len() as int, ..v } == v);
    } else {
        lemma_toggle_one(v, world, fuel);
        let w = LinkRunView { k: v.k + 1, ..v };
        lemma_toggle_rest(w, flip(world, v.links[v.k].2), (fuel - 3) as nat);
        assert(pairs_of(v.links)[v.k] == v.links[v.k].2);
        assert(LinkRunView { k: v.links.len() as int, ..w } == LinkRunView {
            k: v.links.len() as int,
            ..v
        });
    }
}

/// Typing a line toggles, one after the other, exactly the connections whose shortcuts the
/// line holds, and nothing fails: against an obedient server the toggle run ends after
/// three requests per toggled connection, with no error, each such pair flipped in turn.
pub proof fn law_toggle_flips_pressed(
    changeables: Seq<ChangeableView>,
    input: Seq<char>,
    world: Set<Pair>,
    fuel: nat,
)
    requires
        fuel >= 3 * pressed(changeables, input).len(),
    ensures
        ({
            let links = pressed(changeables, input);
            let (end, after) = drive_links(
                LinkRunView::start(links, LinkMode::Toggle, LinkStep::ToggleProbe),
                world,
                fuel,
            );
            &&& !end.pending()
            &&& end.errors.len() == 0
            &&& after == flip_all(world, pairs_of(links), 0)
        }),
{
    let links = pressed(changeables, input);
    lemma_toggle_rest(
        LinkRunView::start(links, LinkMode::Toggle, LinkStep::ToggleProbe),
        world,
        fuel,
    );
}

/// When the pairs are all different, flipping them one after the other links exactly the
/// pairs that were not linked among them, and leaves every other pair as it was.
pub proof fn law_flip_all_distinct(world: Set<Pair>, pairs: Seq<Pair>, k: int, q: Pair)
    requires
        0 <= k <= pairs.len(),
        forall|i: int, j: int| k <= i < j < pairs.len() ==> pairs[i] != pairs[j],
    ensures
        flip_all(world, pairs, k).contains(q) == (world.contains(q) != pairs.subrange(
            k,
            pairs.len() as int,
        ).contains(q)),
    decreases pairs.len() - k,
{
    if k < pairs.len() {
        law_flip_all_distinct(flip(world, pairs[k]), pairs, k + 1, q);
        let rest = pairs.subrange(k + 1, pairs.len() as int);
        let all = pairs.subrange(k, pairs.len() as int);
        assert(all =~= seq![pairs[k]] + rest);
        if q == pairs[k] {
            assert(!rest.contains(q)) by {
                if rest.contains(q) {
                    let j = choose|j: int| 0 <= j < rest.len() && rest[j] == q;
                    assert(pairs[k + 1 + j] == pairs[k]);
                }
            }
            assert(all.contains(q)) by {
                assert(all[0] == q);
            }
        } else {
            assert(all.contains(q) == rest.contains(q)) by {
                if all.contains(q) {
                    let j = choose|j: int| 0 <= j < all.len() && all[j] == q;
                    assert(rest[j - 1] == q);
                }
                if rest.contains(q) {
                    let j = choose|j: int| 0 <= j < rest.len() && rest[j] == q;
                    assert(all[j + 1] == q);
                }
            }
        }
    } else {
        assert(pairs.subrange(k, pairs.len() as int) =~= Seq::<Pair>::empty());
    }
}

proof fn lemma_flip_commute(world: Set<Pair>, p: Pair, q: Pair)
    ensures
        flip(flip(world, p), q) == flip(flip(world, q), p),
{
    assert(flip(flip(world, p), q) =~= flip(flip(world, q), p));
}

proof fn lemma_flip_twice(world: Set<Pair>, p: Pair)
    ensures
        flip(flip(world, p), p) == world,
{
    assert(flip(flip(world, p), p) =~= world);
}

/// Flipping one more pair before or after a run of flips comes to the same.
proof fn lemma_flip_all_commute(world: Set<Pair>, pairs: Seq<Pair>, k: int, p: Pair)
    ensures
        flip_all(flip(world, p), pairs, k) == flip(flip_all(world, pairs, k), p),
    decreases pairs.len() - k,
{
    if 0 <= k < pairs.len() {
        lemma_flip_commute(world, p, pairs[k]);
        lemma_flip_all_commute(flip(world, pairs[k]), pairs, k + 1, p);
    }
}

/// Flipping the same pairs twice gives back the links one started with.
pub proof fn law_flip_all_twice(world: Set<Pair>, pairs: Seq<Pair>, k: int)
    ensures
        flip_all(flip_all(world, pairs, k), pairs, k) == world,
    decreases pairs.len() - k,
{
    if 0 <= k < pairs.len() {
        let p = pairs[k];
        lemma_flip_all_commute(flip(world, p), pairs, k + 1, p);
        lemma_flip_twice(world, p);
        law_flip_all_twice(world, pairs, k + 1);
    }
}

/// Typing the same line twice leaves the links as they were: against an obedient server,
/// the second toggle run undoes what the first one did.
pub proof fn law_toggle_twice_restores(
    changeables: Seq<ChangeableView>,
    input: Seq<char>,
    world: Set<Pair>,
    fuel: nat,
)
    requires
        fuel >= 3 * pressed(changeables, input).len(),
    ensures
        ({
            let start = LinkRunView::start(
                pressed(changeables, input),
                LinkMode::Toggle,
                LinkStep::ToggleProbe,
            );
            drive_links(start, drive_links(start, world, fuel).1, fuel).1 == world
        }),
{
    let links = pressed(changeables, input);
    let start = LinkRunView::start(links, LinkMode::Toggle, LinkStep::ToggleProbe);
    law_toggle_flips_pressed(changeables, input, world, fuel);
    let once = drive_links(start, world, fuel).1;
    law_toggle_flips_pressed(changeables, input, once, fuel);
    law_flip_all_twice(world, pairs_of(links), 0);
}

/// The start-up connect against an obedient server that starts with `world`: the links it
/// then holds and the errors, one for each connection found linked already.
pub open spec fn init_all(world: Set<Pair>, links: Seq<ConnectionView>, k: int) -> (Set<Pair>, Seq<
    Seq<char>,
>)
    decreases links.len() - k,
{
    if k < 0 || k >= links.len() {
        (world, Seq::empty())
    } else if world.contains(links[k].2) {
        let (w, e) = init_all(world, links, k + 1);
        (w, seq![init_error(already_connected(links[k].0))] + e)
    } else {
        init_all(world.insert(links[k].2), links, k + 1)
    }
}

proof fn lemma_init_rest(v: LinkRunView, world: Set<Pair>, fuel: nat)
    requires
        0 <= v.k <= v.links.len(),
        v.mode == LinkMode::Init,
        v.step == LinkStep::ConnectProbe,
        v.first == LinkStep::ConnectProbe,
        fuel >= 2 * (v.links.len() - v.k),
    ensures
        drive_links(v, world, fuel) == (
            LinkRunView {
                k: v.links.len() as int,
                errors: v.errors + init_all(world, v.links, v.k).1,
                ..v
            },
            init_all(world, v.links, v.k).0,
        ),
    decreases v.links.len() - v.k,
{
    if v.k == v.links.len() {
        assert(v.errors + Seq::<Seq<char>>::empty() =~= v.errors);
        assert(LinkRunView { k: v.links.len() as int, errors: v.errors, ..v } == v);
    } else {
        let p = v.links[v.k].2;
        if world.contains(p) {
            let v1 = v.next(Reply::Linked(true));
            assert(drive_links(v, world, fuel) == drive_links(v1, world, (fuel - 1) as nat));
            lemma_init_rest(v1, world, (fuel - 1) as nat);
            assert(v1.errors + init_all(world, v.links, v.k + 1).1 =~= v.errors + init_all(
                world,
                v.links,
                v.k,
            ).1);
        } else {
            let v1 = v.next(Reply::Linked(false));
            let v2 = v1.next(Reply::Accepted);
            assert(drive_links(v, world, fuel) == drive_links(v1, world, (fuel - 1) as nat));
            assert(drive_links(v1, world, (fuel - 1) as nat) == drive_links(
                v2,
                world.insert(p),
                (fuel - 2) as nat,
            ));
            lemma_init_rest(v2, world.insert(p), (fuel - 2) as nat);
        }
    }
}

/// The start-up connect links each connection that is made at start-up, in order: against
/// an obedient server the run ends after at most two requests per such connection, with the
/// links and errors of `init_all`.
pub proof fn law_init_connects(links: Seq<ConnectionView>, world: Set<Pair>, fuel: nat)
    requires
        fuel >= 2 * links.len(),
    ensures
        ({
            let (end, after) = drive_links(
                LinkRunView::start(links, LinkMode::Init, LinkStep::ConnectProbe),
                world,
                fuel,
            );
            &&& !end.pending()
            &&& end.errors == init_all(world, links, 0).1
            &&& after == init_all(world, links, 0).0
        }),
{
    let v = LinkRunView::start(links, LinkMode::Init, LinkStep::ConnectProbe);
    lemma_init_rest(v, world, fuel);
    assert(Seq::<Seq<char>>::empty() + init_all(world, links, 0).1 =~= init_all(world, links, 0).1);
}

/// After the start-up connect, a pair is linked exactly when it was linked before or belongs
/// to one of the connections made at start-up.
pub proof fn law_init_links(world: Set<Pair>, links: Seq<ConnectionView>, k: int, q: Pair)
    requires
        0 <= k <= links.len(),
    ensures
        init_all(world, links, k).0.contains(q) == (world.contains(q) || exists|j: int|
            k <= j < links.len() && links[j].2 == q),
    decreases links.len() - k,
{
    if k < links.len() {
        let p = links[k].2;
        if world.contains(p) {
            law_init_links(world, links, k + 1, q);
        } else {
            law_init_links(world.insert(p), links, k + 1, q);
        }
        if exists|j: int| k <= j < links.len() && links[j].2 == q {
            let j = choose|j: int| k <= j < links.len() && links[j].2 == q;
            if j > k {
                assert(k + 1 <= j < links.len() && links[j].2 == q);
            }
        }
    }
}

/// The switch run after at most `fuel` requests to an obedient server that starts with the
/// links `world`, and the links that server then holds.
pub open spec fn drive_switch(v: SwitchRunView, world: Set<Pair>, fuel: nat) -> (SwitchRunView, Set<Pair>)
    decreases fuel,
{
    if fuel == 0 {
        (v, world)
    } else {
        match v.request() {
            None => (v, world),
            Some(q) => drive_switch(v.next(answer(world, q)), apply(world, q), (fuel - 1) as nat),
        }
    }
}

/// The port pairs of the alternatives of a switch.
pub open spec fn alternate_pairs_of(switch: SwitchView) -> Seq<Pair> {
    switch.1.map_values(|a: ChangeableView| a.1.2)
}

/// `world` with the pairs from index `f` on unlinked.
pub open spec fn sweep_world(world: Set<Pair>, pairs: Seq<Pair>, f: int) -> Set<Pair>
    decreases pairs.len() - f,
{
    if f < 0 || f >= pairs.len() {
        world
    } else {
        sweep_world(world.remove(pairs[f]), pairs, f + 1)
    }
}

/// What pressing the alternative `p` of `switch` does to the links `world`: a linked
/// alternative gives way to the default, with every alternative unlinked; any other is
/// linked in place of the default and of every other alternative.
pub open spec fn press_effect(world: Set<Pair>, switch: SwitchView, p: int) -> Set<Pair> {
    let alternates = alternate_pairs_of(switch);
    let standard = switch.0.2;
    if world.contains(alternates[p]) {
        sweep_world(world, alternates, 0).insert(standard)
    } else {
        sweep_world(world.remove(standard), alternates, 0).insert(alternates[p])
    }
}

/// The presses from index `k` on, applied one after the other.
pub open spec fn switch_world(
    world: Set<Pair>,
    switches: Seq<SwitchView>,
    presses: Seq<(int, int)>,
    k: int,
) -> Set<Pair>
    decreases presses.len() - k,
{
    if k < 0 || k >= presses.len() {
        world
    } else {
        switch_world(
            press_effect(world, switches[presses[k].0], presses[k].1),
            switches,
            presses,
            k + 1,
        )
    }
}

/// Requests enough to handle the presses from index `k` on.
pub open spec fn presses_bound(switches: Seq<SwitchView>, presses: Seq<(int, int)>, k: int) -> nat
    decreases presses.len() - k,
{
    if k < 0 || k >= presses.len() {
        0
    } else {
        (4 * switches[presses[k].0].1.len() + 7 + presses_bound(switches, presses, k + 1)) as nat
    }
}

/// Each press from index `k` on names a switch and one of its alternatives.
pub open spec fn presses_valid(switches: Seq<SwitchView>, presses: Seq<(int, int)>, k: int) -> bool {
    forall|i: int|
        k <= i < presses.len() ==> 0 <= (#[trigger] presses[i]).0 < switches.len() && 0 <= presses[i].1
            < switches[presses[i].0].1.len()
}

pub proof fn lemma_sweep_world(world: Set<Pair>, pairs: Seq<Pair>, f: int, q: Pair)
    requires
        0 <= f <= pairs.len(),
    ensures
        sweep_world(world, pairs, f).contains(q) == (world.contains(q) && !pairs.subrange(
            f,
            pairs.len() as int,
        ).contains(q)),
    decreases pairs.len() - f,
{
    if f < pairs.len() {
        lemma_sweep_world(world.remove(pairs[f]), pairs, f + 1, q);
        let rest = pairs.subrange(f + 1, pairs.len() as int);
        let all = pairs.subrange(f, pairs.len() as int);
        if all.contains(q) && q != pairs[f] {
            let j = choose|j: int| 0 <= j < all.len() && all[j] == q;
            assert(rest[j - 1] == q);
        }
        if rest.contains(q) {
            let j = choose|j: int| 0 <= j < rest.len() && rest[j] == q;
            assert(all[j + 1] == q);
        }
        if q == pairs[f] {
            assert(all[0] == q);
        }
    } else {
        assert(pairs.subrange(f, pairs.len() as int) =~= Seq::<Pair>::empty());
    }
}

/// The sweep over the alternatives from `f` on: each linked one is toggled off (four
/// requests), each other one only asked about (one request).
proof fn lemma_sweep(v: SwitchRunView, world: Set<Pair>, restore: bool, f: int, fuel: nat) -> (c: nat)
    requires
        v.press_valid(),
        0 <= f <= v.alternates().len(),
        v == v.sweep_from(restore, f),
        fuel >= 4 * (v.alternates().len() - f),
    ensures
        c <= 4 * (v.alternates().len() - f),
        drive_switch(v, world, fuel) == drive_switch(
            v.sweep_from(restore, v.alternates().len() as int),
            sweep_world(world, alternate_pairs_of(v.switch_at()), f),
            (fuel - c) as nat,
        ),
    decreases v.alternates().len() - f,
{
    let n = v.alternates().len() as int;
    let pairs = alternate_pairs_of(v.switch_at());
    if f == n {
        0
    } else {
        let pf = v.alternates()[f].1.2;
        assert(pairs[f] == pf);
        let next = v.sweep_from(restore, f + 1);
        if world.contains(pf) {
            let v1 = v.next(Reply::Linked(true));
            let v2 = v1.next(Reply::Linked(true));
            let v3 = v2.next(Reply::Linked(true));
            let v4 = v3.next(Reply::Accepted);
            assert(drive_switch(v, world, fuel) == drive_switch(v1, world, (fuel - 1) as nat));
            assert(drive_switch(v1, world, (fuel - 1) as nat) == drive_switch(
                v2,
                world,
                (fuel - 2) as nat,
            ));
            assert(drive_switch(v2, world, (fuel - 2) as nat) == drive_switch(
                v3,
                world,
                (fuel - 3) as nat,
            ));
            assert(drive_switch(v3, world, (fuel - 3) as nat) == drive_switch(
                v4,
                world.remove(pf),
                (fuel - 4) as nat,
            ));
            assert(v4 == next);
            let c = lemma_sweep(next, world.remove(pf), restore, f + 1, (fuel - 4) as nat);
            c + 4
        } else {
            let v1 = v.next(Reply::Linked(false));
            assert(drive_switch(v, world, fuel) == drive_switch(v1, world, (fuel - 1) as nat));
            assert(v1 == next);
            assert(world.remove(pf) =~= world);
            let c = lemma_sweep(next, world, restore, f + 1, (fuel - 1) as nat);
            c + 1
        }
    }
}

/// One press takes at most `4 n + 7` requests, `n` the number of alternatives of its switch,
/// raises no error and has the effect `press_effect`.
proof fn lemma_press(v: SwitchRunView, world: Set<Pair>, fuel: nat) -> (c: nat)
    requires
        v.press_valid(),
        v.stage == SwitchStage::AskPressed,
        !v.restore,
        v.f == 0,
        v.step == LinkStep::ToggleProbe,
        fuel >= 4 * v.alternates().len() + 7,
    ensures
        c <= 4 * v.alternates().len() + 7,
        drive_switch(v, world, fuel) == drive_switch(
            v.press_done(),
            press_effect(world, v.switch_at(), v.presses[v.k].1),
            (fuel - c) as nat,
        ),
{
    let n = v.alternates().len() as int;
    let p = v.presses[v.k].1;
    let pairs = alternate_pairs_of(v.switch_at());
    let standard = v.standard().2;
    assert(pairs[p] == v.pressed_alternate().2);
    if world.contains(pairs[p]) {
        let v1 = v.next(Reply::Linked(true));
        assert(v1 == v.sweep_from(true, 0));
        assert(drive_switch(v, world, fuel) == drive_switch(v1, world, (fuel - 1) as nat));
        let cs = lemma_sweep(v1, world, true, 0, (fuel - 1) as nat);
        let vs = v1.sweep_from(true, n);
        let ws = sweep_world(world, pairs, 0);
        let rest = (fuel - 1 - cs) as nat;
        if ws.contains(standard) {
            let v2 = vs.next(Reply::Linked(true));
            assert(v2 == v.press_done());
            assert(drive_switch(vs, ws, rest) == drive_switch(v2, ws, (rest - 1) as nat));
            assert(ws.insert(standard) =~= ws);
            cs + 2
        } else {
            let v2 = vs.next(Reply::Linked(false));
            let v3 = v2.next(Reply::Linked(false));
            let v4 = v3.next(Reply::Accepted);
            assert(drive_switch(vs, ws, rest) == drive_switch(v2, ws, (rest - 1) as nat));
            assert(drive_switch(v2, ws, (rest - 1) as nat) == drive_switch(v3, ws, (rest - 2) as nat));
            assert(drive_switch(v3, ws, (rest - 2) as nat) == drive_switch(
                v4,
                ws.insert(standard),
                (rest - 3) as nat,
            ));
            assert(v4 == v.press_done());
            cs + 4
        }
    } else {
        let v1 = v.next(Reply::Linked(false));
        assert(drive_switch(v, world, fuel) == drive_switch(v1, world, (fuel - 1) as nat));
        let w1 = world.remove(standard);
        let v2 = v1.sweep_from(false, 0);
        let c1: nat = if world.contains(standard) {
            let a = v1.next(Reply::Linked(true));
            let b = a.next(Reply::Linked(true));
            let d = b.next(Reply::Accepted);
            assert(drive_switch(v1, world, (fuel - 1) as nat) == drive_switch(a, world, (fuel - 2) as nat));
            assert(drive_switch(a, world, (fuel - 2) as nat) == drive_switch(b, world, (fuel - 3) as nat));
            assert(drive_switch(b, world, (fuel - 3) as nat) == drive_switch(d, w1, (fuel - 4) as nat));
            assert(d == v2);
            4
        } else {
            let a = v1.next(Reply::Linked(false));
            assert(drive_switch(v1, world, (fuel - 1) as nat) == drive_switch(a, world, (fuel - 2) as nat));
            assert(a == v2);
            assert(w1 =~= world);
            2
        };
        let cs = lemma_sweep(v2, w1, false, 0, (fuel - c1) as nat);
        let vs = v2.sweep_from(false, n);
        let ws = sweep_world(w1, pairs, 0);
        let rest = (fuel - c1 - cs) as nat;
        lemma_sweep_world(w1, pairs, 0, pairs[p]);
        assert(!ws.contains(pairs[p]));
        assert(vs.pressed_alternate().2 == pairs[p]);
        let a = vs.next(Reply::Linked(false));
        let b = a.next(Reply::Linked(false));
        let d = b.next(Reply::Accepted);
        assert(drive_switch(vs, ws, rest) == drive_switch(a, ws, (rest - 1) as nat));
        assert(drive_switch(a, ws, (rest - 1) as nat) == drive_switch(b, ws, (rest - 2) as nat));
        assert(drive_switch(b, ws, (rest - 2) as nat) == drive_switch(
            d,
            ws.insert(pairs[p]),
            (rest - 3) as nat,
        ));
        assert(d == v.press_done());
        c1 + cs + 3
    }
}

proof fn lemma_presses(v: SwitchRunView, world: Set<Pair>, fuel: nat)
    requires
        0 <= v.k <= v.presses.len(),
        presses_valid(v.switches, v.presses, v.k),
        v.stage == SwitchStage::AskPressed,
        !v.restore,
        v.f == 0,
        v.step == LinkStep::ToggleProbe,
        fuel >= presses_bound(v.switches, v.presses, v.k),
    ensures
        drive_switch(v, world, fuel) == (
            SwitchRunView { k: v.presses.len() as int, ..v },
            switch_world(world, v.switches, v.presses, v.k),
        ),
    decreases v.presses.len() - v.k,
{
    if v.k == v.presses.len() {
        assert(SwitchRunView { k: v.presses.len() as int, ..v } == v);
        if fuel > 0 {
            assert(v.request() is None);
        }
    } else {
        assert(presses_valid(v.switches, v.presses, v.k) ==> 0 <= v.presses[v.k].0 < v.switches.len());
        let c = lemma_press(v, world, fuel);
        let w = v.press_done();
        assert(presses_valid(w.switches, w.presses, w.k));
        lemma_presses(
            w,
            press_effect(world, v.switch_at(), v.presses[v.k].1),
            (fuel - c) as nat,
        );
        assert(SwitchRunView { k: v.presses.len() as int, ..w } == SwitchRunView {
            k: v.presses.len() as int,
            ..v
        });
    }
}

proof fn lemma_pressed_indices(alternates: Seq<ChangeableView>, input: Seq<char>, n: int)
    requires
        0 <= n <= alternates.len(),
    ensures
        forall|i: int|
            0 <= i < pressed_indices(alternates, input, n).len() ==> 0 <= #[trigger] pressed_indices(
                alternates,
                input,
                n,
            )[i] < n,
    decreases n,
{
    if n > 0 {
        lemma_pressed_indices(alternates, input, n - 1);
        let before = pressed_indices(alternates, input, n - 1);
        let now = pressed_indices(alternates, input, n);
        assert forall|i: int| 0 <= i < now.len() implies 0 <= #[trigger] now[i] < n by {
            if i < before.len() {
                assert(now[i] == before[i]);
            }
        }
    }
}

pub proof fn lemma_presses_of_valid(switches: Seq<SwitchView>, input: Seq<char>, s: int)
    requires
        0 <= s <= switches.len(),
    ensures
        presses_valid(switches, presses_of(switches, input, s), 0),
        forall|i: int|
            0 <= i < presses_of(switches, input, s).len() ==> (#[trigger] presses_of(
                switches,
                input,
                s,
            )[i]).0 < s,
    decreases s,
{
    if s > 0 {
        lemma_presses_of_valid(switches, input, s - 1);
        let before = presses_of(switches, input, s - 1);
        let here = pressed_indices(switches[s - 1].1, input, switches[s - 1].1.len() as int);
        lemma_pressed_indices(switches[s - 1].1, input, switches[s - 1].1.len() as int);
        let mapped = here.map_values(|i: int| (s - 1, i));
        assert forall|i: int| 0 <= i < (before + mapped).len() implies 0 <= (#[trigger] (before
            + mapped)[i]).0 < s && 0 <= (before + mapped)[i].1 < switches[(before
            + mapped)[i].0].1.len() by {
            if i >= before.len() {
                assert((before + mapped)[i] == (s - 1, here[i - before.len()]));
            }
        }
    }
}

/// Pressing alternatives of switches does, press after press, what `press_effect` says, and
/// nothing fails: against an obedient server the switch run ends within `presses_bound`
/// requests, with no error and the links of `switch_world`.
pub proof fn law_switch_presses(switches: Seq<SwitchView>, input: Seq<char>, world: Set<Pair>, fuel: nat)
    requires
        fuel >= presses_bound(switches, presses_of(switches, input, switches.len() as int), 0),
    ensures
        ({
            let presses = presses_of(switches, input, switches.len() as int);
            let (end, after) = drive_switch(SwitchRunView::start(switches, presses), world, fuel);
            &&& !end.pending()
            &&& end.errors.len() == 0
            &&& after == switch_world(world, switches, presses, 0)
        }),
{
    let presses = presses_of(switches, input, switches.len() as int);
    lemma_presses_of_valid(switches, input, switches.len() as int);
    lemma_presses(SwitchRunView::start(switches, presses), world, fuel);
}

/// After pressing the alternative `p` of a switch, if that alternative was linked, the
/// default is linked and every alternative that is not the default is unlinked; if it was
/// not, it is linked, and the default and every other alternative are unlinked unless they
/// are the pressed alternative. Every other pair stays as it was.
pub proof fn law_press_effect(world: Set<Pair>, switch: SwitchView, p: int, q: Pair)
    requires
        0 <= p < switch.1.len(),
    ensures
        ({
            let alternates = alternate_pairs_of(switch);
            let standard = switch.0.2;
            press_effect(world, switch, p).contains(q) == if world.contains(alternates[p]) {
                q == standard || (world.contains(q) && !alternates.contains(q))
            } else {
                q == alternates[p] || (world.contains(q) && q != standard && !alternates.contains(q))
            }
        }),
{
    let alternates = alternate_pairs_of(switch);
    let standard = switch.0.2;
    assert(alternates.subrange(0, alternates.len() as int) =~= alternates);
    if world.contains(alternates[p]) {
        lemma_sweep_world(world, alternates, 0, q);
    } else {
        lemma_sweep_world(world.remove(standard), alternates, 0, q);
    }
}

/// The default of a switch is none of its alternatives, and no two alternatives link the
/// same ports.
pub open spec fn switch_distinct(switch: SwitchView) -> bool {
    let alternates = alternate_pairs_of(switch);
    &&& !alternates.contains(switch.0.2)
    &&& forall|i: int, j: int|
        0 <= i < j < alternates.len() ==> #[trigger] alternates[i] != #[trigger] alternates[j]
}

/// After any press on a switch whose ports are all different, exactly one of its
/// connections is linked: the default, when the pressed alternative was linked, and the
/// pressed alternative otherwise.
pub proof fn law_press_leaves_one_linked(world: Set<Pair>, switch: SwitchView, p: int)
    requires
        0 <= p < switch.1.len(),
        switch_distinct(switch),
    ensures
        ({
            let alternates = alternate_pairs_of(switch);
            let after = press_effect(world, switch, p);
            if world.contains(alternates[p]) {
                &&& after.contains(switch.0.2)
                &&& forall|i: int| 0 <= i < alternates.len() ==> !after.contains(#[trigger] alternates[i])
            } else {
                &&& !after.contains(switch.0.2)
                &&& forall|i: int|
                    0 <= i < alternates.len() ==> (after.contains(#[trigger] alternates[i]) == (i == p))
            }
        }),
{
    let alternates = alternate_pairs_of(switch);
    let standard = switch.0.2;
    law_press_effect(world, switch, p, standard);
    assert forall|i: int| 0 <= i < alternates.len() implies press_effect(world, switch, p).contains(
        #[trigger] alternates[i],
    ) == (!world.contains(alternates[p]) && i == p) by {
        law_press_effect(world, switch, p, alternates[i]);
        assert(alternates.contains(alternates[i]));
        assert(alternates[i] != standard);
        if i != p {
            if i < p {
                assert(alternates[i] != alternates[p]);
            } else {
                assert(alternates[p] != alternates[i]);
            }
        }
    }
}

/// Pressing the same alternative twice, starting from a switch whose default alone is
/// linked, leaves the links as they were.
pub proof fn law_press_twice_restores(world: Set<Pair>, switch: SwitchView, p: int)
    requires
        0 <= p < switch.1.len(),
        !alternate_pairs_of(switch).contains(switch.0.2),
        world.contains(switch.0.2),
        forall|i: int|
            0 <= i < switch.1.len() ==> !world.contains(#[trigger] alternate_pairs_of(switch)[i]),
    ensures
        press_effect(press_effect(world, switch, p), switch, p) == world,
{
    let alternates = alternate_pairs_of(switch);
    let standard = switch.0.2;
    let once = press_effect(world, switch, p);
    let twice = press_effect(once, switch, p);
    assert(!world.contains(alternates[p]));
    law_press_effect(world, switch, p, alternates[p]);
    assert(once.contains(alternates[p]));
    assert forall|q: Pair| #[trigger] twice.contains(q) == world.contains(q) by {
        law_press_effect(once, switch, p, q);
        law_press_effect(world, switch, p, q);
        if alternates.contains(q) {
            let i = choose|i: int| 0 <= i < alternates.len() && alternates[i] == q;
            assert(!world.contains(alternates[i]));
        }
    }
    assert(twice =~= world);
}

/// The port pairs of a switch: its default's, then its alternatives'.
pub open spec fn switch_pairs(switch: SwitchView) -> Seq<Pair> {
    seq![switch.0.2] + alternate_pairs_of(switch)
}

/// No two connections of the switches, defaults included, link the same ports.
pub open spec fn switches_distinct(switches: Seq<SwitchView>) -> bool {
    forall|s: int, t: int, i: int, j: int|
        0 <= s < switches.len() && 0 <= t < switches.len() && 0 <= i < switch_pairs(
            switches[s],
        ).len() && 0 <= j < switch_pairs(switches[t]).len() && (s != t || i != j)
            ==> #[trigger] switch_pairs(switches[s])[i] != #[trigger] switch_pairs(switches[t])[j]
}

/// Exactly one connection of `switch` is linked in `world`: the one at `k`.
pub open spec fn linked_alone(world: Set<Pair>, switch: SwitchView, k: int) -> bool {
    &&& 0 <= k < switch_pairs(switch).len()
    &&& world.contains(switch_pairs(switch)[k])
    &&& forall|j: int|
        0 <= j < switch_pairs(switch).len() && j != k ==> !world.contains(
            #[trigger] switch_pairs(switch)[j],
        )
}

/// Exactly one connection of `switch` is linked in `world`.
pub open spec fn one_linked(world: Set<Pair>, switch: SwitchView) -> bool {
    exists|k: int| linked_alone(world, switch, k)
}

proof fn lemma_switch_distinct(switches: Seq<SwitchView>, s: int)
    requires
        switches_distinct(switches),
        0 <= s < switches.len(),
    ensures
        switch_distinct(switches[s]),
{
    let sw = switches[s];
    let alternates = alternate_pairs_of(sw);
    let sp = switch_pairs(sw);
    assert forall|i: int| 0 <= i < alternates.len() implies alternates[i] != sw.0.2 by {
        assert(sp[i + 1] == alternates[i]);
        assert(sp[0] == sw.0.2);
        assert(sp[i + 1] != sp[0]);
    }
    assert forall|i: int, j: int| 0 <= i < j < alternates.len() implies #[trigger] alternates[i]
        != #[trigger] alternates[j] by {
        assert(sp[i + 1] == alternates[i]);
        assert(sp[j + 1] == alternates[j]);
        assert(sp[i + 1] != sp[j + 1]);
    }
}

/// A press on the switch at `t` leaves the links of every other switch as they were.
proof fn lemma_press_elsewhere(
    world: Set<Pair>,
    switches: Seq<SwitchView>,
    t: int,
    p: int,
    s: int,
    i: int,
)
    requires
        switches_distinct(switches),
        0 <= t < switches.len(),
        0 <= p < switches[t].1.len(),
        0 <= s < switches.len(),
        s != t,
        0 <= i < switch_pairs(switches[s]).len(),
    ensures
        press_effect(world, switches[t], p).contains(switch_pairs(switches[s])[i]) == world.contains(
            switch_pairs(switches[s])[i],
        ),
{
    let q = switch_pairs(switches[s])[i];
    let other = switch_pairs(switches[t]);
    let alternates = alternate_pairs_of(switches[t]);
    law_press_effect(world, switches[t], p, q);
    assert(other[0] == switches[t].0.2);
    assert(q != other[0]);
    if alternates.contains(q) {
        let j = choose|j: int| 0 <= j < alternates.len() && alternates[j] == q;
        assert(other[j + 1] == alternates[j]);
        assert(q != other[j + 1]);
    }
}

/// Presses that name none of the switch at `s` leave its links as they were.
proof fn lemma_run_elsewhere(
    world: Set<Pair>,
    switches: Seq<SwitchView>,
    presses: Seq<(int, int)>,
    k: int,
    s: int,
    i: int,
)
    requires
        switches_distinct(switches),
        0 <= k <= presses.len(),
        presses_valid(switches, presses, k),
        0 <= s < switches.len(),
        0 <= i < switch_pairs(switches[s]).len(),
        forall|m: int| k <= m < presses.len() ==> (#[trigger] presses[m]).0 != s,
    ensures
        switch_world(world, switches, presses, k).contains(switch_pairs(switches[s])[i])
            == world.contains(switch_pairs(switches[s])[i]),
    decreases presses.len() - k,
{
    if k < presses.len() {
        let t = presses[k].0;
        let w1 = press_effect(world, switches[t], presses[k].1);
        lemma_press_elsewhere(world, switches, t, presses[k].1, s, i);
        lemma_run_elsewhere(w1, switches, presses, k + 1, s, i);
    }
}

/// A press on a switch whose ports are all different leaves one of its connections linked.
proof fn lemma_press_one_linked(world: Set<Pair>, switch: SwitchView, p: int)
    requires
        0 <= p < switch.1.len(),
        switch_distinct(switch),
    ensures
        one_linked(press_effect(world, switch, p), switch),
{
    law_press_leaves_one_linked(world, switch, p);
    let after = press_effect(world, switch, p);
    let alternates = alternate_pairs_of(switch);
    let sp = switch_pairs(switch);
    let k = if world.contains(alternates[p]) {
        0
    } else {
        p + 1
    };
    assert(sp[0] == switch.0.2);
    assert forall|j: int| 0 <= j < sp.len() && j != k implies !after.contains(
        #[trigger] sp[j],
    ) by {
        if j > 0 {
            assert(sp[j] == alternates[j - 1]);
        }
    }
    assert(sp[k] == if k == 0 {
        switch.0.2
    } else {
        alternates[p]
    });
    assert(linked_alone(after, switch, k));
}

proof fn lemma_run_one_linked(
    world: Set<Pair>,
    switches: Seq<SwitchView>,
    presses: Seq<(int, int)>,
    k: int,
    s: int,
)
    requires
        switches_distinct(switches),
        0 <= k <= presses.len(),
        presses_valid(switches, presses, k),
        0 <= s < switches.len(),
        exists|m: int| k <= m < presses.len() && (#[trigger] presses[m]).0 == s,
    ensures
        one_linked(switch_world(world, switches, presses, k), switches[s]),
    decreases presses.len() - k,
{
    let t = presses[k].0;
    let p = presses[k].1;
    let w1 = press_effect(world, switches[t], p);
    if exists|m: int| k + 1 <= m < presses.len() && (#[trigger] presses[m]).0 == s {
        lemma_run_one_linked(w1, switches, presses, k + 1, s);
    } else {
        assert(t == s);
        lemma_switch_distinct(switches, s);
        lemma_press_one_linked(world, switches[s], p);
        let c = choose|c: int| linked_alone(w1, switches[s], c);
        let sp = switch_pairs(switches[s]);
        let end = switch_world(world, switches, presses, k);
        assert(end == switch_world(w1, switches, presses, k + 1));
        assert forall|i: int| 0 <= i < sp.len() implies #[trigger] end.contains(sp[i])
            == w1.contains(sp[i]) by {
            lemma_run_elsewhere(w1, switches, presses, k + 1, s, i);
        }
        assert(linked_alone(end, switches[s], c));
    }
}

proof fn lemma_pressed_index_found(alternates: Seq<ChangeableView>, input: Seq<char>, n: int, j: int)
    requires
        0 <= j < n <= alternates.len(),
        input.contains(alternates[j].0),
    ensures
        exists|m: int|
            0 <= m < pressed_indices(alternates, input, n).len() && #[trigger] pressed_indices(
                alternates,
                input,
                n,
            )[m] == j,
    decreases n,
{
    let now = pressed_indices(alternates, input, n);
    let before = pressed_indices(alternates, input, n - 1);
    if j == n - 1 {
        assert(now[before.len() as int] == j);
    } else {
        lemma_pressed_index_found(alternates, input, n - 1, j);
        let m = choose|m: int| 0 <= m < before.len() && #[trigger] before[m] == j;
        if input.contains(alternates[n - 1].0) {
            assert(now[m] == before[m]);
        }
        assert(now[m] == j);
    }
}

proof fn lemma_press_found(switches: Seq<SwitchView>, input: Seq<char>, n: int, s: int, j: int)
    requires
        0 <= s < n <= switches.len(),
        0 <= j < switches[s].1.len(),
        input.contains(switches[s].1[j].0),
    ensures
        exists|m: int|
            0 <= m < presses_of(switches, input, n).len() && (#[trigger] presses_of(
                switches,
                input,
                n,
            )[m]).0 == s,
    decreases n,
{
    let now = presses_of(switches, input, n);
    let before = presses_of(switches, input, n - 1);
    if s == n - 1 {
        let alts = switches[s].1;
        lemma_pressed_index_found(alts, input, alts.len() as int, j);
        let here = pressed_indices(alts, input, alts.len() as int);
        let m = choose|m: int| 0 <= m < here.len() && #[trigger] here[m] == j;
        let mapped = here.map_values(|i: int| (s, i));
        assert(now == before + mapped);
        assert(now[before.len() + m] == mapped[m]);
        assert(now[before.len() + m].0 == s);
    } else {
        lemma_press_found(switches, input, n - 1, s, j);
        let m = choose|m: int| 0 <= m < before.len() && (#[trigger] before[m]).0 == s;
        let mapped = pressed_indices(switches[n - 1].1, input, switches[n - 1].1.len() as int).map_values(
            |i: int| (n - 1, i),
        );
        assert(now == before + mapped);
        assert(now[m] == before[m]);
    }
}

/// After a whole switch run against an obedient server, every switch that the input pressed
/// has exactly one of its connections linked, however many of its shortcuts the input
/// holds and whatever was linked before, provided no two connections of the switches link
/// the same ports.
pub proof fn law_switch_run_leaves_one_linked(
    switches: Seq<SwitchView>,
    input: Seq<char>,
    world: Set<Pair>,
    fuel: nat,
    s: int,
    j: int,
)
    requires
        fuel >= presses_bound(switches, presses_of(switches, input, switches.len() as int), 0),
        switches_distinct(switches),
        0 <= s < switches.len(),
        0 <= j < switches[s].1.len(),
        input.contains(switches[s].1[j].0),
    ensures
        one_linked(
            drive_switch(
                SwitchRunView::start(switches, presses_of(switches, input, switches.len() as int)),
                world,
                fuel,
            ).1,
            switches[s],
        ),
{
    let presses = presses_of(switches, input, switches.len() as int);
    law_switch_presses(switches, input, world, fuel);
    lemma_presses_of_valid(switches, input, switches.len() as int);
    lemma_press_found(switches, input, switches.len() as int, s, j);
    lemma_run_one_linked(world, switches, presses, 0, s);
}

/// The status run after at most `fuel` probes answered by an obedient server with the links
/// `world`.
pub open spec fn drive_status(v: StatusRunView, world: Set<Pair>, fuel: nat) -> StatusRunView
    decreases fuel,
{
    if fuel == 0 {
        v
    } else {
        match v.request() {
            None => v,
            Some(q) => drive_status(v.next(answer(world, q)), apply(world, q), (fuel - 1) as nat),
        }
    }
}

proof fn lemma_status_rest(v: StatusRunView, world: Set<Pair>, fuel: nat)
    requires
        v.answers.len() <= status_pairs(v.muteable, v.switchable).len(),
        forall|i: int|
            0 <= i < v.answers.len() ==> v.answers[i] == world.contains(
                #[trigger] status_pairs(v.muteable, v.switchable)[i],
            ),
        fuel >= status_pairs(v.muteable, v.switchable).len() - v.answers.len(),
    ensures
        drive_status(v, world, fuel).answers == status_pairs(v.muteable, v.switchable).map_values(
            |q: Pair| world.contains(q),
        ),
        drive_status(v, world, fuel).muteable == v.muteable,
        drive_status(v, world, fuel).switchable == v.switchable,
    decreases status_pairs(v.muteable, v.switchable).len() - v.answers.len(),
{
    let pairs = status_pairs(v.muteable, v.switchable);
    if v.answers.len() == pairs.len() {
        if fuel > 0 {
            assert(v.request() is None);
        }
        assert(v.answers =~= pairs.map_values(|q: Pair| world.contains(q)));
    } else {
        let q = (RequestKind::Probe, pairs[v.answers.len() as int]);
        let v1 = v.next(answer(world, q));
        assert(drive_status(v, world, fuel) == drive_status(v1, world, (fuel - 1) as nat));
        lemma_status_rest(v1, world, (fuel - 1) as nat);
    }
}

/// The status shows the links as the server holds them: against an obedient server with
/// the links `world`, the status run ends after one probe per pair it shows, and each answer
/// says whether that pair is linked.
pub proof fn law_status_reports(
    muteable: Seq<ChangeableView>,
    switchable: Seq<SwitchView>,
    world: Set<Pair>,
    fuel: nat,
)
    requires
        fuel >= status_pairs(muteable, switchable).len(),
    ensures
        ({
            let end = drive_status(
                StatusRunView { muteable, switchable, answers: Seq::empty() },
                world,
                fuel,
            );
            &&& !end.pending()
            &&& end.muteable == muteable
            &&& end.switchable == switchable
            &&& end.answers == status_pairs(muteable, switchable).map_values(
                |q: Pair| world.contains(q),
            )
        }),
{
    lemma_status_rest(StatusRunView { muteable, switchable, answers: Seq::empty() }, world, fuel);
}

/// The status screen shows, for each connection, whether the server holds its own pair:
/// after the status run against an obedient server with the links `world`, the line of
/// muteable connection `i` says `unmuted` exactly when its pair is linked, and the line of
/// alternative `j` of switch `s` says `active` exactly when that alternative's pair is linked.
pub proof fn law_status_shows_each_pair(
    muteable: Seq<ChangeableView>,
    switchable: Seq<SwitchView>,
    world: Set<Pair>,
    fuel: nat,
    program_name: Seq<char>,
    program_version: Seq<char>,
    errors: Seq<Seq<char>>,
)
    requires
        fuel >= status_pairs(muteable, switchable).len(),
    ensures
        ({
            let end = drive_status(
                StatusRunView { muteable, switchable, answers: Seq::empty() },
                world,
                fuel,
            );
            let lines = status_lines(program_name, program_version, end, errors);
            let head = 1 + if muteable.len() > 0 {
                muteable.len() + 2
            } else {
                0
            };
            &&& forall|i: int|
                0 <= i < muteable.len() ==> #[trigger] lines[2 + i] == state_line(
                    muteable[i].1.0,
                    world.contains(muteable[i].1.2),
                    "unmuted"@,
                    "muted"@,
                )
            &&& forall|s: int, j: int|
                0 <= s < switchable.len() && 0 <= j < switchable[s].1.len() ==> #[trigger] lines[head
                    + blocks_len(switchable.take(s)) + 1 + j] == state_line(
                    #[trigger] switchable[s].1[j].1.0,
                    world.contains(switchable[s].1[j].1.2),
                    "active"@,
                    "inactive"@,
                )
        }),
{
    law_status_reports(muteable, switchable, world, fuel);
    let end = drive_status(StatusRunView { muteable, switchable, answers: Seq::empty() }, world, fuel);
    let pairs = status_pairs(muteable, switchable);
    let answers = end.answers;
    let m = muteable.len() as int;
    let mpairs = muteable.map_values(|c: ChangeableView| c.1.2);
    assert(pairs == mpairs + alternate_pairs(switchable));
    let header = seq![program_name + " "@ + program_version + "\n"@];
    let mblock = crate::status::muteable_block(muteable, answers);
    let sblocks = crate::status::switch_blocks(switchable, answers, m);
    let eblock = crate::status::error_block(errors);
    let lines = status_lines(program_name, program_version, end, errors);
    assert(lines == header + mblock + sblocks + eblock);
    let head = 1 + if m > 0 {
        m + 2
    } else {
        0
    };
    assert(mblock.len() == head - 1);
    assert forall|i: int| 0 <= i < m implies #[trigger] lines[2 + i] == state_line(
        muteable[i].1.0,
        world.contains(muteable[i].1.2),
        "unmuted"@,
        "muted"@,
    ) by {
        assert(pairs[i] == mpairs[i]);
        assert(answers[i] == world.contains(pairs[i]));
        assert(lines[2 + i] == mblock[1 + i]);
    }
    assert forall|s: int, j: int|
        0 <= s < switchable.len() && 0 <= j < switchable[s].1.len() implies #[trigger] lines[head
        + blocks_len(switchable.take(s)) + 1 + j] == state_line(
        #[trigger] switchable[s].1[j].1.0,
        world.contains(switchable[s].1[j].1.2),
        "active"@,
        "inactive"@,
    ) by {
        lemma_alternate_pair_at(switchable, s, j);
        lemma_switch_line_at(switchable, answers, m, s, j);
        let k = alternate_pairs(switchable.take(s)).len() + j;
        assert(pairs[m + k] == alternate_pairs(switchable)[k]);
        assert(answers[m + k] == world.contains(pairs[m + k]));
        let idx = blocks_len(switchable.take(s)) + 1 + j;
        assert(lines[head + idx] == sblocks[idx]);
    }
}

} // verus!
