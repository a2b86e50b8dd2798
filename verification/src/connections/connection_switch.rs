use vstd::prelude::*;
use crate::connections::connection::{Connection, ConnectionView};
use crate::connections::changeable_connection::{ChangeableConnection, ChangeableView, changeable_views};
use crate::connections::link::{
    Reply, Request, RequestKind, LinkMode, LinkStep, Pair, link_advance, step_kind, advance_link,
    step_request, message_view,
};
use crate::connections::link_run::message_views;
use crate::text::contains_char;

verus! {

/// A default connection and the alternatives that can take its place; at most one of them
/// is meant to be linked at a time.
#[derive(Clone)]
pub struct ConnectionSwitch {
    pub standard: Connection,
    pub connections: Vec<ChangeableConnection>,
}

/// A switch as a value: its default connection and its alternatives.
pub type SwitchView = (ConnectionView, Seq<ChangeableView>);

impl View for ConnectionSwitch {
    type V = SwitchView;

    open spec fn view(&self) -> SwitchView {
        (self.standard@, changeable_views(self.connections@))
    }
}

/// The views of a sequence of switches.
pub open spec fn switch_views(v: Seq<ConnectionSwitch>) -> Seq<SwitchView> {
    v.map_values(|s: ConnectionSwitch| s@)
}

/// The indices, below `n`, of the alternatives whose shortcuts stand in `input`, in order.
pub open spec fn pressed_indices(alternates: Seq<ChangeableView>, input: Seq<char>, n: int) -> Seq<
    int,
>
    decreases n,
{
    if n <= 0 {
        Seq::empty()
    } else {
        let before = pressed_indices(alternates, input, n - 1);
        if input.contains(alternates[n - 1].0) {
            before.push(n - 1)
        } else {
            before
        }
    }
}

/// The presses that `input` makes on the first `s` switches, in order: each is a switch and
/// one of its alternatives.
pub open spec fn presses_of(switches: Seq<SwitchView>, input: Seq<char>, s: int) -> Seq<(int, int)>
    decreases s,
{
    if s <= 0 {
        Seq::empty()
    } else {
        presses_of(switches, input, s - 1) + pressed_indices(
            switches[s - 1].1,
            input,
            switches[s - 1].1.len() as int,
        ).map_values(|i: int| (s - 1, i))
    }
}

/// Where the handling of one press stands.
#[derive(Clone, Copy, Debug, PartialEq, Eq, Structural)]
pub enum SwitchStage {
    /// Asks whether the pressed alternative is linked.
    AskPressed,
    /// Asks whether the default is linked, before the pressed alternative is switched on.
    AskStandardOff,
    /// Disconnects the default.
    StandardOff,
    /// Asks whether the alternative at `f` is linked.
    SweepProbe,
    /// Toggles the alternative at `f`, which was found linked.
    SweepToggle,
    /// Asks whether the default is linked, after the alternatives were switched off.
    AskStandardOn,
    /// Connects the default.
    StandardOn,
    /// Toggles the pressed alternative.
    FinalToggle,
}

/// The presses of one input on a list of switches, handled in turn.
pub struct SwitchRun {
    switches: Vec<ConnectionSwitch>,
    presses: Vec<(usize, usize)>,
    k: usize,
    stage: SwitchStage,
    restore: bool,
    f: usize,
    step: LinkStep,
    errors: Vec<String>,
}

/// A `SwitchRun` as a value.
pub ghost struct SwitchRunView {
    /// The switches.
    pub switches: Seq<SwitchView>,
    /// The presses to handle, in order.
    pub presses: Seq<(int, int)>,
    /// The press being handled.
    pub k: int,
    /// Where its handling stands.
    pub stage: SwitchStage,
    /// Whether the sweep over the alternatives is followed by connecting the default (the
    /// pressed alternative was linked) rather than by toggling the pressed alternative.
    pub restore: bool,
    /// The alternative the sweep is at.
    pub f: int,
    /// The step of the connection operation in progress.
    pub step: LinkStep,
    /// The errors so far, in order.
    pub errors: Seq<Seq<char>>,
}

impl SwitchRunView {
    pub open spec fn start(switches: Seq<SwitchView>, presses: Seq<(int, int)>) -> SwitchRunView {
        SwitchRunView {
            switches,
            presses,
            k: 0,
            stage: SwitchStage::AskPressed,
            restore: false,
            f: 0,
            step: LinkStep::ToggleProbe,
            errors: Seq::empty(),
        }
    }

    /// The switch of the current press.
    pub open spec fn switch_at(self) -> SwitchView {
        self.switches[self.presses[self.k].0]
    }

    /// The alternatives of that switch.
    pub open spec fn alternates(self) -> Seq<ChangeableView> {
        self.switch_at().1
    }

    /// The default connection of that switch.
    pub open spec fn standard(self) -> ConnectionView {
        self.switch_at().0
    }

    /// The pressed alternative.
    pub open spec fn pressed_alternate(self) -> ConnectionView {
        self.alternates()[self.presses[self.k].1].1
    }

    /// The alternative the sweep is at.
    pub open spec fn swept(self) -> ConnectionView {
        self.alternates()[self.f].1
    }

    /// The current press names a switch and one of its alternatives.
    pub open spec fn press_valid(self) -> bool {
        &&& 0 <= self.k < self.presses.len()
        &&& 0 <= self.presses[self.k].0 < self.switches.len()
        &&& 0 <= self.presses[self.k].1 < self.alternates().len()
    }

    /// A request is pending.
    pub open spec fn pending(self) -> bool {
        &&& self.press_valid()
        &&& (self.stage == SwitchStage::SweepProbe || self.stage == SwitchStage::SweepToggle) ==> 0
            <= self.f < self.alternates().len()
    }

    /// The request that is pending, if any.
    pub open spec fn request(self) -> Option<(RequestKind, Pair)> {
        if !self.pending() {
            None
        } else {
            Some(
                match self.stage {
                    SwitchStage::AskPressed => (RequestKind::Probe, self.pressed_alternate().2),
                    SwitchStage::AskStandardOff => (RequestKind::Probe, self.standard().2),
                    SwitchStage::StandardOff => (step_kind(self.step), self.standard().2),
                    SwitchStage::SweepProbe => (RequestKind::Probe, self.swept().2),
                    SwitchStage::SweepToggle => (step_kind(self.step), self.swept().2),
                    SwitchStage::AskStandardOn => (RequestKind::Probe, self.standard().2),
                    SwitchStage::StandardOn => (step_kind(self.step), self.standard().2),
                    SwitchStage::FinalToggle => (step_kind(self.step), self.pressed_alternate().2),
                },
            )
        }
    }

    /// The run with the error `e`, if any, added.
    pub open spec fn noting(self, e: Option<Seq<char>>) -> SwitchRunView {
        match e {
            Some(m) => SwitchRunView { errors: self.errors.push(m), ..self },
            None => self,
        }
    }

    /// The sweep over the alternatives, at `f`; past the last one it ends with connecting
    /// the default (`restore`) or toggling the pressed alternative.
    pub open spec fn sweep_from(self, restore: bool, f: int) -> SwitchRunView {
        let stage = if f < self.alternates().len() {
            SwitchStage::SweepProbe
        } else if restore {
            SwitchStage::AskStandardOn
        } else {
            SwitchStage::FinalToggle
        };
        SwitchRunView { stage, restore, f, step: LinkStep::ToggleProbe, ..self }
    }

    /// The next press, from its start.
    pub open spec fn press_done(self) -> SwitchRunView {
        SwitchRunView {
            k: self.k + 1,
            stage: SwitchStage::AskPressed,
            restore: false,
            f: 0,
            step: LinkStep::ToggleProbe,
            ..self
        }
    }

    /// The run after the answer `reply` to its pending request.
    pub open spec fn next(self, reply: Reply) -> SwitchRunView {
        if !self.pending() {
            self
        } else {
            let linked = reply == Reply::Linked(true);
            match self.stage {
                SwitchStage::AskPressed => if linked {
                    self.sweep_from(true, 0)
                } else {
                    SwitchRunView { stage: SwitchStage::AskStandardOff, ..self }
                },
                SwitchStage::AskStandardOff => if linked {
                    SwitchRunView {
                        stage: SwitchStage::StandardOff,
                        step: LinkStep::DisconnectProbe,
                        ..self
                    }
                } else {
                    self.sweep_from(false, 0)
                },
                SwitchStage::StandardOff => {
                    let (s, e) = link_advance(self.step, LinkMode::Plain, self.standard().0, reply);
                    match s {
                        Some(x) => SwitchRunView { step: x, ..self },
                        None => self.noting(e).sweep_from(false, 0),
                    }
                },
                SwitchStage::SweepProbe => if linked {
                    SwitchRunView {
                        stage: SwitchStage::SweepToggle,
                        step: LinkStep::ToggleProbe,
                        ..self
                    }
                } else {
                    self.sweep_from(self.restore, self.f + 1)
                },
                SwitchStage::SweepToggle => {
                    let (s, e) = link_advance(self.step, LinkMode::Toggle, self.swept().0, reply);
                    match s {
                        Some(x) => SwitchRunView { step: x, ..self },
                        None => self.noting(e).sweep_from(self.restore, self.f + 1),
                    }
                },
                SwitchStage::AskStandardOn => if linked {
                    self.press_done()
                } else {
                    SwitchRunView {
                        stage: SwitchStage::StandardOn,
                        step: LinkStep::ConnectProbe,
                        ..self
                    }
                },
                SwitchStage::StandardOn => {
                    let (s, e) = link_advance(self.step, LinkMode::Plain, self.standard().0, reply);
                    match s {
                        Some(x) => SwitchRunView { step: x, ..self },
                        None => self.noting(e).press_done(),
                    }
                },
                SwitchStage::FinalToggle => {
                    let (s, e) = link_advance(
                        self.step,
                        LinkMode::Toggle,
                        self.pressed_alternate().0,
                        reply,
                    );
                    match s {
                        Some(x) => SwitchRunView { step: x, ..self },
                        None => self.noting(e).press_done(),
                    }
                },
            }
        }
    }
}

impl View for SwitchRun {
    type V = SwitchRunView;

    closed spec fn view(&self) -> SwitchRunView {
        SwitchRunView {
            switches: switch_views(self.switches@),
            presses: self.presses@.map_values(|p: (usize, usize)| (p.0 as int, p.1 as int)),
            k: self.k as int,
            stage: self.stage,
            restore: self.restore,
            f: self.f as int,
            step: self.step,
            errors: message_views(self.errors@),
        }
    }
}

impl ConnectionSwitch {
    /// A copy of this switch.
    pub fn duplicate(&self) -> (r: ConnectionSwitch)
        ensures
            r@ == self@,
    {
        let mut connections: Vec<ChangeableConnection> = Vec::new();
        let mut i: usize = 0;
        while i < self.connections.len()
            invariant
                i <= self.connections.len(),
                connections.len() == i,
                changeable_views(connections@) == changeable_views(self.connections@).take(i as int),
            decreases self.connections.len() - i,
        {
            let ghost before = connections@;
            connections.push(self.connections[i].duplicate());
            assert forall|j: int| 0 <= j < i + 1 implies changeable_views(connections@)[j]
                == changeable_views(self.connections@).take(i + 1)[j] by {
                if j < i {
                    assert(connections@[j] == before[j]);
                    assert(changeable_views(before)[j] == changeable_views(self.connections@).take(
                        i as int,
                    )[j]);
                }
            }
            assert(changeable_views(connections@) =~= changeable_views(self.connections@).take(
                i + 1,
            ));
            i = i + 1;
        }
        assert(changeable_views(self.connections@).take(self.connections.len() as int)
            =~= changeable_views(self.connections@));
        ConnectionSwitch { standard: self.standard.duplicate(), connections }
    }

    /// Handles, switch by switch and alternative by alternative, each alternative whose
    /// shortcut stands in `input`: a linked one gives way to the default, any other is linked
    /// in place of the default and of the other alternatives.
    pub fn switch(switchable_connections: &Vec<ConnectionSwitch>, input: &String) -> (r: SwitchRun)
        ensures
            r@ == SwitchRunView::start(
                switch_views(switchable_connections@),
                presses_of(
                    switch_views(switchable_connections@),
                    input@,
                    switchable_connections@.len() as int,
                ),
            ),
    {
        let ghost sw = switch_views(switchable_connections@);
        let mut switches: Vec<ConnectionSwitch> = Vec::new();
        let mut presses: Vec<(usize, usize)> = Vec::new();
        let mut s: usize = 0;
        assert(presses@.map_values(|p: (usize, usize)| (p.0 as int, p.1 as int)) =~= Seq::<
            (int, int),
        >::empty());
        while s < switchable_connections.len()
            invariant
                sw == switch_views(switchable_connections@),
                s <= switchable_connections.len(),
                switches.len() == s,
                switch_views(switches@) == sw.take(s as int),
                presses@.map_values(|p: (usize, usize)| (p.0 as int, p.1 as int)) == presses_of(
                    sw,
                    input@,
                    s as int,
                ),
            decreases switchable_connections.len() - s,
        {
            let alternates = &switchable_connections[s].connections;
            let ghost alts = changeable_views(alternates@);
            let ghost outer = presses@;
            let mut i: usize = 0;
            assert(pressed_indices(alts, input@, 0).map_values(|j: int| (s as int, j)) =~= Seq::<
                (int, int),
            >::empty());
            assert(presses@.map_values(|p: (usize, usize)| (p.0 as int, p.1 as int)) =~= presses_of(
                sw,
                input@,
                s as int,
            ) + pressed_indices(alts, input@, 0).map_values(|j: int| (s as int, j)));
            while i < alternates.len()
                invariant
                    alternates == &switchable_connections@[s as int].connections,
                    alts == changeable_views(alternates@),
                    sw == switch_views(switchable_connections@),
                    s < switchable_connections.len(),
                    i <= alternates.len(),
                    presses@.map_values(|p: (usize, usize)| (p.0 as int, p.1 as int)) == presses_of(
                        sw,
                        input@,
                        s as int,
                    ) + pressed_indices(alts, input@, i as int).map_values(|j: int| (s as int, j)),
                decreases alternates.len() - i,
            {
                let ghost before = presses@;
                if contains_char(input.as_str(), alternates[i].shortcut) {
                    presses.push((s, i));
                    let ghost lhs = presses@.map_values(|p: (usize, usize)| (p.0 as int, p.1 as int));
                    let ghost old_lhs = before.map_values(|p: (usize, usize)| (p.0 as int, p.1 as int));
                    assert(lhs =~= old_lhs.push((s as int, i as int))) by {
                        assert forall|j: int| 0 <= j < old_lhs.len() implies lhs[j] == old_lhs[j] by {
                            assert(presses@[j] == before[j]);
                        }
                    }
                    assert(pressed_indices(alts, input@, i + 1) == pressed_indices(
                        alts,
                        input@,
                        i as int,
                    ).push(i as int));
                    assert(presses@.map_values(|p: (usize, usize)| (p.0 as int, p.1 as int))
                        =~= presses_of(sw, input@, s as int) + pressed_indices(
                        alts,
                        input@,
                        i + 1,
                    ).map_values(|j: int| (s as int, j)));
                } else {
                    assert(pressed_indices(alts, input@, i + 1) == pressed_indices(
                        alts,
                        input@,
                        i as int,
                    ));
                }
                i = i + 1;
            }
            assert(sw[s as int].1 == alts);
            assert(presses_of(sw, input@, s + 1) == presses_of(sw, input@, s as int)
                + pressed_indices(alts, input@, alternates.len() as int).map_values(
                |j: int| (s as int, j),
            ));
            let ghost sws = switches@;
            switches.push(switchable_connections[s].duplicate());
            assert forall|j: int| 0 <= j < s + 1 implies switch_views(switches@)[j] == sw.take(
                s + 1,
            )[j] by {
                if j < s {
                    assert(switches@[j] == sws[j]);
                    assert(switch_views(sws)[j] == sw.take(s as int)[j]);
                }
            }
            assert(switch_views(switches@) =~= sw.take(s + 1));
            s = s + 1;
        }
        assert(sw.take(switchable_connections.len() as int) =~= sw);
        let r = SwitchRun {
            switches,
            presses,
            k: 0,
            stage: SwitchStage::AskPressed,
            restore: false,
            f: 0,
            step: LinkStep::ToggleProbe,
            errors: Vec::new(),
        };
        assert(message_views(r.errors@) =~= Seq::<Seq<char>>::empty());
        r
    }
}

impl SwitchRun {
    proof fn lemma_view_lengths(&self)
        ensures
            self@.presses.len() == self.presses@.len(),
            self@.switches.len() == self.switches@.len(),
            forall|j: int|
                0 <= j < self.switches@.len() ==> #[trigger] self@.switches[j].1.len()
                    == self.switches@[j].connections@.len(),
    {
        assert forall|j: int| 0 <= j < self.switches@.len() implies #[trigger] self@.switches[j].1.len()
            == self.switches@[j].connections@.len() by {
            assert(self@.switches[j] == self.switches@[j]@);
        }
    }

    /// The current press, when it names a switch and one of its alternatives.
    fn current(&self) -> (r: Option<(usize, usize)>)
        ensures
            match r {
                Some(p) => self@.press_valid() && self@.presses[self@.k] == (p.0 as int, p.1 as int),
                None => !self@.press_valid(),
            },
    {
        if self.k < self.presses.len() {
            let (s, i) = self.presses[self.k];
            if s < self.switches.len() && i < self.switches[s].connections.len() {
                return Some((s, i));
            }
        }
        None
    }

    /// Whether a request is pending.
    fn is_pending(&self) -> (r: bool)
        ensures
            r == self@.pending(),
    {
        match self.current() {
            Some((s, _)) => {
                if self.stage == SwitchStage::SweepProbe || self.stage == SwitchStage::SweepToggle {
                    self.f < self.switches[s].connections.len()
                } else {
                    true
                }
            },
            None => false,
        }
    }

    fn note(&mut self, e: Option<String>)
        ensures
            final(self)@ == old(self)@.noting(message_view(e)),
    {
        match e {
            Some(m) => {
                let ghost before = self.errors@;
                self.errors.push(m);
                assert(message_views(self.errors@) =~= message_views(before).push(
                    self.errors@.last()@,
                ));
            },
            None => {},
        }
    }

    fn sweep_from(&mut self, restore: bool, f: usize)
        requires
            old(self)@.press_valid(),
        ensures
            final(self)@ == old(self)@.sweep_from(restore, f as int),
    {
        let s = self.presses[self.k].0;
        self.restore = restore;
        self.f = f;
        self.step = LinkStep::ToggleProbe;
        if f < self.switches[s].connections.len() {
            self.stage = SwitchStage::SweepProbe;
        } else if restore {
            self.stage = SwitchStage::AskStandardOn;
        } else {
            self.stage = SwitchStage::FinalToggle;
        }
    }

    fn press_done(&mut self)
        requires
            old(self)@.press_valid(),
        ensures
            final(self)@ == old(self)@.press_done(),
    {
        proof {
            self.lemma_view_lengths();
        }
        assert(self@.press_valid());
        assert(self.k < self.presses.len());
        self.k = self.k + 1;
        self.stage = SwitchStage::AskPressed;
        self.restore = false;
        self.f = 0;
        self.step = LinkStep::ToggleProbe;
    }

    /// The request the server must answer next, or `None` when every press is handled.
    pub fn request(&self) -> (r: Option<Request>)
        ensures
            match r {
                Some(q) => self@.request() == Some(q@),
                None => self@.request() is None,
            },
    {
        if !self.is_pending() {
            return None;
        }
        let (s, p) = self.presses[self.k];
        let switch = &self.switches[s];
        let r = match self.stage {
            SwitchStage::AskPressed => switch.connections[p].connection.probe(),
            SwitchStage::AskStandardOff => switch.standard.probe(),
            SwitchStage::StandardOff => step_request(self.step, &switch.standard.port_connections),
            SwitchStage::SweepProbe => switch.connections[self.f].connection.probe(),
            SwitchStage::SweepToggle => step_request(
                self.step,
                &switch.connections[self.f].connection.port_connections,
            ),
            SwitchStage::AskStandardOn => switch.standard.probe(),
            SwitchStage::StandardOn => step_request(self.step, &switch.standard.port_connections),
            SwitchStage::FinalToggle => step_request(
                self.step,
                &switch.connections[p].connection.port_connections,
            ),
        };
        Some(r)
    }

    /// Takes the server's answer to the pending request.
    pub fn reply(&mut self, reply: Reply)
        ensures
            final(self)@ == old(self)@.next(reply),
    {
        if !self.is_pending() {
            return;
        }
        proof {
            self.lemma_view_lengths();
        }
        let (s, p) = self.presses[self.k];
        assert(self@.presses[self@.k] == (s as int, p as int));
        let n = self.switches[s].connections.len();
        assert(self@.alternates().len() == n);
        let linked = reply == Reply::Linked(true);
        match self.stage {
            SwitchStage::AskPressed => {
                if linked {
                    self.sweep_from(true, 0);
                } else {
                    self.stage = SwitchStage::AskStandardOff;
                }
            },
            SwitchStage::AskStandardOff => {
                if linked {
                    self.stage = SwitchStage::StandardOff;
                    self.step = LinkStep::DisconnectProbe;
                } else {
                    self.sweep_from(false, 0);
                }
            },
            SwitchStage::StandardOff => {
                let (next, e) = advance_link(
                    self.step,
                    LinkMode::Plain,
                    &self.switches[s].standard.name,
                    reply,
                );
                match next {
                    Some(x) => {
                        self.step = x;
                    },
                    None => {
                        self.note(e);
                        self.sweep_from(false, 0);
                    },
                }
            },
            SwitchStage::SweepProbe => {
                if linked {
                    self.stage = SwitchStage::SweepToggle;
                    self.step = LinkStep::ToggleProbe;
                } else {
                    let restore = self.restore;
                    let f = self.f + 1;
                    self.sweep_from(restore, f);
                }
            },
            SwitchStage::SweepToggle => {
                let (next, e) = advance_link(
                    self.step,
                    LinkMode::Toggle,
                    &self.switches[s].connections[self.f].connection.name,
                    reply,
                );
                match next {
                    Some(x) => {
                        self.step = x;
                    },
                    None => {
                        self.note(e);
                        let restore = self.restore;
                        let f = self.f + 1;
                        self.sweep_from(restore, f);
                    },
                }
            },
            SwitchStage::AskStandardOn => {
                if linked {
                    self.press_done();
                } else {
                    self.stage = SwitchStage::StandardOn;
                    self.step = LinkStep::ConnectProbe;
                }
            },
            SwitchStage::StandardOn => {
                let (next, e) = advance_link(
                    self.step,
                    LinkMode::Plain,
                    &self.switches[s].standard.name,
                    reply,
                );
                match next {
                    Some(x) => {
                        self.step = x;
                    },
                    None => {
                        self.note(e);
                        self.press_done();
                    },
                }
            },
            SwitchStage::FinalToggle => {
                let (next, e) = advance_link(
                    self.step,
                    LinkMode::Toggle,
                    &self.switches[s].connections[p].connection.name,
                    reply,
                );
                match next {
                    Some(x) => {
                        self.step = x;
                    },
                    None => {
                        self.note(e);
                        self.press_done();
                    },
                }
            },
        }
    }

    /// Whether every press is handled.
    pub fn is_done(&self) -> (r: bool)
        ensures
            r == !self@.pending(),
    {
        !self.is_pending()
    }

    /// The errors so far, in order.
    pub fn errors(&self) -> (r: &Vec<String>)
        ensures
            message_views(r@) == self@.errors,
    {
        &self.errors
    }

    /// `Ok` when nothing failed, else every error in order.
    pub fn result(self) -> (r: Result<(), Vec<String>>)
        ensures
            match r {
                Ok(()) => self@.errors.len() == 0,
                Err(v) => self@.errors.len() > 0 && message_views(v@) == self@.errors,
            },
    {
        if self.errors.len() > 0 {
            Err(self.errors)
        } else {
            Ok(())
        }
    }
}

} // verus!
