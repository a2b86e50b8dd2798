use vstd::prelude::*;
use crate::connections::port_connection::PortConnection;
use crate::connections::changeable_connection::{ChangeableConnection, ChangeableView, changeable_views};
use crate::connections::connection_switch::{ConnectionSwitch, SwitchView, switch_views};
use crate::connections::link::{Reply, Request, RequestKind, Pair};
use crate::connections::link_run::message_views;

verus! {

/// The port pairs of the alternatives of `switches`, switch after switch.
pub open spec fn alternate_pairs(switches: Seq<SwitchView>) -> Seq<Pair>
    decreases switches.len(),
{
    if switches.len() == 0 {
        Seq::empty()
    } else {
        alternate_pairs(switches.drop_last()) + switches.last().1.map_values(
            |a: ChangeableView| a.1.2,
        )
    }
}

/// The pairs whose state the status shows, in the order they are asked about: the muteable
/// connections, then the alternatives of each switch.
pub open spec fn status_pairs(muteable: Seq<ChangeableView>, switches: Seq<SwitchView>) -> Seq<Pair> {
    muteable.map_values(|c: ChangeableView| c.1.2) + alternate_pairs(switches)
}

/// Asks the server about each connection that the status shows.
pub struct StatusRun {
    muteable: Vec<ChangeableConnection>,
    switchable: Vec<ConnectionSwitch>,
    pairs: Vec<PortConnection>,
    answers: Vec<bool>,
}

/// A `StatusRun` as a value.
pub ghost struct StatusRunView {
    pub muteable: Seq<ChangeableView>,
    pub switchable: Seq<SwitchView>,
    /// Whether each pair asked about so far is linked, in order.
    pub answers: Seq<bool>,
}

impl StatusRunView {
    pub open spec fn pending(self) -> bool {
        self.answers.len() < status_pairs(self.muteable, self.switchable).len()
    }

    pub open spec fn request(self) -> Option<(RequestKind, Pair)> {
        if self.pending() {
            Some((RequestKind::Probe, status_pairs(self.muteable, self.switchable)[self.answers.len() as int]))
        } else {
            None
        }
    }

    pub open spec fn next(self, reply: Reply) -> StatusRunView {
        if self.pending() {
            StatusRunView { answers: self.answers.push(reply == Reply::Linked(true)), ..self }
        } else {
            self
        }
    }
}

impl View for StatusRun {
    type V = StatusRunView;

    closed spec fn view(&self) -> StatusRunView {
        StatusRunView {
            muteable: changeable_views(self.muteable@),
            switchable: switch_views(self.switchable@),
            answers: self.answers@,
        }
    }
}

/// The `i`th answer, where a missing one counts as "not linked".
pub open spec fn flag(answers: Seq<bool>, i: int) -> bool {
    0 <= i < answers.len() && answers[i]
}

/// `name: yes` or `name: no`.
pub open spec fn state_line(name: Seq<char>, on: bool, yes: Seq<char>, no: Seq<char>) -> Seq<char> {
    name + ": "@ + if on {
        yes
    } else {
        no
    }
}

/// The lines about the muteable connections.
pub open spec fn muteable_block(muteable: Seq<ChangeableView>, answers: Seq<bool>) -> Seq<Seq<char>> {
    if muteable.len() > 0 {
        seq!["Muteable:"@] + Seq::new(
            muteable.len(),
            |i: int| state_line(muteable[i].1.0, flag(answers, i), "unmuted"@, "muted"@),
        ) + seq![""@]
    } else {
        Seq::empty()
    }
}

/// The lines about one switch whose alternatives' answers start at `offset`.
pub open spec fn switch_block(alternates: Seq<ChangeableView>, answers: Seq<bool>, offset: int) -> Seq<
    Seq<char>,
> {
    seq!["Switchable:"@] + if alternates.len() > 0 {
        Seq::new(
            alternates.len(),
            |i: int|
                state_line(alternates[i].1.0, flag(answers, offset + i), "active"@, "inactive"@),
        ) + seq![""@]
    } else {
        Seq::empty()
    }
}

/// The lines about the switches, whose answers start at `offset`.
pub open spec fn switch_blocks(switches: Seq<SwitchView>, answers: Seq<bool>, offset: int) -> Seq<
    Seq<char>,
>
    decreases switches.len(),
{
    if switches.len() == 0 {
        Seq::empty()
    } else {
        switch_blocks(switches.drop_last(), answers, offset) + switch_block(
            switches.last().1,
            answers,
            offset + alternate_pairs(switches.drop_last()).len(),
        )
    }
}

/// The lines about the errors, if there are any.
pub open spec fn error_block(errors: Seq<Seq<char>>) -> Seq<Seq<char>> {
    if errors.len() > 0 {
        seq!["\n errors:"@] + errors
    } else {
        Seq::empty()
    }
}

/// The status screen, line by line.
pub open spec fn status_lines(
    program_name: Seq<char>,
    program_version: Seq<char>,
    status: StatusRunView,
    errors: Seq<Seq<char>>,
) -> Seq<Seq<char>> {
    seq![program_name + " "@ + program_version + "\n"@] + muteable_block(
        status.muteable,
        status.answers,
    ) + switch_blocks(status.switchable, status.answers, status.muteable.len() as int)
        + error_block(errors)
}

/// The line `name: yes` or `name: no`.
fn make_state_line(name: &String, on: bool, yes: &str, no: &str) -> (r: String)
    ensures
        r@ == state_line(name@, on, yes@, no@),
{
    let mut r = name.clone();
    r.append(": ");
    if on {
        r.append(yes);
    } else {
        r.append(no);
    }
    r
}

pub proof fn lemma_alternate_pairs_prefix(switches: Seq<SwitchView>, s: int)
    requires
        0 <= s <= switches.len(),
    ensures
        alternate_pairs(switches.take(s)).len() <= alternate_pairs(switches).len(),
    decreases switches.len() - s,
{
    if s < switches.len() {
        lemma_alternate_pairs_prefix(switches, s + 1);
        assert(switches.take(s + 1).drop_last() =~= switches.take(s));
    } else {
        assert(switches.take(s) =~= switches);
    }
}

/// The number of lines the blocks of `switches` take.
pub open spec fn blocks_len(switches: Seq<SwitchView>) -> int
    decreases switches.len(),
{
    if switches.len() == 0 {
        0
    } else {
        blocks_len(switches.drop_last()) + 1 + if switches.last().1.len() > 0 {
            switches.last().1.len() + 1
        } else {
            0
        }
    }
}

/// Alternative `j` of switch `s` is the pair at `alternate_pairs(switches.take(s)).len() + j`.
pub proof fn lemma_alternate_pair_at(switches: Seq<SwitchView>, s: int, j: int)
    requires
        0 <= s < switches.len(),
        0 <= j < switches[s].1.len(),
    ensures
        alternate_pairs(switches.take(s)).len() + j < alternate_pairs(switches).len(),
        alternate_pairs(switches)[alternate_pairs(switches.take(s)).len() + j] == switches[s].1[j].1.2,
    decreases switches.len(),
{
    let rest = switches.drop_last();
    let tail = switches.last().1.map_values(|a: ChangeableView| a.1.2);
    assert(alternate_pairs(switches) == alternate_pairs(rest) + tail);
    if s == switches.len() - 1 {
        assert(switches.take(s) =~= rest);
        assert(tail[j] == switches[s].1[j].1.2);
    } else {
        assert(switches.take(s) =~= rest.take(s));
        assert(rest[s] == switches[s]);
        lemma_alternate_pair_at(rest, s, j);
    }
}

/// The blocks of `switches` take `blocks_len` lines, and the line of alternative `j` of switch
/// `s` is at `blocks_len(switches.take(s)) + 1 + j`, showing the answer for its own pair.
pub proof fn lemma_switch_line_at(
    switches: Seq<SwitchView>,
    answers: Seq<bool>,
    offset: int,
    s: int,
    j: int,
)
    requires
        0 <= s < switches.len(),
        0 <= j < switches[s].1.len(),
    ensures
        switch_blocks(switches, answers, offset).len() == blocks_len(switches),
        0 <= blocks_len(switches.take(s)),
        blocks_len(switches.take(s)) + 1 + j < blocks_len(switches),
        switch_blocks(switches, answers, offset)[blocks_len(switches.take(s)) + 1 + j] == state_line(
            switches[s].1[j].1.0,
            flag(answers, offset + alternate_pairs(switches.take(s)).len() + j),
            "active"@,
            "inactive"@,
        ),
    decreases switches.len(),
{
    let rest = switches.drop_last();
    lemma_blocks_len(rest, answers, offset);
    if s == switches.len() - 1 {
        assert(switches.take(s) =~= rest);
        let block = switch_block(switches.last().1, answers, offset + alternate_pairs(rest).len());
        assert(switch_blocks(switches, answers, offset) == switch_blocks(rest, answers, offset) + block);
        assert(block[1 + j] == state_line(
            switches[s].1[j].1.0,
            flag(answers, offset + alternate_pairs(rest).len() + j),
            "active"@,
            "inactive"@,
        ));
    } else {
        assert(switches.take(s) =~= rest.take(s));
        assert(rest[s] == switches[s]);
        lemma_switch_line_at(rest, answers, offset, s, j);
    }
}

proof fn lemma_blocks_len(switches: Seq<SwitchView>, answers: Seq<bool>, offset: int)
    ensures
        switch_blocks(switches, answers, offset).len() == blocks_len(switches),
        blocks_len(switches) >= 0,
    decreases switches.len(),
{
    if switches.len() > 0 {
        lemma_blocks_len(switches.drop_last(), answers, offset);
    }
}

/// A copy of `s`.
fn copy_text(s: &str) -> (r: String)
    ensures
        r@ == s@,
{
    String::from_str(s)
}

impl StatusRun {
    /// A run that asks about each muteable connection, then about each alternative of each
    /// switch.
    pub fn new(muteable_connections: &Vec<ChangeableConnection>, switchable_connections: &Vec<
        ConnectionSwitch,
    >) -> (r: StatusRun)
        ensures
            r@ == (StatusRunView {
                muteable: changeable_views(muteable_connections@),
                switchable: switch_views(switchable_connections@),
                answers: Seq::empty(),
            }),
    {
        let mut muteable: Vec<ChangeableConnection> = Vec::new();
        let mut pairs: Vec<PortConnection> = Vec::new();
        let mut i: usize = 0;
        while i < muteable_connections.len()
            invariant
                i <= muteable_connections.len(),
                muteable.len() == i,
                pairs.len() == i,
                forall|j: int| 0 <= j < i ==> #[trigger] muteable@[j]@ == muteable_connections@[j]@,
                forall|j: int|
                    0 <= j < i ==> #[trigger] pairs@[j]@ == muteable_connections@[j].connection.port_connections@,
            decreases muteable_connections.len() - i,
        {
            muteable.push(muteable_connections[i].duplicate());
            pairs.push(muteable_connections[i].connection.port_connections.duplicate());
            i = i + 1;
        }
        let ghost ms = changeable_views(muteable_connections@);
        assert(changeable_views(muteable@) =~= ms);
        let ghost sws = switch_views(switchable_connections@);
        assert(pairs@.map_values(|p: PortConnection| p@) =~= ms.map_values(|c: ChangeableView| c.1.2)
            + alternate_pairs(sws.take(0)));
        let mut switchable: Vec<ConnectionSwitch> = Vec::new();
        let mut s: usize = 0;
        while s < switchable_connections.len()
            invariant
                sws == switch_views(switchable_connections@),
                s <= switchable_connections.len(),
                switchable.len() == s,
                forall|j: int| 0 <= j < s ==> #[trigger] switchable@[j]@ == switchable_connections@[j]@,
                pairs@.map_values(|p: PortConnection| p@) == ms.map_values(|c: ChangeableView| c.1.2)
                    + alternate_pairs(sws.take(s as int)),
            decreases switchable_connections.len() - s,
        {
            let alternates = &switchable_connections[s].connections;
            let ghost base = pairs@.map_values(|p: PortConnection| p@);
            let ghost alts = changeable_views(alternates@);
            let mut f: usize = 0;
            while f < alternates.len()
                invariant
                    alternates == &switchable_connections@[s as int].connections,
                    alts == changeable_views(alternates@),
                    f <= alternates.len(),
                    pairs@.map_values(|p: PortConnection| p@) == base + alts.take(f as int).map_values(
                        |a: ChangeableView| a.1.2,
                    ),
                decreases alternates.len() - f,
            {
                let ghost before = pairs@;
                pairs.push(alternates[f].connection.port_connections.duplicate());
                assert(pairs@ == before.push(pairs@.last()));
                assert(pairs@.map_values(|p: PortConnection| p@) =~= base + alts.take(f + 1).map_values(
                    |a: ChangeableView| a.1.2,
                )) by {
                    assert(before.map_values(|p: PortConnection| p@).push(pairs@.last()@)
                        =~= pairs@.map_values(|p: PortConnection| p@));
                    assert(alts.take(f + 1).map_values(|a: ChangeableView| a.1.2) =~= alts.take(
                        f as int,
                    ).map_values(|a: ChangeableView| a.1.2).push(alts[f as int].1.2));
                }
                f = f + 1;
            }
            assert(alts.take(alternates.len() as int) =~= alts);
            assert(sws.take(s + 1).drop_last() =~= sws.take(s as int));
            assert(sws.take(s + 1).last() == sws[s as int]);
            assert(sws[s as int].1 == alts);
            switchable.push(switchable_connections[s].duplicate());
            s = s + 1;
        }
        assert(sws.take(switchable_connections.len() as int) =~= sws);
        assert(switch_views(switchable@) =~= sws);
        StatusRun { muteable, switchable, pairs, answers: Vec::new() }
    }

    /// The pairs to ask about are those of the connections the status shows.
    #[verifier::type_invariant]
    spec fn pairs_match(&self) -> bool {
        self.pairs@.map_values(|p: PortConnection| p@) == status_pairs(
            changeable_views(self.muteable@),
            switch_views(self.switchable@),
        )
    }

    /// The request the server must answer next, or `None` when every pair was asked about.
    pub fn request(&self) -> (r: Option<Request>)
        ensures
            match r {
                Some(q) => self@.request() == Some(q@),
                None => self@.request() is None,
            },
    {
        proof {
            use_type_invariant(self);
            assert(self.pairs@.map_values(|p: PortConnection| p@).len() == self.pairs@.len());
        }
        if self.answers.len() < self.pairs.len() {
            assert(self.pairs@.map_values(|p: PortConnection| p@)[self.answers.len() as int] == self.pairs@[self.answers.len() as int]@);
            Some(Request { kind: RequestKind::Probe, ports: self.pairs[self.answers.len()].duplicate() })
        } else {
            None
        }
    }

    /// Takes the server's answer to the pending request.
    pub fn reply(&mut self, reply: Reply)
        ensures
            final(self)@ == old(self)@.next(reply),
    {
        proof {
            use_type_invariant(&*self);
            assert(self.pairs@.map_values(|p: PortConnection| p@).len() == self.pairs@.len());
        }
        if self.answers.len() < self.pairs.len() {
            let mut answers: Vec<bool> = Vec::new();
            std::mem::swap(&mut answers, &mut self.answers);
            answers.push(reply == Reply::Linked(true));
            self.answers = answers;
        }
    }

    /// Whether every pair was asked about.
    pub fn is_done(&self) -> (r: bool)
        ensures
            r == !self@.pending(),
    {
        proof {
            use_type_invariant(self);
            assert(self.pairs@.map_values(|p: PortConnection| p@).len() == self.pairs@.len());
        }
        self.answers.len() >= self.pairs.len()
    }

    /// The status screen, line by line, as the answers so far show it, followed by
    /// `error_messages`.
    pub fn print_status(
        &self,
        program_name: &String,
        program_version: &String,
        error_messages: &Vec<String>,
    ) -> (r: Vec<String>)
        ensures
            message_views(r@) == status_lines(
                program_name@,
                program_version@,
                self@,
                message_views(error_messages@),
            ),
    {
        proof {
            use_type_invariant(self);
            assert(self.pairs@.map_values(|p: PortConnection| p@).len() == self.pairs@.len());
        }
        let ghost v = self@;
        let mut lines: Vec<String> = Vec::new();
        let mut header = program_name.clone();
        header.append(" ");
        header.append(program_version.as_str());
        header.append("\n");
        lines.push(header);
        assert(message_views(lines@) =~= seq![program_name@ + " "@ + program_version@ + "\n"@]);
        let m = self.muteable.len();
        if m > 0 {
            lines.push(copy_text("Muteable:"));
            let ghost base = message_views(lines@);
            let mut i: usize = 0;
            while i < m
                invariant
                    v == self@,
                    m == self.muteable.len(),
                    i <= m,
                    message_views(lines@) == base + Seq::new(
                        i as nat,
                        |j: int|
                            state_line(v.muteable[j].1.0, flag(v.answers, j), "unmuted"@, "muted"@),
                    ),
                decreases m - i,
            {
                let ghost before = lines@;
                assert(v.muteable[i as int] == self.muteable@[i as int]@);
                lines.push(
                    make_state_line(
                        &self.muteable[i].connection.name,
                        self.flag(i),
                        "unmuted",
                        "muted",
                    ),
                );
                assert(message_views(lines@) =~= message_views(before).push(lines@.last()@));
                assert(message_views(lines@) =~= base + Seq::new(
                    (i + 1) as nat,
                    |j: int| state_line(v.muteable[j].1.0, flag(v.answers, j), "unmuted"@, "muted"@),
                ));
                i = i + 1;
            }
            let ghost before = lines@;
            lines.push(copy_text(""));
            assert(message_views(lines@) =~= message_views(before).push(""@));
        }
        let ghost after_muteable = message_views(lines@);
        assert(after_muteable =~= seq![program_name@ + " "@ + program_version@ + "\n"@]
            + muteable_block(v.muteable, v.answers));
        let ghost sws = v.switchable;
        let mut offset: usize = m;
        let mut s: usize = 0;
        assert(sws.take(0) =~= Seq::<SwitchView>::empty());
        assert(after_muteable + switch_blocks(sws.take(0), v.answers, m as int) =~= after_muteable);
        while s < self.switchable.len()
            invariant
                v == self@,
                sws == v.switchable,
                m == v.muteable.len(),
                self.pairs@.len() == status_pairs(v.muteable, v.switchable).len(),
                s <= self.switchable.len(),
                sws.len() == self.switchable.len(),
                offset == m + alternate_pairs(sws.take(s as int)).len(),
                message_views(lines@) == after_muteable + switch_blocks(
                    sws.take(s as int),
                    v.answers,
                    m as int,
                ),
            decreases self.switchable.len() - s,
        {
            let alternates = &self.switchable[s].connections;
            assert(sws[s as int] == self.switchable@[s as int]@);
            let ghost alts = sws[s as int].1;
            assert(alts == changeable_views(alternates@));
            assert(sws.take(s + 1).drop_last() =~= sws.take(s as int));
            assert(sws.take(s + 1).last() == sws[s as int]);
            proof {
                lemma_alternate_pairs_prefix(sws, s + 1);
            }
            assert(alternate_pairs(sws.take(s + 1)).len() == alternate_pairs(sws.take(s as int)).len()
                + alternates.len());
            assert(status_pairs(v.muteable, v.switchable).len() == m + alternate_pairs(sws).len());
            assert(offset + alternates.len() <= self.pairs.len());
            let ghost start = message_views(lines@);
            lines.push(copy_text("Switchable:"));
            assert(message_views(lines@) =~= start.push("Switchable:"@));
            let n = alternates.len();
            if n > 0 {
                let ghost base = message_views(lines@);
                let mut f: usize = 0;
                while f < n
                    invariant
                        v == self@,
                        alternates == &self.switchable@[s as int].connections,
                        alts == changeable_views(alternates@),
                        n == alternates.len(),
                        offset + n <= self.pairs.len(),
                        self.pairs@.len() == status_pairs(v.muteable, v.switchable).len(),
                        f <= n,
                        message_views(lines@) == base + Seq::new(
                            f as nat,
                            |j: int|
                                state_line(
                                    alts[j].1.0,
                                    flag(v.answers, offset + j),
                                    "active"@,
                                    "inactive"@,
                                ),
                        ),
                    decreases n - f,
                {
                    let ghost before = lines@;
                    assert(alts[f as int] == alternates@[f as int]@);
                    lines.push(
                        make_state_line(
                            &alternates[f].connection.name,
                            self.flag(offset + f),
                            "active",
                            "inactive",
                        ),
                    );
                    assert(message_views(lines@) =~= message_views(before).push(lines@.last()@));
                    assert(message_views(lines@) =~= base + Seq::new(
                        (f + 1) as nat,
                        |j: int|
                            state_line(alts[j].1.0, flag(v.answers, offset + j), "active"@, "inactive"@),
                    ));
                    f = f + 1;
                }
                let ghost before = lines@;
                lines.push(copy_text(""));
                assert(message_views(lines@) =~= message_views(before).push(""@));
            }
            assert(message_views(lines@) =~= after_muteable + switch_blocks(
                sws.take(s + 1),
                v.answers,
                m as int,
            ));
            offset = offset + n;
            s = s + 1;
        }
        assert(sws.take(self.switchable.len() as int) =~= sws);
        let ghost before_errors = message_views(lines@);
        if error_messages.len() > 0 {
            lines.push(copy_text("\n errors:"));
            let ghost base = message_views(lines@);
            assert(base =~= before_errors.push("\n errors:"@));
            let mut e: usize = 0;
            while e < error_messages.len()
                invariant
                    e <= error_messages.len(),
                    message_views(lines@) == base + message_views(error_messages@).take(e as int),
                decreases error_messages.len() - e,
            {
                let ghost before = lines@;
                lines.push(error_messages[e].clone());
                assert(message_views(lines@) =~= message_views(before).push(lines@.last()@));
                assert(message_views(error_messages@).take(e + 1) =~= message_views(
                    error_messages@,
                ).take(e as int).push(error_messages@[e as int]@));
                assert(message_views(lines@) =~= base + message_views(error_messages@).take(e + 1));
                e = e + 1;
            }
            assert(message_views(error_messages@).take(error_messages.len() as int)
                =~= message_views(error_messages@));
        }
        assert(message_views(lines@) =~= before_errors + error_block(message_views(error_messages@)));
        lines
    }

    /// Whether the `i`th pair was reported linked; a pair not asked about counts as not.
    fn flag(&self, i: usize) -> (r: bool)
        ensures
            r == flag(self@.answers, i as int),
    {
        i < self.answers.len() && self.answers[i]
    }
}

} // verus!
