use vstd::prelude::*;
use crate::connections::connection::{Connection, ConnectionView};
use crate::connections::link::{LinkMode, LinkStep};
use crate::connections::link_run::{LinkRun, LinkRunView, connection_views};
use crate::text::contains_char;

verus! {

/// A connection and the character that switches it.
#[derive(Clone)]
pub struct ChangeableConnection {
    pub shortcut: char,
    pub connection: Connection,
}

/// A changeable connection as a value: its shortcut and its connection.
pub type ChangeableView = (char, ConnectionView);

impl View for ChangeableConnection {
    type V = ChangeableView;

    open spec fn view(&self) -> ChangeableView {
        (self.shortcut, self.connection@)
    }
}

/// The views of a sequence of changeable connections.
pub open spec fn changeable_views(v: Seq<ChangeableConnection>) -> Seq<ChangeableView> {
    v.map_values(|c: ChangeableConnection| c@)
}

/// The connections whose shortcuts stand in `input`, in order.
pub open spec fn pressed(changeables: Seq<ChangeableView>, input: Seq<char>) -> Seq<ConnectionView>
    decreases changeables.len(),
{
    if changeables.len() == 0 {
        Seq::empty()
    } else {
        let before = pressed(changeables.drop_last(), input);
        if input.contains(changeables.last().0) {
            before.push(changeables.last().1)
        } else {
            before
        }
    }
}

impl ChangeableConnection {
    pub fn new(pshortcut: char, pconnection: Connection) -> (r: ChangeableConnection)
        ensures
            r.shortcut == pshortcut,
            r.connection == pconnection,
    {
        ChangeableConnection { shortcut: pshortcut, connection: pconnection }
    }

    /// A copy of this changeable connection.
    pub fn duplicate(&self) -> (r: ChangeableConnection)
        ensures
            r@ == self@,
    {
        ChangeableConnection { shortcut: self.shortcut, connection: self.connection.duplicate() }
    }

    /// Unlinks the ports if they are linked, links them if not.
    pub fn toggle_connection(&self) -> (r: LinkRun)
        ensures
            r@ == LinkRunView::start(
                connection_views(seq![self.connection]),
                LinkMode::Toggle,
                LinkStep::ToggleProbe,
            ),
    {
        LinkRun::new(self.connection.alone(), LinkMode::Toggle, LinkStep::ToggleProbe)
    }

    /// Toggles, in order, each connection whose shortcut stands in `input`.
    pub fn toggle(changeable_connections: &Vec<ChangeableConnection>, input: &String) -> (r: LinkRun)
        ensures
            r@ == LinkRunView::start(
                pressed(changeable_views(changeable_connections@), input@),
                LinkMode::Toggle,
                LinkStep::ToggleProbe,
            ),
    {
        let mut links: Vec<Connection> = Vec::new();
        let mut i: usize = 0;
        assert(changeable_views(changeable_connections@).take(0) =~= Seq::<ChangeableView>::empty());
        assert(connection_views(links@) =~= Seq::<ConnectionView>::empty());
        while i < changeable_connections.len()
            invariant
                i <= changeable_connections.len(),
                connection_views(links@) == pressed(
                    changeable_views(changeable_connections@).take(i as int),
                    input@,
                ),
            decreases changeable_connections.len() - i,
        {
            let ghost views = changeable_views(changeable_connections@);
            assert(views.take(i + 1).drop_last() =~= views.take(i as int));
            assert(views.take(i + 1).last() == changeable_connections@[i as int]@);
            let ghost before = links@;
            if contains_char(input.as_str(), changeable_connections[i].shortcut) {
                links.push(changeable_connections[i].connection.duplicate());
                assert(connection_views(links@) =~= connection_views(before).push(
                    changeable_connections@[i as int].connection@,
                ));
            }
            i = i + 1;
        }
        assert(changeable_views(changeable_connections@).take(changeable_connections.len() as int)
            =~= changeable_views(changeable_connections@));
        LinkRun::new(links, LinkMode::Toggle, LinkStep::ToggleProbe)
    }
}

} // verus!
