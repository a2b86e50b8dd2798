use vstd::prelude::*;
use crate::connections::connection::{Connection, ConnectionView};
use crate::connections::link::{
    Reply, Request, RequestKind, LinkMode, LinkStep, Pair, link_advance, step_kind, advance_link,
    step_request,
};

verus! {

/// The views of a sequence of connections.
pub open spec fn connection_views(links: Seq<Connection>) -> Seq<ConnectionView> {
    links.map_values(|c: Connection| c@)
}

/// The views of a sequence of messages.
pub open spec fn message_views(messages: Seq<String>) -> Seq<Seq<char>> {
    messages.map_values(|m: String| m@)
}

/// One operation (connect, disconnect, toggle or start-up connect) carried out on each of a
/// list of connections in turn, collecting the errors.
pub struct LinkRun {
    links: Vec<Connection>,
    mode: LinkMode,
    first: LinkStep,
    k: usize,
    step: LinkStep,
    errors: Vec<String>,
}

/// A `LinkRun` as a value.
pub ghost struct LinkRunView {
    /// The connections the operation is carried out on, in order.
    pub links: Seq<ConnectionView>,
    /// How errors are worded.
    pub mode: LinkMode,
    /// The step each operation starts with.
    pub first: LinkStep,
    /// The connection the operation is at.
    pub k: int,
    /// The step of the operation on that connection.
    pub step: LinkStep,
    /// The errors so far, in order.
    pub errors: Seq<Seq<char>>,
}

impl LinkRunView {
    /// A run that has not started.
    pub open spec fn start(links: Seq<ConnectionView>, mode: LinkMode, first: LinkStep) -> LinkRunView {
        LinkRunView { links, mode, first, k: 0, step: first, errors: Seq::empty() }
    }

    /// A request is pending.
    pub open spec fn pending(self) -> bool {
        0 <= self.k < self.links.len()
    }

    /// The request that is pending, if any.
    pub open spec fn request(self) -> Option<(RequestKind, Pair)> {
        if self.pending() {
            Some((step_kind(self.step), self.links[self.k].2))
        } else {
            None
        }
    }

    /// The run after the answer `reply` to its pending request.
    pub open spec fn next(self, reply: Reply) -> LinkRunView {
        if !self.pending() {
            self
        } else {
            let (step, error) = link_advance(self.step, self.mode, self.links[self.k].0, reply);
            match step {
                Some(s) => LinkRunView { step: s, ..self },
                None => LinkRunView {
                    k: self.k + 1,
                    step: self.first,
                    errors: match error {
                        Some(e) => self.errors.push(e),
                        None => self.errors,
                    },
                    ..self
                },
            }
        }
    }
}

impl View for LinkRun {
    type V = LinkRunView;

    closed spec fn view(&self) -> LinkRunView {
        LinkRunView {
            links: connection_views(self.links@),
            mode: self.mode,
            first: self.first,
            k: self.k as int,
            step: self.step,
            errors: message_views(self.errors@),
        }
    }
}

impl LinkRun {
    /// A run of the operation that starts with `first` on each of `links`, in order.
    pub fn new(links: Vec<Connection>, mode: LinkMode, first: LinkStep) -> (r: LinkRun)
        ensures
            r@ == LinkRunView::start(connection_views(links@), mode, first),
    {
        let r = LinkRun { links, mode, first, k: 0, step: first, errors: Vec::new() };
        assert(message_views(r.errors@) =~= Seq::<Seq<char>>::empty());
        r
    }

    /// The request the server must answer next, or `None` when the run is over.
    pub fn request(&self) -> (r: Option<Request>)
        ensures
            match r {
                Some(q) => self@.request() == Some(q@),
                None => self@.request() is None,
            },
    {
        if self.k < self.links.len() {
            Some(step_request(self.step, &self.links[self.k].port_connections))
        } else {
            None
        }
    }

    /// Takes the server's answer to the pending request.
    pub fn reply(&mut self, reply: Reply)
        ensures
            final(self)@ == old(self)@.next(reply),
    {
        if self.k < self.links.len() {
            let (step, error) = advance_link(self.step, self.mode, &self.links[self.k].name, reply);
            match step {
                Some(s) => {
                    self.step = s;
                },
                None => {
                    let ghost before = self.errors@;
                    match error {
                        Some(e) => {
                            self.errors.push(e);
                            assert(message_views(self.errors@) =~= message_views(before).push(
                                self.errors@.last()@,
                            ));
                        },
                        None => {},
                    }
                    self.k = self.k + 1;
                    self.step = self.first;
                },
            }
        }
    }

    /// Whether every operation is over.
    pub fn is_done(&self) -> (r: bool)
        ensures
            r == !self@.pending(),
    {
        self.k >= self.links.len()
    }

    /// The errors so far, in order.
    pub fn errors(&self) -> (r: &Vec<String>)
        ensures
            message_views(r@) == self@.errors,
    {
        &self.errors
    }

    /// `Ok` when no operation failed, else every error in order.
    pub fn result(self) -> (r: Result<(), Vec<String>>)
        ensures
            match r {
                Ok(()) => self@.errors.len() == 0,
                Err(v) => self@.errors.len() > 0 && message_views(v@) == self@.errors,
            },
    {
        if self.errors.len() > 0 {
            Err(self.errors)
        } else {
            Ok(())
        }
    }

    /// `Ok` when no operation failed, else the first error.
    pub fn outcome(self) -> (r: Result<(), String>)
        ensures
            match r {
                Ok(()) => self@.errors.len() == 0,
                Err(e) => self@.errors.len() > 0 && e@ == self@.errors[0],
            },
    {
        if self.errors.len() > 0 {
            let mut errors = self.errors;
            assert(message_views(errors@)[0] == errors@[0]@);
            let first = errors.remove(0);
            Err(first)
        } else {
            Ok(())
        }
    }
}

} // verus!
