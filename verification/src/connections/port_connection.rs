use vstd::prelude::*;

verus! {

/// The two ports that a connection links: audio comes from the port `audio_out` and goes
/// into the port `audio_in`.
#[derive(Clone)]
pub struct PortConnection {
    pub audio_out: String,
    pub audio_in: String,
}

impl View for PortConnection {
    type V = (Seq<char>, Seq<char>);

    /// The pair of port names, `audio_in` first.
    open spec fn view(&self) -> (Seq<char>, Seq<char>) {
        (self.audio_in@, self.audio_out@)
    }
}

impl PortConnection {
    pub fn new(paudio_in: &str, paudio_out: &str) -> (r: PortConnection)
        ensures
            r.audio_in@ == paudio_in@,
            r.audio_out@ == paudio_out@,
    {
        PortConnection { audio_in: String::from_str(paudio_in), audio_out: String::from_str(paudio_out) }
    }

    /// A copy of the pair.
    pub fn duplicate(&self) -> (r: PortConnection)
        ensures
            r@ == self@,
    {
        PortConnection { audio_out: self.audio_out.clone(), audio_in: self.audio_in.clone() }
    }
}

} // verus!
