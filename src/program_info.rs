//! What the embedding page says about a program: where its control-plane
//! socket is.
use vstd::prelude::*;

verus! {

pub struct ProgramInfo {
    pub site: Site,
}

pub struct Site {
    pub relive: Relive,
}

pub struct Relive {
    pub web_socket_url: String,
}

} // verus!
