use vstd::prelude::*;

use crate::lbs::LoadBalancer;
use rand::Rng;

verus! {

/// The stateless strategy (configuration token `none`): every call picks a
/// uniformly random server; `complete` needs no accounting.
pub struct Random {
    servers: Vec<String>,
    slen: usize,
}

/// Relies on rand::Rng::gen_range over `0..n`: returns a uniformly
/// distributed value in the range, which is below `n`; the range is nonempty,
/// so the call cannot panic.
#[verifier::external_body]
fn random_index(n: usize) -> (r: usize)
    requires
        1 <= n,
    ensures
        r < n,
{
    rand::thread_rng().gen_range(0..n)
}

impl Random {
    pub fn new(servers: Vec<String>) -> (r: Self)
        ensures
            r.wf(),
            r.addrs() == servers.deep_view(),
    {
        Random { slen: servers.len(), servers }
    }
}

impl LoadBalancer for Random {
    closed spec fn addrs(&self) -> Seq<Seq<char>> {
        self.servers.deep_view()
    }

    closed spec fn wf(&self) -> bool {
        self.slen == self.servers@.len()
    }

    /// A selection succeeds whenever there is a server at all.
    closed spec fn can_select(&self) -> bool {
        self.servers@.len() > 0
    }

    /// The stateless strategy: a selection changes nothing.
    closed spec fn selected_to(&self, post: Self) -> bool {
        post == *self
    }

    /// The stateless strategy: a completion changes nothing.
    closed spec fn completed_to(&self, a: Seq<char>, post: Self) -> bool {
        post == *self
    }

    /// Draws a random index over the server count and returns that server;
    /// `None` exactly when the list is empty. Which server comes back is up
    /// to the random draw; every answer is one of the addresses.
    fn select_server(&mut self) -> (r: Option<String>)
        ensures
            *final(self) == *old(self),
            r is Some <==> old(self).addrs().len() > 0,
    {
        if self.servers.is_empty() {
            return None;
        }
        let index = random_index(self.slen);
        let chosen = self.servers[index].clone();
        proof {
            assert(self.addrs()[index as int] == self.servers@[index as int]@);
        }
        Some(chosen)
    }

    /// The stateless strategy keeps no per-request state: completion changes
    /// nothing.
    fn request_complete(&mut self, server: String)
        ensures
            *final(self) == *old(self),
    {
    }
}

} // verus!
