use vstd::prelude::*;

use crate::lbs::LoadBalancer;

verus! {

/// Round-robin strategy: a cursor walks the server list in order and wraps
/// around modulo the server count. `complete` needs no accounting.
pub struct RoundRobin {
    servers: Vec<String>,
    last_index: usize,
    slen: usize,
}

/// The address served by the `k`-th call to `select_server` on a round-robin
/// balancer whose cursor starts at `start`.
pub open spec fn rr_nth(addrs: Seq<Seq<char>>, start: int, k: int) -> Seq<char>
    recommends
        addrs.len() > 0,
{
    addrs[(start + k) % (addrs.len() as int)]
}

impl RoundRobin {
    /// The index the next `select_server` call will return.
    pub closed spec fn cursor(&self) -> int {
        self.last_index as int
    }

    pub fn new(servers: Vec<String>) -> (r: Self)
        ensures
            r.wf(),
            r.addrs() == servers.deep_view(),
            r.cursor() == 0,
    {
        RoundRobin { slen: servers.len(), servers, last_index: 0 }
    }
}

impl LoadBalancer for RoundRobin {
    closed spec fn addrs(&self) -> Seq<Seq<char>> {
        self.servers.deep_view()
    }

    closed spec fn wf(&self) -> bool {
        &&& self.slen == self.servers@.len()
        &&& self.slen > 0 ==> self.last_index < self.slen
        &&& self.slen == 0 ==> self.last_index == 0
    }

    /// A selection succeeds whenever there is a server at all.
    closed spec fn can_select(&self) -> bool {
        self.servers@.len() > 0
    }

    /// A selection advances the cursor by one modulo the server count and
    /// changes nothing else.
    closed spec fn selected_to(&self, post: Self) -> bool {
        &&& post.servers == self.servers
        &&& post.slen == self.slen
        &&& post.last_index as int == (self.last_index as int + 1) % (self.slen as int)
    }

    /// Round robin keeps no per-request state: a completion changes nothing.
    closed spec fn completed_to(&self, a: Seq<char>, post: Self) -> bool {
        post == *self
    }

    /// Returns the address at the cursor and advances the cursor by one,
    /// wrapping at the end of the list; `None` exactly when the list is empty.
    fn select_server(&mut self) -> (r: Option<String>)
        ensures
            r is Some <==> old(self).addrs().len() > 0,
            old(self).addrs().len() > 0 ==> {
                &&& r matches Some(s) && s@ == rr_nth(old(self).addrs(), old(self).cursor(), 0)
                &&& final(self).cursor() == (old(self).cursor() + 1) % (old(self).addrs().len()
                    as int)
            },
            old(self).addrs().len() == 0 ==> *final(self) == *old(self),
    {
        if self.servers.is_empty() {
            return None;
        }
        let current = self.last_index;
        self.last_index = (self.last_index + 1) % self.slen;
        let chosen = self.servers[current].clone();
        proof {
            assert(self.addrs()[current as int] == self.servers@[current as int]@);
            vstd::arithmetic::div_mod::lemma_small_mod(
                current as nat,
                old(self).addrs().len() as nat,
            );
        }
        Some(chosen)
    }

    /// Round robin keeps no per-request state: completion changes nothing.
    fn request_complete(&mut self, server: String)
        ensures
            *final(self) == *old(self),
    {
    }
}

/// The round-robin schedule is the server list repeated indefinitely: starting
/// from cursor `start`, the `k`-th selection is the server at `(start + k)`
/// modulo the server count, each selection advances the cursor to the position
/// whose schedule is the remaining suffix, and the schedule repeats with
/// period equal to the server count.
pub proof fn lemma_round_robin_schedule(addrs: Seq<Seq<char>>, start: int, k: int)
    requires
        addrs.len() > 0,
        0 <= start < addrs.len(),
        0 <= k,
    ensures
        rr_nth(addrs, start, k) == addrs[(start + k) % (addrs.len() as int)],
        rr_nth(addrs, start, k + 1) == rr_nth(addrs, (start + 1) % (addrs.len() as int), k),
        rr_nth(addrs, start, k + addrs.len()) == rr_nth(addrs, start, k),
        rr_nth(addrs, 0, k) == addrs[k % (addrs.len() as int)],
{
    let n = addrs.len() as int;
    assert((start + (k + 1)) % n == ((start + 1) % n + k) % n) by {
        vstd::arithmetic::div_mod::lemma_add_mod_noop(start + 1, k, n);
        vstd::arithmetic::div_mod::lemma_mod_twice(start + 1, n);
        vstd::arithmetic::div_mod::lemma_add_mod_noop((start + 1) % n, k, n);
    }
    assert((start + (k + n)) % n == (start + k) % n) by {
        vstd::arithmetic::div_mod::lemma_mod_add_multiples_vanish(start + k, n);
    }
}

} // verus!
