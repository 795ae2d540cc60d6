pub mod lc;
pub mod random;
pub mod rr;

use vstd::prelude::*;

verus! {

/// A load-balancing strategy over a fixed list of upstream addresses.
///
/// `addrs` is the list of upstream addresses the balancer was built with and
/// `wf` its internal well-formedness; both are abstract here and defined by
/// each strategy, as are the strategy's step relations: `can_select` says
/// when a selection succeeds, `selected_to` what a successful selection does
/// to the state, and `completed_to` what a completion does. Every strategy
/// promises: the address list never changes, a selection succeeds exactly
/// when `can_select` holds and then steps the state by `selected_to` —
/// otherwise it returns `None` and leaves the state untouched — whatever it
/// returns is one of the addresses, and a completion steps the state by
/// `completed_to`.
pub trait LoadBalancer: Sized {
    spec fn addrs(&self) -> Seq<Seq<char>>;

    spec fn wf(&self) -> bool;

    /// Whether the next `select_server` call yields a server.
    spec fn can_select(&self) -> bool;

    /// The state effect of a successful `select_server` call.
    spec fn selected_to(&self, post: Self) -> bool;

    /// The state effect of a `request_complete(a)` call.
    spec fn completed_to(&self, a: Seq<char>, post: Self) -> bool;

    fn select_server(&mut self) -> (r: Option<String>)
        requires
            old(self).wf(),
        ensures
            final(self).wf(),
            final(self).addrs() == old(self).addrs(),
            old(self).can_select() ==> (r is Some && old(self).selected_to(*final(self))),
            !old(self).can_select() ==> (r is None && *final(self) == *old(self)),
            old(self).addrs().len() == 0 ==> (r is None && *final(self) == *old(self)),
            r matches Some(s) ==> exists|i: int|
                0 <= i < old(self).addrs().len() && s@ == old(self).addrs()[i],
    ;

    fn request_complete(&mut self, server: String)
        requires
            old(self).wf(),
        ensures
            final(self).wf(),
            final(self).addrs() == old(self).addrs(),
            old(self).completed_to(server@, *final(self)),
    ;
}

/// One of the three strategies, chosen by its configuration token.
pub enum Balancer {
    RoundRobin(crate::lbs::rr::RoundRobin),
    LeastConn(crate::lbs::lc::LeastConn),
    Random(crate::lbs::random::Random),
}

impl LoadBalancer for Balancer {
    closed spec fn addrs(&self) -> Seq<Seq<char>> {
        match self {
            Balancer::RoundRobin(b) => b.addrs(),
            Balancer::LeastConn(b) => b.addrs(),
            Balancer::Random(b) => b.addrs(),
        }
    }

    closed spec fn wf(&self) -> bool {
        match self {
            Balancer::RoundRobin(b) => b.wf(),
            Balancer::LeastConn(b) => b.wf(),
            Balancer::Random(b) => b.wf(),
        }
    }

    closed spec fn can_select(&self) -> bool {
        match self {
            Balancer::RoundRobin(b) => b.can_select(),
            Balancer::LeastConn(b) => b.can_select(),
            Balancer::Random(b) => b.can_select(),
        }
    }

    closed spec fn selected_to(&self, post: Self) -> bool {
        match (self, post) {
            (Balancer::RoundRobin(b), Balancer::RoundRobin(p)) => b.selected_to(p),
            (Balancer::LeastConn(b), Balancer::LeastConn(p)) => b.selected_to(p),
            (Balancer::Random(b), Balancer::Random(p)) => b.selected_to(p),
            _ => false,
        }
    }

    closed spec fn completed_to(&self, a: Seq<char>, post: Self) -> bool {
        match (self, post) {
            (Balancer::RoundRobin(b), Balancer::RoundRobin(p)) => b.completed_to(a, p),
            (Balancer::LeastConn(b), Balancer::LeastConn(p)) => b.completed_to(a, p),
            (Balancer::Random(b), Balancer::Random(p)) => b.completed_to(a, p),
            _ => false,
        }
    }

    fn select_server(&mut self) -> (r: Option<String>) {
        match self {
            Balancer::RoundRobin(b) => {
                let ghost pre = *b;
                let r = b.select_server();
                proof {
                    if r is Some {
                        let s = r->Some_0;
                        let j = choose|i: int|
                            0 <= i < pre.addrs().len() && s@ == pre.addrs()[i];
                        assert(0 <= j < old(self).addrs().len() && s@ == old(self).addrs()[j]);
                    }
                }
                r
            },
            Balancer::LeastConn(b) => {
                let ghost pre = *b;
                let r = b.select_server();
                proof {
                    if r is Some {
                        let s = r->Some_0;
                        let j = choose|i: int|
                            0 <= i < pre.addrs().len() && s@ == pre.addrs()[i];
                        assert(0 <= j < old(self).addrs().len() && s@ == old(self).addrs()[j]);
                    }
                }
                r
            },
            Balancer::Random(b) => {
                let ghost pre = *b;
                let r = b.select_server();
                proof {
                    if r is Some {
                        let s = r->Some_0;
                        let j = choose|i: int|
                            0 <= i < pre.addrs().len() && s@ == pre.addrs()[i];
                        assert(0 <= j < old(self).addrs().len() && s@ == old(self).addrs()[j]);
                    }
                }
                r
            },
        }
    }

    fn request_complete(&mut self, server: String) {
        match self {
            Balancer::RoundRobin(b) => b.request_complete(server),
            Balancer::LeastConn(b) => b.request_complete(server),
            Balancer::Random(b) => b.request_complete(server),
        }
    }
}

/// Builds the balancer the configuration token names: `none` is the random
/// strategy, `roundrobin` and `leastconn` their stateful strategies. Any
/// other token — `off`, the reserved and unimplemented `source`, or an
/// unknown word — is a configuration error here.
pub fn make_balancer(algo: &str, servers: Vec<String>) -> (r: Result<
    Balancer,
    crate::config::ConfigError,
>)
    ensures
        ({
            if algo@ == "none"@ {
                r matches Ok(b) && b matches Balancer::Random(x) && x.addrs()
                    == servers.deep_view()
            } else if algo@ == "roundrobin"@ {
                r matches Ok(b) && b matches Balancer::RoundRobin(x) && x.addrs()
                    == servers.deep_view() && x.cursor() == 0
            } else if algo@ == "leastconn"@ {
                r matches Ok(b) && b matches Balancer::LeastConn(x) && x.addrs()
                    == servers.deep_view() && x.counters() =~= Seq::<usize>::new(
                    servers.deep_view().len(),
                    |i: int| 0usize,
                )
            } else {
                r matches Err(e) && e == crate::config::ConfigError::InvalidAlgorithm
            }
        }),
        r matches Ok(b) ==> b.wf() && b.addrs() == servers.deep_view(),
{
    if crate::text::str_eq(algo, "none") {
        Ok(Balancer::Random(crate::lbs::random::Random::new(servers)))
    } else if crate::text::str_eq(algo, "roundrobin") {
        Ok(Balancer::RoundRobin(crate::lbs::rr::RoundRobin::new(servers)))
    } else if crate::text::str_eq(algo, "leastconn") {
        Ok(Balancer::LeastConn(crate::lbs::lc::LeastConn::new(servers)))
    } else {
        Err(crate::config::ConfigError::InvalidAlgorithm)
    }
}

} // verus!
