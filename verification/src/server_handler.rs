use vstd::prelude::*;

use crate::lbs::LoadBalancer;
use crate::text::{
    ci_eq, find_char, find_char_from, parse_usize, spec_parse_usize, spec_trim,
    str_eq_ignore_case, trim,
};

verus! {

/// Why a proxied exchange failed: no upstream is configured, the connect
/// attempt to the chosen upstream failed, the exchange with the upstream
/// failed mid-way, or the answer could not be written back to the client.
#[derive(Clone, Copy, Debug, PartialEq, Eq, Structural)]
pub enum ProxyError {
    NoUpstreamAvailable,
    UpstreamConnectError,
    UpstreamIOError,
    ClientIOError,
}

/// The dispatch core: owns a load balancer and decides, step by step, how
/// one proxied exchange acquires and releases an upstream. The surrounding
/// worker performs the network reads and writes and feeds their outcomes
/// back in; every decision is made here.
pub struct ServerHandler<L: LoadBalancer> {
    pub lb: L,
}

impl<L: LoadBalancer> ServerHandler<L> {
    /// The upstream addresses of the owned balancer.
    pub open spec fn addrs(&self) -> Seq<Seq<char>> {
        self.lb.addrs()
    }

    pub open spec fn wf(&self) -> bool {
        self.lb.wf()
    }

    pub fn new(lb: L) -> (r: Self)
        requires
            lb.wf(),
        ensures
            r.wf(),
            r.lb == lb,
    {
        ServerHandler { lb }
    }

    /// First step of a dispatch: ask the balancer for an upstream. When the
    /// balancer can select, it does, and its state steps accordingly; when
    /// it cannot — in particular with no server configured — the exchange
    /// fails as service-unavailable and the balancer is left untouched: no
    /// accounting slot has been acquired.
    pub fn select_upstream(&mut self) -> (r: Result<String, ProxyError>)
        requires
            old(self).wf(),
        ensures
            final(self).wf(),
            final(self).addrs() == old(self).addrs(),
            old(self).lb.can_select() ==> (r is Ok && old(self).lb.selected_to(final(self).lb)),
            !old(self).lb.can_select() ==> ((r matches Err(e) && e
                == ProxyError::NoUpstreamAvailable) && *final(self) == *old(self)),
            old(self).addrs().len() == 0 ==> ((r matches Err(e) && e
                == ProxyError::NoUpstreamAvailable) && *final(self) == *old(self)),
            r matches Err(e) ==> e == ProxyError::NoUpstreamAvailable,
            r matches Ok(s) ==> exists|i: int|
                0 <= i < old(self).addrs().len() && s@ == old(self).addrs()[i],
    {
        match self.lb.select_server() {
            None => Err(ProxyError::NoUpstreamAvailable),
            Some(s) => {
                proof {
                    let j = choose|i: int|
                        0 <= i < old(self).lb.addrs().len() && s@ == old(self).lb.addrs()[i];
                    assert(0 <= j < old(self).addrs().len() && s@ == old(self).addrs()[j]);
                }
                Ok(s)
            },
        }
    }

    /// The connect attempt to the selected upstream failed: the slot
    /// acquired by the selection is released — the balancer steps by its
    /// completion relation — before the failure is reported, so the
    /// accounting holds and a dead server is not starved.
    pub fn connect_failed(&mut self, server: String) -> (r: ProxyError)
        requires
            old(self).wf(),
        ensures
            final(self).wf(),
            final(self).addrs() == old(self).addrs(),
            old(self).lb.completed_to(server@, final(self).lb),
            r == ProxyError::UpstreamConnectError,
    {
        self.lb.request_complete(server);
        ProxyError::UpstreamConnectError
    }

    /// The exchange with the selected upstream is over — however it went:
    /// the slot acquired by the selection is released exactly once, stepping
    /// the balancer by its completion relation.
    pub fn exchange_complete(&mut self, server: String)
        requires
            old(self).wf(),
        ensures
            final(self).wf(),
            final(self).addrs() == old(self).addrs(),
            old(self).lb.completed_to(server@, final(self).lb),
    {
        self.lb.request_complete(server);
    }
}

/// A raw line, as read with its line ending kept, is the blank line that
/// terminates a header block exactly when nothing stands before its line
/// ending: a carriage return and line feed, a bare line feed, or nothing at
/// all when the peer closed first.
pub open spec fn spec_blank_line(l: Seq<char>) -> bool {
    l.len() == 0 || l == seq!['\n'] || l == seq!['\r', '\n']
}

/// Whether a line read from the peer ends the header block.
pub fn line_ends_headers(line: &str) -> (r: bool)
    ensures
        r == spec_blank_line(line@),
{
    let n = line.unicode_len();
    if n == 0 {
        return true;
    }
    if n == 1 {
        let c = line.get_char(0);
        proof {
            if c == '\n' {
                assert(line@ =~= seq!['\n']);
            }
        }
        return c == '\n';
    }
    if n == 2 {
        let a = line.get_char(0);
        let b = line.get_char(1);
        proof {
            if a == '\r' && b == '\n' {
                assert(line@ =~= seq!['\r', '\n']);
            }
        }
        return a == '\r' && b == '\n';
    }
    false
}

/// Whether the line is a `Content-Length` header: its first colon exists and
/// what stands before it is the header name up to ASCII case.
pub open spec fn is_cl_line(l: Seq<char>) -> bool {
    let j = find_char_from(l, ':', 0);
    j != -1 && ci_eq(l.subrange(0, j), "Content-Length"@)
}

/// The length such a line declares: what follows its first colon, trimmed
/// and read as an unsigned number; nothing when it does not parse.
pub open spec fn spec_cl_of_line(l: Seq<char>) -> Option<int> {
    let j = find_char_from(l, ':', 0);
    spec_parse_usize(spec_trim(l.subrange(j + 1, l.len() as int)))
}

/// The body length a header block declares: the value of its first
/// `Content-Length` line, from line `i` on; nothing when there is no such
/// line or its value does not parse — the body then runs until the peer
/// closes.
pub open spec fn spec_head_cl(ls: Seq<Seq<char>>, i: int) -> Option<int>
    decreases ls.len() - i,
{
    if i < 0 || i >= ls.len() {
        None
    } else if is_cl_line(ls[i]) {
        spec_cl_of_line(ls[i])
    } else {
        spec_head_cl(ls, i + 1)
    }
}

/// Reads the body-framing decision off a header block: the declared
/// `Content-Length` when one is present and parses, otherwise nothing.
pub fn head_content_length(lines: &Vec<String>) -> (r: Option<usize>)
    ensures
        ({
            match spec_head_cl(lines.deep_view(), 0) {
                Some(v) => r matches Some(x) && x as int == v,
                None => r is None,
            }
        }),
{
    let ghost ls = lines.deep_view();
    let n = lines.len();
    let mut i: usize = 0;
    while i < n
        invariant
            i <= n,
            n == ls.len(),
            ls == lines.deep_view(),
            spec_head_cl(ls, 0) == spec_head_cl(ls, i as int),
        decreases n - i,
    {
        proof {
            assert(lines@[i as int]@ == ls[i as int]);
        }
        let t = lines[i].as_str();
        match find_char(t, ':') {
            None => {
                i += 1;
            },
            Some(j) => {
                if str_eq_ignore_case(t.substring_char(0, j), "Content-Length") {
                    let tn = t.unicode_len();
                    let v = trim(t.substring_char(j + 1, tn));
                    return parse_usize(v.as_str());
                } else {
                    i += 1;
                }
            },
        }
    }
    None
}

/// The bytes relayed to the client for a response whose header block is
/// `head` and whose raw body bytes are `body`: with a declared length, at
/// most that many body bytes follow the head — whatever arrived beyond the
/// declared length is discarded, never forwarded; with no declared length,
/// every body byte read until the peer closed is relayed.
pub open spec fn spec_relayed(head: Seq<u8>, body: Seq<u8>, len: Option<int>) -> Seq<u8> {
    match len {
        Some(l) => if l <= body.len() {
            head + body.subrange(0, l)
        } else {
            head + body
        },
        None => head + body,
    }
}

/// Builds the one logical response relayed to the client, verbatim: the
/// header block, then the body cut to the declared length.
pub fn assemble_response(head: &Vec<u8>, body: &Vec<u8>, len: Option<usize>) -> (r: Vec<u8>)
    ensures
        r@ == spec_relayed(
            head@,
            body@,
            match len {
                Some(l) => Some(l as int),
                None => None,
            },
        ),
{
    let mut out: Vec<u8> = Vec::new();
    let hn = head.len();
    let mut i: usize = 0;
    proof {
        assert(out@ =~= head@.subrange(0, 0));
    }
    while i < hn
        invariant
            i <= hn,
            hn == head@.len(),
            out@ == head@.subrange(0, i as int),
        decreases hn - i,
    {
        out.push(head[i]);
        proof {
            assert(out@ =~= head@.subrange(0, i as int + 1));
        }
        i += 1;
    }
    proof {
        assert(head@.subrange(0, hn as int) =~= head@);
    }
    let limit: usize = match len {
        Some(l) => if l < body.len() {
            l
        } else {
            body.len()
        },
        None => body.len(),
    };
    let mut k: usize = 0;
    proof {
        assert(head@ + body@.subrange(0, 0) =~= head@);
    }
    while k < limit
        invariant
            k <= limit,
            limit <= body@.len(),
            out@ == head@ + body@.subrange(0, k as int),
        decreases limit - k,
    {
        out.push(body[k]);
        proof {
            assert(out@ =~= head@ + body@.subrange(0, k as int + 1));
        }
        k += 1;
    }
    proof {
        assert(body@.subrange(0, body@.len() as int) =~= body@);
    }
    out
}

} // verus!
