//! Decision logic of the iterative resolver.
//!
//! The resolver walks the delegation chain from a seed server down to
//! an authoritative answer. Network traffic is not performed here: the
//! machine hands out `Ask` steps naming the next server to query and
//! consumes the responses, so every decision is verified while the
//! caller owns the sockets. A nested resolution of a nameserver's own
//! address is a further frame on an explicit stack.
//!
//! Unlike a bare loop, the machine fails closed: each frame may follow
//! at most `MAX_HOPS` delegations, the stack is at most `MAX_DEPTH`
//! deep, and a global budget bounds the total number of questions, so
//! resolution terminates for any responses whatever, adversarial ones
//! included.

use vstd::prelude::*;
use crate::dns::packet::{spec_ns_pairs, spec_resolve_ns, spec_unresolved_ns, DnsPacket};
use crate::dns::query_type::QueryType;
use crate::dns::result_code::ResultCode;

verus! {

/// Most delegation hops a single frame may follow.
pub const MAX_HOPS: u32 = 16;

/// Deepest allowed nesting of nameserver-address resolutions.
pub const MAX_DEPTH: usize = 4;

/// Most questions one resolution may send in total.
pub const STEP_BUDGET: u32 = 64;

/// One in-flight question: what is being resolved, against which
/// server, and how many hops this frame has used. A frame that pushed
/// a nested resolution keeps the response it was processing in
/// `saved`, to fall back to if the nested resolution yields no
/// address.
pub struct Frame {
    pub qname: Vec<u8>,
    pub qtype: QueryType,
    pub ns: u32,
    pub hops: u32,
    pub saved: Option<DnsPacket>,
}

/// What the resolver asks its driver to do next.
pub enum ResolveStep {
    /// Send this question to this server and feed back the response.
    Ask { server: u32, qname: Vec<u8>, qtype: QueryType },
    /// Resolution ended with this response.
    Done(DnsPacket),
    /// Resolution failed closed; answer with a server failure.
    Fail,
}

/// Every frame below the top is waiting on a nested resolution and
/// holds the response it will fall back to.
pub open spec fn frames_ok(fs: Seq<Frame>) -> bool {
    forall|i: int| 0 <= i < fs.len() - 1 ==> (#[trigger] fs[i]).saved is Some
}

/// The delegation-following machine.
pub struct Resolver {
    pub frames: Vec<Frame>,
    pub seed: u32,
    pub budget: u32,
    pub finished: bool,
}

impl Resolver {
    pub open spec fn wf(&self) -> bool {
        !self.finished ==> {
            &&& 1 <= self.frames@.len() <= MAX_DEPTH
            &&& frames_ok(self.frames@)
        }
    }

    /// Begin resolving `qname` against the seed server. The first step
    /// always asks the seed.
    pub fn start(qname: Vec<u8>, qtype: QueryType, seed: u32) -> (r: (Resolver, ResolveStep))
        ensures
            r.0.wf(),
            !r.0.finished,
            r.0.budget == STEP_BUDGET,
            r.0.seed == seed,
            r.0.frames@.len() == 1,
            r.1 matches ResolveStep::Ask { server, qname: qn, qtype: qt } && server == seed && qn@
                == qname@ && qt == qtype,
            r.0.frames@[0].qname@ == qname@,
            r.0.frames@[0].qtype == qtype,
    {
        let ask_name = clone_bytes(&qname);
        let frame = Frame { qname, qtype, ns: seed, hops: 0, saved: None };
        let mut frames: Vec<Frame> = Vec::new();
        frames.push(frame);
        let machine = Resolver { frames, seed, budget: STEP_BUDGET, finished: false };
        (machine, ResolveStep::Ask { server: seed, qname: ask_name, qtype })
    }

    /// Consume the response to the last `Ask` and decide the next
    /// step, as the delegation rules say:
    ///
    /// - a nonempty answer with `NOERROR`, or any `NXDOMAIN`, finishes
    ///   the current frame with this response;
    /// - otherwise a delegation with glue re-asks the delegated
    ///   server;
    /// - otherwise a delegation without glue starts a nested
    ///   resolution of the nameserver's address from the seed;
    /// - otherwise the frame finishes with this response as it stands.
    ///
    /// Every `Ask` strictly decreases the remaining budget, so any
    /// resolution ends within a bounded number of questions.
    pub fn on_response(&mut self, resp: DnsPacket) -> (r: ResolveStep)
        requires
            old(self).wf(),
            !old(self).finished,
        ensures
            final(self).wf(),
            final(self).seed == old(self).seed,
            r is Ask ==> !final(self).finished && final(self).budget < old(self).budget,
            final(self).budget <= old(self).budget,
            (r is Done || r is Fail) ==> final(self).finished,
            // An authoritative answer or negative answer at the top
            // level is returned to the caller unchanged.
            old(self).budget > 0 && old(self).frames@.len() == 1 && resp.header.rescode
                == ResultCode::NXDOMAIN ==> r == ResolveStep::Done(resp),
            old(self).budget > 0 && old(self).frames@.len() == 1 && resp@.answers.len() > 0
                && resp.header.rescode == ResultCode::NOERROR ==> r == ResolveStep::Done(resp),
            // A negative answer never continues the frame it answers:
            // the stack only shrinks, or resolution ends.
            resp.header.rescode == ResultCode::NXDOMAIN ==> (final(self).finished || final(
                self).frames@.len() < old(self).frames@.len()),
            // The delegation decision for the frame that asked.
            ({
                let t = old(self).frames@.last();
                let pairs = spec_ns_pairs(resp@.authorities, t.qname@);
                let continuing = !(resp@.answers.len() > 0 && resp.header.rescode
                    == ResultCode::NOERROR) && resp.header.rescode != ResultCode::NXDOMAIN
                    && old(self).budget > 0;
                &&& (spec_resolve_ns(pairs, resp@.resources) matches Some(addr) ==> (continuing
                    ==> (if t.hops < MAX_HOPS {
                    r matches ResolveStep::Ask { server, qname, qtype } && server == addr
                        && qname@ == t.qname@ && qtype == t.qtype
                } else {
                    r is Fail
                })))
                &&& (spec_unresolved_ns(pairs, resp@.resources) matches Some(host) ==> ((
                continuing && spec_resolve_ns(pairs, resp@.resources) is None) ==> (
                if t.hops < MAX_HOPS && old(self).frames@.len() < MAX_DEPTH {
                    r matches ResolveStep::Ask { server, qname, qtype } && server == old(
                        self).seed && qname@ == host && qtype == QueryType::A && final(
                        self).frames@.len() == old(self).frames@.len() + 1
                } else {
                    r is Fail
                })))
            }),
            // With nothing usable in the response, a top-level
            // resolution returns it as it stands, best effort.
            ({
                let t = old(self).frames@.last();
                let pairs = spec_ns_pairs(resp@.authorities, t.qname@);
                old(self).budget > 0 && old(self).frames@.len() == 1 && !(resp@.answers.len() > 0
                    && resp.header.rescode == ResultCode::NOERROR) && resp.header.rescode
                    != ResultCode::NXDOMAIN && spec_resolve_ns(pairs, resp@.resources) is None
                    && spec_unresolved_ns(pairs, resp@.resources) is None ==> r
                    == ResolveStep::Done(resp)
            }),
            old(self).budget == 0 ==> r is Fail,
    {
        if self.budget == 0 {
            self.finished = true;
            return ResolveStep::Fail;
        }
        self.budget = self.budget - 1;

        let answered = self.answers_len_positive(&resp) && resp.header.rescode
            == ResultCode::NOERROR;
        if answered || resp.header.rescode == ResultCode::NXDOMAIN {
            return self.complete(resp);
        }

        let top = self.frames.len() - 1;
        let qname = clone_bytes(&self.frames[top].qname);

        match resp.get_resolve_ns(&qname) {
            Some(addr) => {
                let mut f = self.frames.pop().unwrap();
                if f.hops >= MAX_HOPS {
                    self.finished = true;
                    return ResolveStep::Fail;
                }
                f.ns = addr;
                f.hops = f.hops + 1;
                let ask_name = clone_bytes(&f.qname);
                let qt = f.qtype;
                self.frames.push(f);
                return ResolveStep::Ask { server: addr, qname: ask_name, qtype: qt };
            },
            None => {},
        }

        match resp.get_unresolved_ns(&qname) {
            Some(host) => {
                if self.frames.len() >= MAX_DEPTH {
                    self.finished = true;
                    return ResolveStep::Fail;
                }
                let mut f = self.frames.pop().unwrap();
                if f.hops >= MAX_HOPS {
                    self.finished = true;
                    return ResolveStep::Fail;
                }
                // The nested resolution costs this frame a hop, and the
                // response is kept to fall back to.
                f.hops = f.hops + 1;
                f.saved = Some(resp);
                self.frames.push(f);
                let nested_name = clone_bytes(&host);
                let seed = self.seed;
                self.frames.push(
                    Frame { qname: host, qtype: QueryType::A, ns: seed, hops: 0, saved: None },
                );
                return ResolveStep::Ask {
                    server: seed,
                    qname: nested_name,
                    qtype: QueryType::A,
                };
            },
            None => {},
        }

        self.complete(resp)
    }

    /// A network failure while asking: resolution fails closed.
    pub fn on_error(&mut self) -> (r: ResolveStep)
        ensures
            final(self).finished,
            r is Fail,
    {
        self.finished = true;
        ResolveStep::Fail
    }

    /// Whether the answer section is nonempty.
    fn answers_len_positive(&self, resp: &DnsPacket) -> (r: bool)
        ensures
            r == (resp@.answers.len() > 0),
    {
        resp.answers.len() > 0
    }

    /// The top frame has finished with `result`: pop it and let each
    /// waiting parent either continue against the address the nested
    /// resolution produced, or fall back to its own saved response.
    fn complete(&mut self, resp: DnsPacket) -> (r: ResolveStep)
        requires
            old(self).wf(),
            !old(self).finished,
        ensures
            final(self).wf(),
            final(self).seed == old(self).seed,
            final(self).budget == old(self).budget,
            r is Ask ==> !final(self).finished,
            (r is Done || r is Fail) ==> final(self).finished,
            old(self).frames@.len() == 1 ==> r == ResolveStep::Done(resp),
            final(self).finished || final(self).frames@.len() < old(self).frames@.len(),
    {
        let mut result = resp;
        let ghost len0 = self.frames@.len();
        loop
            invariant
                self.wf(),
                !self.finished,
                1 <= self.frames@.len(),
                self.seed == old(self).seed,
                self.budget == old(self).budget,
                self.frames@.len() <= len0,
                len0 == old(self).frames@.len(),
                len0 == 1 ==> self.frames@.len() == 1 && result == resp,
            decreases self.frames@.len(),
        {
            let _finished_frame = self.frames.pop().unwrap();
            if self.frames.len() == 0 {
                self.finished = true;
                return ResolveStep::Done(result);
            }
            match result.get_random_a() {
                Some(addr) => {
                    let mut parent = self.frames.pop().unwrap();
                    if parent.hops >= MAX_HOPS {
                        self.finished = true;
                        return ResolveStep::Fail;
                    }
                    parent.ns = addr;
                    parent.hops = parent.hops + 1;
                    parent.saved = None;
                    let ask_name = clone_bytes(&parent.qname);
                    let qt = parent.qtype;
                    self.frames.push(parent);
                    return ResolveStep::Ask { server: addr, qname: ask_name, qtype: qt };
                },
                None => {
                    // The nested resolution produced no address: the
                    // parent gives up and finishes with the response it
                    // was processing before it recursed.
                    let mut parent = self.frames.pop().unwrap();
                    match parent.saved {
                        Some(saved) => {
                            result = saved;
                            parent.saved = None;
                            self.frames.push(parent);
                        },
                        None => {
                            self.finished = true;
                            return ResolveStep::Fail;
                        },
                    }
                },
            }
        }
    }
}

/// A fresh copy of a byte string.
fn clone_bytes(v: &Vec<u8>) -> (r: Vec<u8>)
    ensures
        r@ == v@,
{
    let mut out: Vec<u8> = Vec::new();
    let mut i: usize = 0;
    while i < v.len()
        invariant
            0 <= i <= v@.len(),
            out@ == v@.take(i as int),
        decreases v@.len() - i,
    {
        out.push(v[i]);
        proof {
            assert(out@ =~= v@.take(i + 1));
        }
        i = i + 1;
    }
    proof {
        assert(v@.take(v@.len() as int) =~= v@);
    }
    out
}

} // verus!
