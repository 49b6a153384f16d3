//! The query service's response contract.
//!
//! The service loop itself is plain I/O: receive a datagram, decode
//! it, drive the resolver, encode the reply, send it. What the reply
//! must look like is decided here, so the decision is verified: the
//! response echoes the request id, answers the first question with
//! the resolver's result, and reports failure only through the result
//! code.

use vstd::prelude::*;
use crate::dns::packet::DnsPacket;
use crate::dns::result_code::ResultCode;

verus! {

/// Build the client-visible response for `request`.
///
/// `result` is what the resolver produced for the request's first
/// question: `None` when resolution was attempted and failed, or when
/// there was no question to resolve.
///
/// - With no question, the response is `FORMERR` with empty sections.
/// - With a question but no result, it is `SERVFAIL` with empty
///   sections.
/// - With a result, its result code and all of its answer, authority
///   and additional records are carried over unchanged.
pub fn build_response(request: DnsPacket, result: Option<DnsPacket>) -> (resp: DnsPacket)
    ensures
        resp.header.id == request.header.id,
        resp.header.response,
        resp.header.recursion_desired,
        resp.header.recursion_available,
        request@.questions.len() == 0 ==> {
            &&& resp.header.rescode == ResultCode::FORMERR
            &&& resp@.questions.len() == 0
            &&& resp@.answers.len() == 0
            &&& resp@.authorities.len() == 0
            &&& resp@.resources.len() == 0
        },
        request@.questions.len() > 0 && result is None ==> {
            &&& resp.header.rescode == ResultCode::SERVFAIL
            &&& resp@.questions.len() == 0
            &&& resp@.answers.len() == 0
            &&& resp@.authorities.len() == 0
            &&& resp@.resources.len() == 0
        },
        result matches Some(res) ==> (request@.questions.len() > 0 ==> {
            &&& resp@.questions.len() == 1
            &&& resp@.questions[0] == request@.questions[0]
            &&& resp.header.rescode == res.header.rescode
            &&& resp@.answers == res@.answers
            &&& resp@.authorities == res@.authorities
            &&& resp@.resources == res@.resources
        }),
{
    let mut request = request;
    let mut packet = DnsPacket::new();
    packet.header.id = request.header.id;
    packet.header.recursion_desired = true;
    packet.header.recursion_available = true;
    packet.header.response = true;

    if request.questions.len() > 0 {
        let question = request.questions.remove(0);
        match result {
            Some(res) => {
                let ghost qv = question@;
                packet.questions.push(question);
                proof {
                    assert(packet@.questions =~= seq![qv]);
                }
                packet.header.rescode = res.header.rescode;
                packet.answers = res.answers;
                packet.authorities = res.authorities;
                packet.resources = res.resources;
            },
            None => {
                packet.header.rescode = ResultCode::SERVFAIL;
            },
        }
    } else {
        packet.header.rescode = ResultCode::FORMERR;
    }
    packet
}

} // verus!
