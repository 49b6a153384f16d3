//! Specification model of DNS domain names on the wire.
//!
//! A name is a sequence of ASCII bytes with `.` between labels. On the
//! wire it is a sequence of length-prefixed labels terminated by a zero
//! octet; a length octet with both high bits set (value at least 192)
//! is a compression pointer holding a 14-bit offset to an earlier name.

use vstd::prelude::*;

verus! {

/// Capacity of a DNS packet buffer in bytes.
pub const CAPACITY: usize = 512;

/// Most compression pointers a single name may follow while decoding.
pub const MAX_JUMPS: usize = 5;

/// ASCII lower-casing of one byte.
pub open spec fn lower_byte(b: u8) -> u8 {
    if 65 <= b && b <= 90 {
        (b + 32) as u8
    } else {
        b
    }
}

/// ASCII lower-casing of a byte sequence.
pub open spec fn lower_bytes(s: Seq<u8>) -> Seq<u8> {
    s.map_values(|b: u8| lower_byte(b))
}

/// Index of the first `.` in `n`, or `n.len()` if there is none.
pub open spec fn first_dot(n: Seq<u8>) -> int
    decreases n.len(),
{
    if n.len() == 0 {
        0
    } else if n[0] == 46 {
        0
    } else {
        1 + first_dot(n.drop_first())
    }
}

pub proof fn lemma_first_dot_bounds(n: Seq<u8>)
    ensures
        0 <= first_dot(n) <= n.len(),
        forall|k: int| 0 <= k < first_dot(n) ==> n[k] != 46,
        first_dot(n) < n.len() ==> n[first_dot(n)] == 46,
    decreases n.len(),
{
    if n.len() != 0 && n[0] != 46 {
        lemma_first_dot_bounds(n.drop_first());
        assert forall|k: int| 0 <= k < first_dot(n) implies n[k] != 46 by {
            if k > 0 {
                assert(n.drop_first()[k - 1] != 46);
            }
        }
    }
}

/// The labels of a dotted name, as `split` on `.` yields them: there is
/// always at least one label, and empty labels are kept.
pub open spec fn labels_of(n: Seq<u8>) -> Seq<Seq<u8>>
    decreases n.len(),
{
    let fd = first_dot(n);
    if !(0 <= fd <= n.len()) {
        seq![]
    } else if fd == n.len() {
        seq![n]
    } else {
        seq![n.take(fd)] + labels_of(n.skip(fd + 1))
    }
}

/// A scan that stops at the first dot finds `first_dot`.
pub proof fn lemma_first_dot_from_scan(s: Seq<u8>, d: int)
    requires
        0 <= d <= s.len(),
        forall|k: int| 0 <= k < d ==> s[k] != 46,
        d < s.len() ==> s[d] == 46,
    ensures
        first_dot(s) == d,
    decreases s.len(),
{
    if s.len() != 0 && s[0] != 46 {
        assert forall|k: int| 0 <= k < d - 1 implies s.drop_first()[k] != 46 by {
            assert(s[k + 1] != 46);
        }
        lemma_first_dot_from_scan(s.drop_first(), d - 1);
    }
}

/// Dotted name from labels: the inverse of `labels_of`.
pub open spec fn name_of_labels(ls: Seq<Seq<u8>>) -> Seq<u8>
    decreases ls.len(),
{
    if ls.len() == 0 {
        seq![]
    } else if ls.len() == 1 {
        ls[0]
    } else {
        ls[0] + seq![46u8] + name_of_labels(ls.drop_first())
    }
}

/// Wire encoding of a label list: each label prefixed with its length,
/// the list terminated by a zero octet.
pub open spec fn encode_labels(ls: Seq<Seq<u8>>) -> Seq<u8>
    decreases ls.len(),
{
    if ls.len() == 0 {
        seq![0u8]
    } else {
        seq![ls[0].len() as u8] + ls[0] + encode_labels(ls.drop_first())
    }
}

/// Wire encoding of a label list without the terminating zero octet.
pub open spec fn encode_labels_partial(ls: Seq<Seq<u8>>) -> Seq<u8>
    decreases ls.len(),
{
    if ls.len() == 0 {
        seq![]
    } else {
        seq![ls[0].len() as u8] + ls[0] + encode_labels_partial(ls.drop_first())
    }
}

/// The full encoding splits into any leading labels' bytes and the
/// encoding of the rest.
pub proof fn lemma_encode_labels_append(a: Seq<Seq<u8>>, b: Seq<Seq<u8>>)
    ensures
        encode_labels(a + b) == encode_labels_partial(a) + encode_labels(b),
    decreases a.len(),
{
    if a.len() == 0 {
        assert(a + b =~= b);
        assert(encode_labels_partial(a) + encode_labels(b) =~= encode_labels(b));
    } else {
        lemma_encode_labels_append(a.drop_first(), b);
        assert((a + b).drop_first() =~= a.drop_first() + b);
        assert(seq![(a + b)[0].len() as u8] + (a + b)[0] + (encode_labels_partial(a.drop_first())
            + encode_labels(b)) =~= (seq![a[0].len() as u8] + a[0] + encode_labels_partial(
            a.drop_first(),
        )) + encode_labels(b));
    }
}

pub proof fn lemma_encode_labels_partial_append(a: Seq<Seq<u8>>, b: Seq<Seq<u8>>)
    ensures
        encode_labels_partial(a + b) == encode_labels_partial(a) + encode_labels_partial(b),
    decreases a.len(),
{
    if a.len() == 0 {
        assert(a + b =~= b);
        assert(encode_labels_partial(a) + encode_labels_partial(b) =~= encode_labels_partial(b));
    } else {
        lemma_encode_labels_partial_append(a.drop_first(), b);
        assert((a + b).drop_first() =~= a.drop_first() + b);
        assert(seq![(a + b)[0].len() as u8] + (a + b)[0] + (encode_labels_partial(a.drop_first())
            + encode_labels_partial(b)) =~= (seq![a[0].len() as u8] + a[0]
            + encode_labels_partial(a.drop_first())) + encode_labels_partial(b));
    }
}

/// The full encoding is the labels' bytes followed by the terminator.
pub proof fn lemma_encode_labels_terminated(ls: Seq<Seq<u8>>)
    ensures
        encode_labels(ls) == encode_labels_partial(ls) + seq![0u8],
{
    lemma_encode_labels_append(ls, seq![]);
    assert(ls + Seq::<Seq<u8>>::empty() =~= ls);
}

/// Wire encoding of a dotted name.
pub open spec fn encode_name(n: Seq<u8>) -> Seq<u8> {
    encode_labels(labels_of(n))
}

/// Every label of the name can be written: none longer than 63 bytes.
pub open spec fn labels_fit(n: Seq<u8>) -> bool {
    forall|i: int| 0 <= i < labels_of(n).len() ==> #[trigger] labels_of(n)[i].len() <= 63
}

/// A name that decodes back to itself (up to case): every label is
/// nonempty and at most 63 bytes long.
pub open spec fn valid_name(n: Seq<u8>) -> bool {
    forall|i: int|
        0 <= i < labels_of(n).len() ==> 1 <= (#[trigger] labels_of(n)[i]).len() <= 63
}

/// Join two decoded name fragments with a dot, unless either is empty.
pub open spec fn join_name(a: Seq<u8>, b: Seq<u8>) -> Seq<u8> {
    if a.len() == 0 {
        b
    } else if b.len() == 0 {
        a
    } else {
        a + seq![46u8] + b
    }
}

pub proof fn lemma_join_name_assoc(a: Seq<u8>, b: Seq<u8>, c: Seq<u8>)
    ensures
        join_name(join_name(a, b), c) == join_name(a, join_name(b, c)),
{
    if a.len() != 0 && b.len() != 0 && c.len() != 0 {
        assert(join_name(join_name(a, b), c) =~= join_name(a, join_name(b, c)));
    }
}

/// Outcome of reading a name from a buffer.
///
/// In `Done`, `end` is the cursor position after the name: just past
/// the terminating zero octet if no pointer was followed, and just past
/// the first (two-byte) pointer otherwise.
pub enum NameRead {
    Done { name: Seq<u8>, end: int },
    TooManyJumps,
    OutOfBounds,
}

/// Reading a name from `buf` at `pos`, with `jumps` pointers already
/// followed. Labels are lower-cased and joined with dots; a length
/// octet of at least 192 is a pointer to the offset held in its low six
/// bits and the following octet.
pub open spec fn parse_name_at(buf: Seq<u8>, pos: int, jumps: int) -> NameRead
    decreases MAX_JUMPS as int - jumps, buf.len() - pos,
        when 0 <= jumps <= MAX_JUMPS as int
{
    if !(0 <= pos < buf.len()) {
        NameRead::OutOfBounds
    } else {
        let len = buf[pos];
        if len >= 192 {
            if jumps >= MAX_JUMPS as int {
                NameRead::TooManyJumps
            } else if pos + 2 > buf.len() {
                NameRead::OutOfBounds
            } else {
                let target: int = (len - 192) * 256 + buf[pos + 1];
                match parse_name_at(buf, target, jumps + 1) {
                    NameRead::Done { name, end: _ } => NameRead::Done { name, end: pos + 2 },
                    e => e,
                }
            }
        } else if len == 0 {
            NameRead::Done { name: seq![], end: pos + 1 }
        } else if pos + 1 + len > buf.len() {
            NameRead::OutOfBounds
        } else {
            let label = lower_bytes(buf.subrange(pos + 1, pos + 1 + len));
            match parse_name_at(buf, pos + 1 + len, jumps) {
                NameRead::Done { name, end } => NameRead::Done {
                    name: join_name(label, name),
                    end,
                },
                e => e,
            }
        }
    }
}

pub proof fn lemma_lower_bytes_append(a: Seq<u8>, b: Seq<u8>)
    ensures
        lower_bytes(a + b) == lower_bytes(a) + lower_bytes(b),
{
    assert(lower_bytes(a + b) =~= lower_bytes(a) + lower_bytes(b));
}

/// A list of nonempty labels joins to a nonempty name.
pub proof fn lemma_name_of_labels_nonempty(ls: Seq<Seq<u8>>)
    requires
        ls.len() >= 1,
        ls[0].len() >= 1,
    ensures
        name_of_labels(ls).len() >= 1,
{
}

/// Splitting a name on dots and joining the parts again gives the name
/// back.
pub proof fn lemma_name_of_labels_of(n: Seq<u8>)
    ensures
        name_of_labels(labels_of(n)) == n,
    decreases n.len(),
{
    lemma_first_dot_bounds(n);
    let fd = first_dot(n);
    if fd == n.len() {
    } else {
        lemma_name_of_labels_of(n.skip(fd + 1));
        let rest = labels_of(n.skip(fd + 1));
        assert(rest.len() >= 1);
        let ls = seq![n.take(fd)] + rest;
        assert(ls.len() >= 2);
        assert(ls[0] == n.take(fd));
        assert(ls.drop_first() =~= rest);
        assert(name_of_labels(ls) == n.take(fd) + seq![46u8] + n.skip(fd + 1));
        assert(n.take(fd) + seq![46u8] + n.skip(fd + 1) =~= n);
    }
}

/// The lower-cased name a label list decodes to.
pub open spec fn lowered_name_of(ls: Seq<Seq<u8>>) -> Seq<u8> {
    lower_bytes(name_of_labels(ls))
}

/// A label list written as length-prefixed labels at `p` reads back as
/// its lower-cased dotted join, with the cursor just past the
/// terminator, whatever jump budget is already spent.
pub proof fn lemma_labels_read_back(buf: Seq<u8>, p: int, ls: Seq<Seq<u8>>, j: int)
    requires
        forall|i: int| 0 <= i < ls.len() ==> 1 <= (#[trigger] ls[i]).len() <= 63,
        0 <= p,
        p + encode_labels(ls).len() <= buf.len(),
        buf.subrange(p, p + encode_labels(ls).len()) == encode_labels(ls),
        0 <= j <= MAX_JUMPS as int,
    ensures
        parse_name_at(buf, p, j) == (NameRead::Done {
            name: lowered_name_of(ls),
            end: p + encode_labels(ls).len(),
        }),
    decreases ls.len(),
{
    let enc = encode_labels(ls);
    let le = enc.len() as int;
    if ls.len() == 0 {
        assert(buf[p] == enc[0]);
        assert(lowered_name_of(ls) =~= Seq::<u8>::empty());
    } else {
        let l0 = ls[0];
        let rest = ls.drop_first();
        let enc_rest = encode_labels(rest);
        assert(enc == seq![l0.len() as u8] + l0 + enc_rest);
        assert(buf[p] == enc[0]);
        assert(enc[0] == l0.len() as u8);
        let p2 = p + 1 + l0.len();
        assert(buf.subrange(p + 1, p2) =~= l0) by {
            assert forall|k: int| 0 <= k < l0.len() implies buf.subrange(p + 1, p2)[k] == l0[k]
            by {
                assert(buf[p + 1 + k] == enc[1 + k]);
                assert(enc[1 + k] == l0[k]);
            }
        }
        assert(buf.subrange(p2, p + le) =~= enc_rest) by {
            assert forall|k: int| 0 <= k < enc_rest.len() implies buf.subrange(p2, p + le)[k]
                == enc_rest[k] by {
                assert(buf[p2 + k] == enc[1 + l0.len() + k]);
                assert(enc[1 + l0.len() + k] == enc_rest[k]);
            }
        }
        lemma_labels_read_back(buf, p2, rest, j);
        // The parsed tail joins onto this label as the dotted form does.
        assert(lower_bytes(buf.subrange(p + 1, p2)) == lower_bytes(l0));
        if rest.len() == 0 {
            assert(name_of_labels(ls) == l0);
            assert(join_name(lower_bytes(l0), lowered_name_of(rest)) == lower_bytes(l0));
        } else {
            assert(name_of_labels(ls) == l0 + seq![46u8] + name_of_labels(rest));
            lemma_name_of_labels_nonempty(rest);
            lemma_lower_bytes_append(l0 + seq![46u8], name_of_labels(rest));
            lemma_lower_bytes_append(l0, seq![46u8]);
            assert(lower_bytes(seq![46u8]) =~= seq![46u8]);
            assert((l0 + seq![46u8]) + name_of_labels(rest) =~= name_of_labels(ls));
            assert(lowered_name_of(ls) =~= lower_bytes(l0) + seq![46u8] + lowered_name_of(rest));
        }
    }
}

/// Decoding an encoded valid name gives the name back, lower-cased,
/// with the cursor just past its terminating zero octet.
pub proof fn lemma_name_round_trip(buf: Seq<u8>, p: int, n: Seq<u8>)
    requires
        valid_name(n),
        0 <= p,
        p + encode_name(n).len() <= buf.len(),
        buf.subrange(p, p + encode_name(n).len()) == encode_name(n),
    ensures
        parse_name_at(buf, p, 0) == (NameRead::Done {
            name: lower_bytes(n),
            end: p + encode_name(n).len(),
        }),
{
    lemma_labels_read_back(buf, p, labels_of(n), 0);
    lemma_name_of_labels_of(n);
}

/// There is a compression pointer at `p`: a length octet with both
/// high bits set, with its offset octet still in bounds.
pub open spec fn is_pointer_at(buf: Seq<u8>, p: int) -> bool {
    0 <= p && p + 2 <= buf.len() && buf[p] >= 192
}

/// The offset a pointer at `p` designates.
pub open spec fn ptr_target(buf: Seq<u8>, p: int) -> int {
    (buf[p] - 192) * 256 + buf[p + 1]
}

/// A name that starts with a compression pointer to an encoded valid
/// name decodes to that (lower-cased) name, and the cursor ends just
/// past the two pointer bytes, not at the pointed-to location.
pub proof fn lemma_pointer_round_trip(buf: Seq<u8>, p: int, n: Seq<u8>)
    requires
        is_pointer_at(buf, p),
        valid_name(n),
        ptr_target(buf, p) + encode_name(n).len() <= buf.len(),
        buf.subrange(ptr_target(buf, p), ptr_target(buf, p) + encode_name(n).len())
            == encode_name(n),
    ensures
        parse_name_at(buf, p, 0) == (NameRead::Done { name: lower_bytes(n), end: p + 2 }),
{
    lemma_labels_read_back(buf, ptr_target(buf, p), labels_of(n), 1);
    lemma_name_of_labels_of(n);
}

/// A chain of pointers, each designating the next, longer than the
/// remaining jump budget fails with too many jumps.
pub proof fn lemma_jump_chain_fails(buf: Seq<u8>, ps: Seq<int>, j: int)
    requires
        ps.len() >= 1,
        forall|i: int| 0 <= i < ps.len() ==> is_pointer_at(buf, #[trigger] ps[i]),
        forall|i: int|
            0 <= i < ps.len() - 1 ==> ptr_target(buf, #[trigger] ps[i]) == ps[i + 1],
        0 <= j <= MAX_JUMPS as int,
        j + ps.len() > MAX_JUMPS as int,
    ensures
        parse_name_at(buf, ps[0], j) is TooManyJumps,
    decreases ps.len(),
{
    if j < MAX_JUMPS as int {
        assert(ps.len() >= 2);
        let rest = ps.drop_first();
        assert forall|i: int| 0 <= i < rest.len() implies is_pointer_at(buf, #[trigger] rest[i])
        by {
            assert(rest[i] == ps[i + 1]);
        }
        assert forall|i: int|
            0 <= i < rest.len() - 1 implies ptr_target(buf, #[trigger] rest[i]) == rest[i + 1]
        by {
            assert(rest[i] == ps[i + 1]);
            assert(rest[i + 1] == ps[i + 2]);
        }
        lemma_jump_chain_fails(buf, rest, j + 1);
        assert(ptr_target(buf, ps[0]) == ps[1]);
        assert(rest[0] == ps[1]);
    }
}

/// A chain of pointers that fits the jump budget, ending at an encoded
/// valid name, decodes to that name; the cursor ends just past the
/// first pointer.
pub proof fn lemma_jump_chain_reads_back(buf: Seq<u8>, ps: Seq<int>, n: Seq<u8>, j: int)
    requires
        ps.len() >= 1,
        forall|i: int| 0 <= i < ps.len() ==> is_pointer_at(buf, #[trigger] ps[i]),
        forall|i: int|
            0 <= i < ps.len() - 1 ==> ptr_target(buf, #[trigger] ps[i]) == ps[i + 1],
        valid_name(n),
        ptr_target(buf, ps.last()) + encode_name(n).len() <= buf.len(),
        buf.subrange(
            ptr_target(buf, ps.last()),
            ptr_target(buf, ps.last()) + encode_name(n).len(),
        ) == encode_name(n),
        0 <= j,
        j + ps.len() <= MAX_JUMPS as int,
    ensures
        parse_name_at(buf, ps[0], j) == (NameRead::Done { name: lower_bytes(n), end: ps[0] + 2 }),
    decreases ps.len(),
{
    if ps.len() == 1 {
        lemma_labels_read_back(buf, ptr_target(buf, ps[0]), labels_of(n), j + 1);
        lemma_name_of_labels_of(n);
    } else {
        let rest = ps.drop_first();
        assert forall|i: int| 0 <= i < rest.len() implies is_pointer_at(buf, #[trigger] rest[i])
        by {
            assert(rest[i] == ps[i + 1]);
        }
        assert forall|i: int|
            0 <= i < rest.len() - 1 implies ptr_target(buf, #[trigger] rest[i]) == rest[i + 1]
        by {
            assert(rest[i] == ps[i + 1]);
            assert(rest[i + 1] == ps[i + 2]);
        }
        assert(rest.last() == ps.last());
        lemma_jump_chain_reads_back(buf, rest, n, j + 1);
        assert(ptr_target(buf, ps[0]) == ps[1]);
        assert(rest[0] == ps[1]);
    }
}

} // verus!

