//! The ClientHello and the structures it is assembled from.

use vstd::prelude::*;
use vstd::slice::slice_to_vec;
use crate::tls::codec::{be2, BufReader, Codec};
use crate::tls::crypto::create_random_u8_32;
use crate::tls::errors::{DecodeError, TlsResult};

verus! {

/// The fixed 32 bytes used as the hello's random field when no
/// randomness is wanted.
pub open spec fn fixed_random_bytes() -> Seq<u8> {
    seq![
        0x00u8, 0x01u8, 0x02u8, 0x03u8, 0x04u8, 0x05u8, 0x06u8, 0x07u8, 0x08u8, 0x09u8, 0x0Au8,
        0x0Bu8, 0x0Cu8, 0x0Du8, 0x0Eu8, 0x0Fu8, 0x10u8, 0x11u8, 0x12u8, 0x13u8, 0x14u8, 0x15u8,
        0x16u8, 0x17u8, 0x18u8, 0x19u8, 0x1Au8, 0x1Bu8, 0x1Cu8, 0x1Du8, 0x1Eu8, 0x1Fu8,
    ]
}

/// The fixed 32 bytes used as a session id when one is wanted.
pub open spec fn fixed_session_bytes() -> Seq<u8> {
    seq![
        0xE0u8, 0xE1u8, 0xE2u8, 0xE3u8, 0xE4u8, 0xE5u8, 0xE6u8, 0xE7u8, 0xE8u8, 0xE9u8, 0xEAu8,
        0xEBu8, 0xECu8, 0xEDu8, 0xEEu8, 0xEFu8, 0xF0u8, 0xF1u8, 0xF2u8, 0xF3u8, 0xF4u8, 0xF5u8,
        0xF6u8, 0xF7u8, 0xF8u8, 0xF9u8, 0xFAu8, 0xFBu8, 0xFCu8, 0xFDu8, 0xFEu8, 0xFFu8,
    ]
}

/// The hello's 32-byte random field.
pub struct Random {
    buf: Vec<u8>,
}

impl View for Random {
    type V = Seq<u8>;

    closed spec fn view(&self) -> Seq<u8> {
        self.buf@
    }
}

impl Random {
    pub closed spec fn wf_random(&self) -> bool {
        self.buf@.len() == 32
    }

    /// The fixed value; randomness is not wanted while testing
    /// against known captures.
    pub fn new() -> (r: Random)
        ensures
            r.wf_random(),
            r@ == fixed_random_bytes(),
    {
        Random::fixed()
    }

    /// Thirty-two time-seeded bytes.
    pub fn new_random() -> (r: Random)
        ensures
            r.wf_random(),
    {
        Random { buf: create_random_u8_32() }
    }

    /// The given bytes, zero-padded to 32.
    pub fn from_slice(v: &[u8]) -> (r: Random)
        requires
            v@.len() <= 32,
        ensures
            r.wf_random(),
            r@.subrange(0, v@.len() as int) == v@,
            forall|i: int| v@.len() <= i < 32 ==> r@[i] == 0,
    {
        let mut buf: Vec<u8> = Vec::new();
        let mut i: usize = 0;
        while i < 32
            invariant
                0 <= i <= 32,
                v@.len() <= 32,
                buf@.len() == i,
                forall|k: int| 0 <= k < i && k < v@.len() ==> buf@[k] == v@[k],
                forall|k: int| v@.len() <= k < i ==> buf@[k] == 0,
            decreases 32 - i,
        {
            if i < v.len() {
                buf.push(v[i]);
            } else {
                buf.push(0);
            }
            i = i + 1;
        }
        let r = Random { buf };
        proof {
            assert(r@.subrange(0, v@.len() as int) =~= v@);
        }
        r
    }

    pub fn fixed() -> (r: Random)
        ensures
            r.wf_random(),
            r@ == fixed_random_bytes(),
    {
        let buf: Vec<u8> = vec![
            0x00, 0x01, 0x02, 0x03, 0x04, 0x05, 0x06, 0x07, 0x08, 0x09, 0x0A, 0x0B, 0x0C, 0x0D,
            0x0E, 0x0F, 0x10, 0x11, 0x12, 0x13, 0x14, 0x15, 0x16, 0x17, 0x18, 0x19, 0x1A, 0x1B,
            0x1C, 0x1D, 0x1E, 0x1F,
        ];
        let r = Random { buf };
        proof {
            assert(r@ =~= fixed_random_bytes());
        }
        r
    }
}

impl Codec for Random {
    open spec fn wf(&self) -> bool {
        self.wf_random()
    }

    closed spec fn enc(&self) -> Seq<u8> {
        self.buf@
    }

    open spec fn dec(s: Seq<u8>) -> Option<(Seq<u8>, int)> {
        if s.len() >= 32 {
            Some((s.subrange(0, 32), 32))
        } else {
            None
        }
    }

    fn encode(&self, buf: &mut Vec<u8>) {
        buf.extend_from_slice(self.buf.as_slice());
        proof {
            assert(buf@ =~= old(buf)@ + self.buf@);
        }
    }

    fn decode(r: &mut BufReader<'_>) -> (res: TlsResult<Self, DecodeError>) {
        match r.take(32) {
            Some(bytes) => {
                let v = Random::from_slice(bytes);
                proof {
                    assert(v@ =~= bytes@);
                }
                Ok(v)
            },
            None => Err(DecodeError::InvalidMessage("missing Random".to_owned())),
        }
    }
}

/// The hello's variable-length session id: up to 32 bytes and their
/// count.
pub struct SessionId {
    data: Vec<u8>,
    size: usize,
}

impl View for SessionId {
    type V = Seq<u8>;

    closed spec fn view(&self) -> Seq<u8> {
        self.data@.take(self.size as int)
    }
}

impl SessionId {
    pub closed spec fn wf_session(&self) -> bool {
        self.size <= 32 && self.data@.len() == 32
    }

    /// A full-length, time-seeded id.
    pub fn random() -> (r: SessionId)
        ensures
            r.wf_session(),
            r@.len() == 32,
    {
        SessionId { data: create_random_u8_32(), size: 32 }
    }

    /// The fixed full-length id.
    pub fn fixed() -> (r: SessionId)
        ensures
            r.wf_session(),
            r@ == fixed_session_bytes(),
    {
        let data: Vec<u8> = vec![
            0xE0, 0xE1, 0xE2, 0xE3, 0xE4, 0xE5, 0xE6, 0xE7, 0xE8, 0xE9, 0xEA, 0xEB, 0xEC, 0xED,
            0xEE, 0xEF, 0xF0, 0xF1, 0xF2, 0xF3, 0xF4, 0xF5, 0xF6, 0xF7, 0xF8, 0xF9, 0xFA, 0xFB,
            0xFC, 0xFD, 0xFE, 0xFF,
        ];
        let r = SessionId { data, size: 32 };
        proof {
            assert(r@ =~= fixed_session_bytes());
        }
        r
    }

    /// The first `size` bytes of `buf` as an id.
    pub fn from_slice(buf: &[u8], size: usize) -> (r: SessionId)
        requires
            size <= 32,
            buf@.len() >= size,
        ensures
            r.wf_session(),
            r@ == buf@.take(size as int),
    {
        let mut data: Vec<u8> = Vec::new();
        let mut i: usize = 0;
        while i < 32
            invariant
                0 <= i <= 32,
                size <= 32,
                buf@.len() >= size,
                data@.len() == i,
                forall|k: int| 0 <= k < i && k < size ==> data@[k] == buf@[k],
            decreases 32 - i,
        {
            if i < size {
                data.push(buf[i]);
            } else {
                data.push(0);
            }
            i = i + 1;
        }
        let r = SessionId { data, size };
        proof {
            assert(r@ =~= buf@.take(size as int));
        }
        r
    }
}

impl Codec for SessionId {
    open spec fn wf(&self) -> bool {
        self.wf_session()
    }

    closed spec fn enc(&self) -> Seq<u8> {
        seq![self.size as u8] + self.data@.take(self.size as int)
    }

    open spec fn dec(s: Seq<u8>) -> Option<(Seq<u8>, int)> {
        if s.len() >= 1 {
            let n = s[0] as int;
            if n > 32 {
                None
            } else if s.len() >= 1 + n {
                Some((s.subrange(1, 1 + n), 1 + n))
            } else {
                None
            }
        } else {
            None
        }
    }

    fn encode(&self, buf: &mut Vec<u8>) {
        let ghost b0 = buf@;
        buf.push(self.size as u8);
        let mut i: usize = 0;
        while i < self.size
            invariant
                0 <= i <= self.size,
                self.wf_session(),
                buf@ == b0 + seq![self.size as u8] + self.data@.take(i as int),
            decreases self.size - i,
        {
            buf.push(self.data[i]);
            proof {
                assert(b0 + seq![self.size as u8] + self.data@.take(i + 1) =~= (b0 + seq![
                    self.size as u8,
                ] + self.data@.take(i as int)).push(self.data@[i as int]));
            }
            i = i + 1;
        }
        proof {
            assert(buf@ =~= b0 + (seq![self.size as u8] + self.data@.take(self.size as int)));
        }
    }

    fn decode(r: &mut BufReader<'_>) -> (res: TlsResult<Self, DecodeError>) {
        let ghost s = old(r).data().skip(old(r).position());
        let size_byte = match r.take(1) {
            Some(x) => x[0],
            None => {
                return Err(DecodeError::InvalidMessage("missing size of SessionId".to_owned()));
            },
        };
        if size_byte > 32 {
            return Err(DecodeError::InvalidMessage("session size exceed 32 bytes".to_owned()));
        }
        let size = size_byte as usize;
        match r.take(size) {
            Some(data) => {
                let v = SessionId::from_slice(data, size);
                proof {
                    assert(s[0] == size_byte);
                    assert(data@.take(size as int) =~= data@);
                    assert(data@ =~= s.subrange(1, 1 + size as int));
                }
                Ok(v)
            },
            None => Err(DecodeError::InvalidMessage("missing session data".to_owned())),
        }
    }
}

/// The bytes of the server-name extension: its id, the payload and
/// list-entry sizes, the host-name entry type, and the name itself.
pub open spec fn ext_server_name_bytes(host: Seq<u8>) -> Seq<u8> {
    seq![0u8, 0u8] + be2((host.len() + 5) as u16) + be2((host.len() + 3) as u16) + seq![0u8] + be2(
        host.len() as u16,
    ) + host
}

/// The server-name (SNI) extension: which host the hello is for.
pub struct ExtServerName {
    host: Vec<u8>,
}

impl View for ExtServerName {
    type V = Seq<u8>;

    closed spec fn view(&self) -> Seq<u8> {
        self.host@
    }
}

impl ExtServerName {
    pub fn from_host(host: Vec<u8>) -> (r: ExtServerName)
        ensures
            r@ == host@,
    {
        ExtServerName { host }
    }
}

impl Codec for ExtServerName {
    closed spec fn wf(&self) -> bool {
        self.host@.len() + 5 <= 0xFFFF
    }

    closed spec fn enc(&self) -> Seq<u8> {
        ext_server_name_bytes(self.host@)
    }

    open spec fn dec(s: Seq<u8>) -> Option<(Seq<u8>, int)> {
        if s.len() >= 2 {
            let n = s[0] * 256 + s[1];
            if s.len() >= 2 + n {
                Some((s.subrange(2, 2 + n), 2 + n))
            } else {
                None
            }
        } else {
            None
        }
    }

    fn encode(&self, buf: &mut Vec<u8>) {
        let ghost b0 = buf@;
        buf.push(0x00);
        buf.push(0x00);
        let host_len = self.host.len() as u16;
        let the_list_entry_len = host_len + 3;
        let the_ext_payload_len = the_list_entry_len + 2;
        buf.push((the_ext_payload_len / 256) as u8);
        buf.push((the_ext_payload_len % 256) as u8);
        buf.push((the_list_entry_len / 256) as u8);
        buf.push((the_list_entry_len % 256) as u8);
        buf.push(0x00);
        buf.push((host_len / 256) as u8);
        buf.push((host_len % 256) as u8);
        buf.extend_from_slice(self.host.as_slice());
        proof {
            assert(buf@ =~= b0 + ext_server_name_bytes(self.host@));
        }
    }

    fn decode(r: &mut BufReader<'_>) -> (res: TlsResult<Self, DecodeError>) {
        let ghost s = old(r).data().skip(old(r).position());
        let size = match r.take(2) {
            Some(x) => (x[0] as usize) * 256 + (x[1] as usize),
            None => {
                return Err(DecodeError::InvalidMessage("missing ext.ServerName size".to_owned()));
            },
        };
        match r.take(size) {
            Some(chunk) => {
                let v = ExtServerName { host: slice_to_vec(chunk) };
                proof {
                    let dat = old(r).data();
                    let p = old(r).position();
                    assert(s[0] == dat[p] && s[1] == dat[p + 1]);
                    assert(dat.subrange(p, p + 2)[0] == dat[p]);
                    assert(dat.subrange(p, p + 2)[1] == dat[p + 1]);
                    assert(chunk@ =~= s.subrange(2, 2 + size as int));
                }
                Ok(v)
            },
            None => Err(DecodeError::InvalidMessage("missing ext.ServerName chunk".to_owned())),
        }
    }
}

/// Zero-pad a byte sequence to 32 bytes.
pub open spec fn pad32(s: Seq<u8>) -> Seq<u8> {
    s + Seq::new((32 - s.len()) as nat, |i: int| 0u8)
}

/// The bytes of the key-share extension for a 32-byte X25519 key.
pub open spec fn ext_key_share_bytes(alg: u16, key: Seq<u8>) -> Seq<u8> {
    seq![0u8, 0x33u8, 0u8, 0x26u8, 0u8, 0x24u8] + be2(alg) + seq![0u8, 0x20u8] + key
}

/// The key-share extension: the group and our 32-byte public key.
pub struct ExtKeyShare {
    alg: u16,
    key: Vec<u8>,
}

impl View for ExtKeyShare {
    type V = (u16, Seq<u8>);

    closed spec fn view(&self) -> (u16, Seq<u8>) {
        (self.alg, self.key@)
    }
}

impl ExtKeyShare {
    /// A share for Curve25519 with the fixed key bytes.
    pub fn new() -> (r: ExtKeyShare)
        ensures
            r.wf(),
            r@ == (0x001du16, fixed_random_bytes()),
    {
        ExtKeyShare { alg: 0x001d, key: Random::new().buf }
    }
}

impl Codec for ExtKeyShare {
    closed spec fn wf(&self) -> bool {
        self.key@.len() == 32
    }

    closed spec fn enc(&self) -> Seq<u8> {
        ext_key_share_bytes(self.alg, self.key@)
    }

    open spec fn dec(s: Seq<u8>) -> Option<((u16, Seq<u8>), int)> {
        if s.len() < 2 {
            None
        } else {
            let n = s[0] * 256 + s[1];
            if s.len() < 2 + n {
                None
            } else {
                let inner = s.subrange(2, 2 + n);
                if inner.len() < 4 {
                    None
                } else {
                    let k = inner[0] * 256 + inner[1];
                    if k < 2 {
                        None
                    } else {
                        let keylen = k - 2;
                        let alg = (inner[2] * 256 + inner[3]) as u16;
                        if keylen > 32 || 4 + keylen > inner.len() {
                            None
                        } else {
                            Some(((alg, pad32(inner.subrange(4, 4 + keylen))), 2 + n))
                        }
                    }
                }
            }
        }
    }

    fn encode(&self, buf: &mut Vec<u8>) {
        let ghost b0 = buf@;
        buf.push(0x00);
        buf.push(0x33);
        buf.push(0x00);
        buf.push(0x26);
        buf.push(0x00);
        buf.push(0x24);
        buf.push((self.alg / 256) as u8);
        buf.push((self.alg % 256) as u8);
        buf.push(0x00);
        buf.push(0x20);
        buf.extend_from_slice(self.key.as_slice());
        proof {
            assert(buf@ =~= b0 + ext_key_share_bytes(self.alg, self.key@));
        }
    }

    fn decode(r: &mut BufReader<'_>) -> (res: TlsResult<Self, DecodeError>) {
        let ghost s = old(r).data().skip(old(r).position());
        let size = match r.take(2) {
            Some(x) => (x[0] as usize) * 256 + (x[1] as usize),
            None => {
                return Err(DecodeError::InvalidMessage("missing ExtKeyShare".to_owned()));
            },
        };
        let mut data = match r.sub(size) {
            Ok(d) => d,
            Err(_) => {
                return Err(DecodeError::InvalidMessage("missing ExtKeyShare".to_owned()));
            },
        };
        proof {
            assert(data.data() =~= s.subrange(2, 2 + size as int));
        }
        let k = match data.take(2) {
            Some(x) => (x[0] as usize) * 256 + (x[1] as usize),
            None => {
                return Err(DecodeError::InvalidMessage("missing ExtKeyShare size".to_owned()));
            },
        };
        if k < 2 {
            return Err(DecodeError::InvalidMessage("short ExtKeyShare size".to_owned()));
        }
        let keylen = k - 2;
        let alg = match data.take(2) {
            Some(x) => (x[0] as u16) * 256 + (x[1] as u16),
            None => {
                return Err(DecodeError::InvalidMessage("missing ExtKeyShare alg".to_owned()));
            },
        };
        if keylen > 32 {
            return Err(DecodeError::InvalidMessage("oversized ExtKeyShare key".to_owned()));
        }
        let key_org = match data.take(keylen) {
            Some(x) => x,
            None => {
                return Err(DecodeError::InvalidMessage("missing ExtKeyShare key".to_owned()));
            },
        };
        let rnd = Random::from_slice(key_org);
        let v = ExtKeyShare { alg, key: rnd.buf };
        proof {
            let inner = s.subrange(2, 2 + size as int);
            assert(key_org@ =~= inner.subrange(4, 4 + keylen as int));
            assert(v.key@ =~= pad32(inner.subrange(4, 4 + keylen as int)));
        }
        Ok(v)
    }
}

/// The cipher-suite block the hello offers.
pub open spec fn cipher_suite_block() -> Seq<u8> {
    seq![0x00u8, 0x08u8, 0x13u8, 0x02u8, 0x13u8, 0x03u8, 0x13u8, 0x01u8, 0x00u8, 0xffu8]
}

/// The handshake body of the hello: version, random, empty session
/// id, cipher suites, null compression, then the extensions preceded
/// by their length.
pub open spec fn client_hello_body(host: Seq<u8>) -> Seq<u8> {
    be2(0x0303) + fixed_random_bytes() + seq![0u8] + cipher_suite_block() + seq![0x01u8, 0x00u8]
        + be2(ext_server_name_bytes(host).len() as u16) + ext_server_name_bytes(host)
}

/// The whole record: record type, version, total size, handshake
/// header, body size, body.
pub open spec fn client_hello_bytes(host: Seq<u8>) -> Seq<u8> {
    let body = client_hello_body(host);
    seq![0x16u8] + be2(0x0303) + be2((body.len() + 4) as u16) + seq![0x01u8, 0x00u8] + be2(
        body.len() as u16,
    ) + body
}

/// Build a ClientHello record offering `host` by server name. The
/// peer key is not placed in the message: the key-share extension is
/// left out of this simplified hello.
pub fn create_client_hello(host: Vec<u8>, pub_key: &[u8]) -> (r: Vec<u8>)
    requires
        host@.len() <= 65473,
    ensures
        r@ == client_hello_bytes(host@),
{
    let ghost hostv = host@;
    let mut b: Vec<u8> = Vec::new();
    // version
    b.push(0x03);
    b.push(0x03);
    // random
    let rnd = Random::new();
    rnd.encode(&mut b);
    // empty session id
    b.push(0x00);
    // cipher suites
    b.push(0x00);
    b.push(0x08);
    b.push(0x13);
    b.push(0x02);
    b.push(0x13);
    b.push(0x03);
    b.push(0x13);
    b.push(0x01);
    b.push(0x00);
    b.push(0xff);
    // compression: one method, null
    b.push(0x01);
    b.push(0x00);
    // extensions
    let ext_buf = create_client_hello_ext(host, pub_key);
    let el = ext_buf.len() as u16;
    b.push((el / 256) as u8);
    b.push((el % 256) as u8);
    b.extend_from_slice(ext_buf.as_slice());
    proof {
        assert(b@ =~= client_hello_body(hostv));
    }

    let pyl_size = b.len() as u16;
    let mut buf: Vec<u8> = Vec::new();
    buf.push(0x16);
    buf.push(0x03);
    buf.push(0x03);
    let total = pyl_size + 4;
    buf.push((total / 256) as u8);
    buf.push((total % 256) as u8);
    buf.push(0x01);
    buf.push(0x00);
    buf.push((pyl_size / 256) as u8);
    buf.push((pyl_size % 256) as u8);
    buf.extend_from_slice(b.as_slice());
    proof {
        assert(buf@ =~= client_hello_bytes(hostv));
    }
    buf
}

/// The extension block of the hello: the server-name extension alone.
fn create_client_hello_ext(host: Vec<u8>, _pub_key: &[u8]) -> (r: Vec<u8>)
    requires
        host@.len() + 5 <= 0xFFFF,
    ensures
        r@ == ext_server_name_bytes(host@),
{
    let ghost hostv = host@;
    let mut buf: Vec<u8> = Vec::new();
    ExtServerName::from_host(host).encode(&mut buf);
    proof {
        assert(buf@ =~= ext_server_name_bytes(hostv));
    }
    buf
}

/// Decoding an encoded random field gives its bytes back and
/// consumes exactly thirty-two, whatever follows.
pub proof fn lemma_random_codec_round_trip(v: Random, rest: Seq<u8>)
    requires
        v.wf(),
    ensures
        <Random as Codec>::dec(v.enc() + rest) == Some((v@, 32int)),
{
    let s = v.enc() + rest;
    assert(s.subrange(0, 32) =~= v@);
}

/// Decoding an encoded session id gives its bytes back and consumes
/// the length octet plus the id, whatever follows.
pub proof fn lemma_session_id_codec_round_trip(v: SessionId, rest: Seq<u8>)
    requires
        v.wf(),
    ensures
        <SessionId as Codec>::dec(v.enc() + rest) == Some((v@, 1 + v@.len() as int)),
{
    let s = v.enc() + rest;
    assert(s[0] == v.size as u8);
    assert(s.subrange(1, 1 + v.size as int) =~= v@);
}

/// Append one raw extension: id, payload length, payload.
fn add_extension(id: u16, v: &[u8], buf: &mut Vec<u8>)
    requires
        v@.len() <= 0xFFFF,
    ensures
        final(buf)@ == old(buf)@ + be2(id) + be2(v@.len() as u16) + v@,
{
    let ghost b0 = buf@;
    let len = v.len() as u16;
    buf.push((id / 256) as u8);
    buf.push((id % 256) as u8);
    buf.push((len / 256) as u8);
    buf.push((len % 256) as u8);
    buf.extend_from_slice(v);
    proof {
        assert(buf@ =~= ((b0 + be2(id)) + be2(v@.len() as u16)) + v@);
    }
}

} // verus!
