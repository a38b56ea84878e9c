//! The announcement that every server multicasts: version 1 of the wire format.
//!
//! Layout (all integers big-endian):
//! unique id (16 bytes), version (u16), then three text fields each written as
//! a u16 byte length followed by its UTF-8 bytes (system name, platform,
//! system version), keepalive timer (u16), uptime in seconds (u32), and the
//! three load averages in hundredths (u16 each).

use vstd::prelude::*;
use vstd::slice::slice_subrange;
use vstd::utf8::{decode_utf8, encode_utf8, valid_utf8};

verus! {

/// The error that `uuid::Uuid::from_slice` returns.
#[verifier::external_type_specification]
#[verifier::external_body]
pub struct ExUuidError(uuid::Error);

/// An announcement of one server: who it is, what it runs and how busy it is.
/// The load averages are held in hundredths, as they travel on the wire.
#[derive(Debug, Clone)]
pub struct MessageV1 {
    pub version: u16,
    pub unique_id: [u8; 16],
    pub system_name: String,
    pub system_platform: String,
    pub system_version: String,
    pub keepalive_timer: u16,
    pub uptime: u32,
    pub load: [u16; 3],
}

/// The mathematical content of a [`MessageV1`].
#[verifier::ext_equal]
pub struct MessageV1View {
    pub version: u16,
    pub unique_id: Seq<u8>,
    pub system_name: Seq<char>,
    pub system_platform: Seq<char>,
    pub system_version: Seq<char>,
    pub keepalive_timer: u16,
    pub uptime: u32,
    pub load: Seq<u16>,
}

impl View for MessageV1 {
    type V = MessageV1View;

    open spec fn view(&self) -> MessageV1View {
        MessageV1View {
            version: self.version,
            unique_id: self.unique_id@,
            system_name: self.system_name@,
            system_platform: self.system_platform@,
            system_version: self.system_version@,
            keepalive_timer: self.keepalive_timer,
            uptime: self.uptime,
            load: self.load@,
        }
    }
}

impl MessageV1View {
    /// The shape that every executable message has: a 16-byte id, three loads.
    pub open spec fn wf(self) -> bool {
        self.unique_id.len() == 16 && self.load.len() == 3
    }

    /// Every text field fits the u16 length prefix.
    pub open spec fn texts_fit(self) -> bool {
        &&& encode_utf8(self.system_name).len() < 0x10000
        &&& encode_utf8(self.system_platform).len() < 0x10000
        &&& encode_utf8(self.system_version).len() < 0x10000
    }
}

/// Two big-endian bytes of `v` (taken modulo 2^16).
#[verifier::opaque]
pub open spec fn be16(v: nat) -> Seq<u8> {
    seq![((v / 256) % 256) as u8, (v % 256) as u8]
}

/// Four big-endian bytes of `v` (taken modulo 2^32).
#[verifier::opaque]
pub open spec fn be32(v: nat) -> Seq<u8> {
    be16((v / 0x10000) % 0x10000) + be16(v % 0x10000)
}

/// A text field: the byte length of its UTF-8 encoding, cut to 16 bits, then
/// the encoding itself.
pub open spec fn text_field(t: Seq<char>) -> Seq<u8> {
    be16(encode_utf8(t).len() % 0x10000) + encode_utf8(t)
}

/// The bytes of a message on the wire.
#[verifier::opaque]
pub open spec fn encode(m: MessageV1View) -> Seq<u8> {
    m.unique_id + be16(m.version as nat) + text_field(m.system_name) + text_field(
        m.system_platform,
    ) + text_field(m.system_version) + be16(m.keepalive_timer as nat) + be32(m.uptime as nat)
        + be16(m.load[0] as nat) + be16(m.load[1] as nat) + be16(m.load[2] as nat)
}

/// The big-endian u16 at position `i`.
pub open spec fn u16_at(b: Seq<u8>, i: int) -> nat {
    b[i] as nat * 256 + b[i + 1] as nat
}

/// The big-endian u32 at position `i`.
pub open spec fn u32_at(b: Seq<u8>, i: int) -> nat {
    u16_at(b, i) * 0x10000 + u16_at(b, i + 2)
}

/// Where the platform field's length stands.
pub open spec fn platform_at(b: Seq<u8>) -> int {
    20 + u16_at(b, 18) as int
}

/// Where the system-version field's length stands.
pub open spec fn sysver_at(b: Seq<u8>) -> int {
    platform_at(b) + 2 + u16_at(b, platform_at(b))
}

/// Where the fixed-size tail (keepalive, uptime, loads) starts.
pub open spec fn tail_at(b: Seq<u8>) -> int {
    sysver_at(b) + 2 + u16_at(b, sysver_at(b))
}

/// The number of bytes a version-1 frame occupies.
pub open spec fn frame_len(b: Seq<u8>) -> int {
    tail_at(b) + 12
}

/// The frame can be read without running past the end of `b`: the header is
/// there, and for a version-1 frame every length-prefixed field and the tail.
pub open spec fn frame_complete(b: Seq<u8>) -> bool {
    &&& b.len() >= 18
    &&& u16_at(b, 16) == 1 ==> {
        &&& b.len() >= 20
        &&& b.len() >= platform_at(b) + 2
        &&& b.len() >= sysver_at(b) + 2
        &&& b.len() >= frame_len(b)
    }
}

/// What `String::from_utf8_lossy` makes of bytes that are not valid UTF-8.
pub uninterp spec fn lossy_decode(bytes: Seq<u8>) -> Seq<char>;

/// The text that `String::from_utf8_lossy` gives for `b`: the decoded
/// characters when `b` is valid UTF-8.
pub open spec fn lossy_text(b: Seq<u8>) -> Seq<char> {
    if valid_utf8(b) {
        decode_utf8(b)
    } else {
        lossy_decode(b)
    }
}

/// The message that a frame holds, or the error code: 2 for a version other
/// than 1.
pub open spec fn decode(b: Seq<u8>) -> Result<MessageV1View, u32> {
    if u16_at(b, 16) != 1 {
        Err(2)
    } else {
        let t = tail_at(b);
        Ok(
            MessageV1View {
                version: 1,
                unique_id: b.subrange(0, 16),
                system_name: lossy_text(b.subrange(20, platform_at(b))),
                system_platform: lossy_text(b.subrange(platform_at(b) + 2, sysver_at(b))),
                system_version: lossy_text(b.subrange(sysver_at(b) + 2, t)),
                keepalive_timer: u16_at(b, t) as u16,
                uptime: u32_at(b, t + 2) as u32,
                load: seq![
                    u16_at(b, t + 6) as u16,
                    u16_at(b, t + 8) as u16,
                    u16_at(b, t + 10) as u16,
                ],
            },
        )
    }
}

/// `uuid::Uuid::from_slice`, handing back the id's bytes: it fails exactly
/// when the slice is not 16 bytes long, and otherwise holds those bytes.
#[verifier::external_body]
fn uuid_from_slice(b: &[u8]) -> (r: Result<[u8; 16], uuid::Error>)
    ensures
        r is Ok <==> b@.len() == 16,
        r matches Ok(id) ==> id@ == b@,
{
    uuid::Uuid::from_slice(b).map(uuid::Uuid::into_bytes)
}

/// `String::from_utf8_lossy`: valid UTF-8 is decoded as it stands; what it
/// makes of other bytes (replacement characters) is named, not stated.
#[verifier::external_body]
fn text_from_utf8_lossy(bytes: &[u8]) -> (s: String)
    ensures
        valid_utf8(bytes@) ==> s@ == decode_utf8(bytes@),
        !valid_utf8(bytes@) ==> s@ == lossy_decode(bytes@),
{
    String::from_utf8_lossy(bytes).into_owned()
}

fn read_u16(bytes: &[u8], i: usize) -> (v: u16)
    requires
        i + 2 <= bytes@.len(),
    ensures
        v as nat == u16_at(bytes@, i as int),
{
    (bytes[i] as u16) * 256 + bytes[i + 1] as u16
}

fn read_u32(bytes: &[u8], i: usize) -> (v: u32)
    requires
        i + 4 <= bytes.len(),
    ensures
        v as nat == u32_at(bytes@, i as int),
{
    let hi = read_u16(bytes, i) as u32;
    let lo = read_u16(bytes, i + 2) as u32;
    hi * 0x10000 + lo
}

fn push_slice(v: &mut Vec<u8>, s: &[u8])
    ensures
        final(v)@ == old(v)@ + s@,
{
    let ghost start = v@;
    let mut i: usize = 0;
    while i < s.len()
        invariant
            i <= s@.len(),
            v@ == start + s@.subrange(0, i as int),
        decreases s@.len() - i,
    {
        v.push(s[i]);
        i = i + 1;
        assert(s@.subrange(0, i as int) =~= s@.subrange(0, i - 1) + seq![s@[i - 1]]);
    }
    assert(s@.subrange(0, s@.len() as int) =~= s@);
}

fn push_u16(v: &mut Vec<u8>, x: u16)
    ensures
        final(v)@ == old(v)@ + be16(x as nat),
{
    reveal(be16);
    v.push((x / 256) as u8);
    v.push((x % 256) as u8);
}

fn push_u32(v: &mut Vec<u8>, x: u32)
    ensures
        final(v)@ == old(v)@ + be32(x as nat),
{
    reveal(be32);
    let ghost start = v@;
    push_u16(v, (x / 0x10000) as u16);
    push_u16(v, (x % 0x10000) as u16);
    assert(v@ =~= start + be32(x as nat));
}

fn push_text(v: &mut Vec<u8>, t: &String)
    ensures
        final(v)@ == old(v)@ + text_field(t@),
{
    let ghost start = v@;
    let b = t.as_str().as_bytes();
    let n = b.len();
    push_u16(v, (n % 0x10000) as u16);
    push_slice(v, b);
    assert(v@ =~= start + text_field(t@));
}

impl MessageV1 {
    /// A version-1 announcement with the given contents.
    pub fn new(
        unique_id: [u8; 16],
        system_name: String,
        system_platform: String,
        system_version: String,
        keepalive_timer: u16,
        uptime: u32,
        load: [u16; 3],
    ) -> (m: Self)
        ensures
            m.version == 1,
            m.unique_id == unique_id,
            m.system_name == system_name,
            m.system_platform == system_platform,
            m.system_version == system_version,
            m.keepalive_timer == keepalive_timer,
            m.uptime == uptime,
            m.load == load,
    {
        MessageV1 {
            version: 1,
            unique_id,
            system_name,
            system_platform,
            system_version,
            keepalive_timer,
            uptime,
            load,
        }
    }

    /// The message's bytes on the wire.
    pub fn to_bytes(&self) -> (bytes: Vec<u8>)
        ensures
            bytes@ == encode(self@),
    {
        let mut bytes: Vec<u8> = Vec::new();
        push_slice(&mut bytes, self.unique_id.as_slice());
        push_u16(&mut bytes, self.version);
        push_text(&mut bytes, &self.system_name);
        push_text(&mut bytes, &self.system_platform);
        push_text(&mut bytes, &self.system_version);
        push_u16(&mut bytes, self.keepalive_timer);
        push_u32(&mut bytes, self.uptime);
        push_u16(&mut bytes, self.load[0]);
        push_u16(&mut bytes, self.load[1]);
        push_u16(&mut bytes, self.load[2]);
        proof {
            reveal(encode);
        }
        bytes
    }

    /// Whether `bytes` holds a complete frame, one that `parse` can read.
    pub fn is_complete_frame(bytes: &[u8]) -> (r: bool)
        ensures
            r == frame_complete(bytes@),
    {
        let n = bytes.len();
        if n < 18 {
            return false;
        }
        if read_u16(bytes, 16) != 1 {
            return true;
        }
        if n < 20 {
            return false;
        }
        let platform = 20 + read_u16(bytes, 18) as usize;
        if n < platform || n - platform < 2 {
            return false;
        }
        let sysver = platform + 2 + read_u16(bytes, platform) as usize;
        if n < sysver || n - sysver < 2 {
            return false;
        }
        let tail = sysver + 2 + read_u16(bytes, sysver) as usize;
        n >= tail && n - tail >= 12
    }

    /// Reads a frame: error 2 when its version is not 1, and otherwise the
    /// message it holds. Bytes after the frame are not read.
    pub fn parse(bytes: &[u8]) -> (r: Result<Self, u32>)
        requires
            frame_complete(bytes@),
        ensures
            decode(bytes@) == (match r {
                Ok(m) => Ok::<MessageV1View, u32>(m@),
                Err(e) => Err::<MessageV1View, u32>(e),
            }),
    {
        let unique_id = match uuid_from_slice(slice_subrange(bytes, 0, 16)) {
            Ok(id) => id,
            Err(_) => {
                return Err(1);
            },
        };
        let version = read_u16(bytes, 16);
        let mut offset: usize = 18;

        if version != 1 {
            return Err(2);
        }
        let system_name_len = read_u16(bytes, offset) as usize;
        offset = offset + 2;
        let system_name = text_from_utf8_lossy(
            slice_subrange(bytes, offset, offset + system_name_len),
        );
        offset = offset + system_name_len;

        let system_platform_len = read_u16(bytes, offset) as usize;
        offset = offset + 2;
        let system_platform = text_from_utf8_lossy(
            slice_subrange(bytes, offset, offset + system_platform_len),
        );
        offset = offset + system_platform_len;

        let system_version_len = read_u16(bytes, offset) as usize;
        offset = offset + 2;
        let system_version = text_from_utf8_lossy(
            slice_subrange(bytes, offset, offset + system_version_len),
        );
        offset = offset + system_version_len;

        let keepalive_timer = read_u16(bytes, offset);
        offset = offset + 2;
        let uptime = read_u32(bytes, offset);
        offset = offset + 4;
        let load = [read_u16(bytes, offset), read_u16(bytes, offset + 2), read_u16(bytes, offset + 4)];

        let m = MessageV1 {
            version,
            unique_id,
            system_name,
            system_platform,
            system_version,
            keepalive_timer,
            uptime,
            load,
        };
        assert(m@ =~= decode(bytes@)->Ok_0);
        Ok(m)
    }
}


proof fn lemma_widths(v: nat)
    ensures
        be16(v).len() == 2,
        be32(v).len() == 4,
{
    reveal(be16);
    reveal(be32);
}

/// A u16 written between `p` and `q` is read back at `p.len()`.
proof fn lemma_u16_in(p: Seq<u8>, v: nat, q: Seq<u8>)
    requires
        v < 0x10000,
    ensures
        u16_at(p + be16(v) + q, p.len() as int) == v,
{
    reveal(be16);
    let s = p + be16(v) + q;
    assert(s[p.len() as int] == be16(v)[0]);
    assert(s[p.len() as int + 1] == be16(v)[1]);
}

/// A text field written between `p` and `q`: its length is read back at
/// `p.len()`, and its bytes follow.
proof fn lemma_text_in(p: Seq<u8>, t: Seq<char>, q: Seq<u8>)
    requires
        encode_utf8(t).len() < 0x10000,
    ensures
        ({
            let s = p + text_field(t) + q;
            let n = encode_utf8(t).len();
            &&& u16_at(s, p.len() as int) == n
            &&& s.subrange(p.len() as int + 2, p.len() as int + 2 + n) == encode_utf8(t)
        }),
{
    let s = p + text_field(t) + q;
    let b = encode_utf8(t);
    lemma_widths(b.len() as nat);
    assert(s =~= p + be16(b.len() as nat) + (b + q));
    lemma_u16_in(p, b.len() as nat, b + q);
    assert(s.subrange(p.len() as int + 2, p.len() as int + 2 + b.len()) =~= b);
}

/// The fixed-size tail written after `p` is read back at `p.len()`.
proof fn lemma_tail_in(p: Seq<u8>, k: u16, u: u32, l0: u16, l1: u16, l2: u16)
    ensures
        ({
            let s = p + be16(k as nat) + be32(u as nat) + be16(l0 as nat) + be16(l1 as nat) + be16(
                l2 as nat,
            );
            let t = p.len() as int;
            &&& s.len() == t + 12
            &&& u16_at(s, t) == k
            &&& u32_at(s, t + 2) == u
            &&& u16_at(s, t + 6) == l0
            &&& u16_at(s, t + 8) == l1
            &&& u16_at(s, t + 10) == l2
        }),
{
    let s = p + be16(k as nat) + be32(u as nat) + be16(l0 as nat) + be16(l1 as nat) + be16(
        l2 as nat,
    );
    let t = p.len() as int;
    reveal(be16);
    reveal(be32);
    assert(s[t] == be16(k as nat)[0]);
    assert(s[t + 1] == be16(k as nat)[1]);
    assert(s[t + 2] == be32(u as nat)[0]);
    assert(s[t + 3] == be32(u as nat)[1]);
    assert(s[t + 4] == be32(u as nat)[2]);
    assert(s[t + 5] == be32(u as nat)[3]);
    assert(s[t + 6] == be16(l0 as nat)[0]);
    assert(s[t + 7] == be16(l0 as nat)[1]);
    assert(s[t + 8] == be16(l1 as nat)[0]);
    assert(s[t + 9] == be16(l1 as nat)[1]);
    assert(s[t + 10] == be16(l2 as nat)[0]);
    assert(s[t + 11] == be16(l2 as nat)[1]);
}

/// The reading positions of a well-formed encoding.
proof fn lemma_layout(m: MessageV1View)
    requires
        m.wf(),
        m.texts_fit(),
    ensures
        ({
            let e = encode(m);
            let n1 = encode_utf8(m.system_name);
            let n2 = encode_utf8(m.system_platform);
            let n3 = encode_utf8(m.system_version);
            let l1 = n1.len() as int;
            let l2 = n2.len() as int;
            let l3 = n3.len() as int;
            &&& e.len() == 36 + l1 + l2 + l3
            &&& u16_at(e, 16) == m.version
            &&& e.subrange(0, 16) == m.unique_id
            &&& u16_at(e, 18) == l1
            &&& e.subrange(20, 20 + l1) == n1
            &&& u16_at(e, 20 + l1) == l2
            &&& e.subrange(22 + l1, 22 + l1 + l2) == n2
            &&& u16_at(e, 22 + l1 + l2) == l3
            &&& e.subrange(24 + l1 + l2, 24 + l1 + l2 + l3) == n3
        }),
{
    reveal(encode);
    let e = encode(m);
    let id = m.unique_id;
    let tf1 = text_field(m.system_name);
    let tf2 = text_field(m.system_platform);
    let tf3 = text_field(m.system_version);
    let tail = be16(m.keepalive_timer as nat) + be32(m.uptime as nat) + be16(m.load[0] as nat)
        + be16(m.load[1] as nat) + be16(m.load[2] as nat);
    let v = be16(m.version as nat);
    lemma_widths(m.version as nat);
    lemma_widths(m.keepalive_timer as nat);
    lemma_widths(m.uptime as nat);
    lemma_widths(m.load[0] as nat);
    lemma_widths(m.load[1] as nat);
    lemma_widths(m.load[2] as nat);
    lemma_widths(encode_utf8(m.system_name).len() % 0x10000);
    lemma_widths(encode_utf8(m.system_platform).len() % 0x10000);
    lemma_widths(encode_utf8(m.system_version).len() % 0x10000);
    assert(e =~= id + v + (tf1 + tf2 + tf3 + tail));
    lemma_u16_in(id, m.version as nat, tf1 + tf2 + tf3 + tail);
    assert(e.subrange(0, 16) =~= id);
    assert(e =~= (id + v) + tf1 + (tf2 + tf3 + tail));
    lemma_text_in(id + v, m.system_name, tf2 + tf3 + tail);
    assert(e =~= (id + v + tf1) + tf2 + (tf3 + tail));
    lemma_text_in(id + v + tf1, m.system_platform, tf3 + tail);
    assert(e =~= (id + v + tf1 + tf2) + tf3 + tail);
    lemma_text_in(id + v + tf1 + tf2, m.system_version, tail);
}

/// The fixed-size tail of a well-formed encoding.
proof fn lemma_layout_tail(m: MessageV1View)
    requires
        m.wf(),
        m.texts_fit(),
    ensures
        ({
            let e = encode(m);
            let t = 24 + encode_utf8(m.system_name).len() as int + encode_utf8(m.system_platform).len()
                + encode_utf8(m.system_version).len();
            &&& e.len() == t + 12
            &&& u16_at(e, t) == m.keepalive_timer
            &&& u32_at(e, t + 2) == m.uptime
            &&& u16_at(e, t + 6) == m.load[0]
            &&& u16_at(e, t + 8) == m.load[1]
            &&& u16_at(e, t + 10) == m.load[2]
        }),
{
    reveal(encode);
    lemma_widths(m.version as nat);
    lemma_widths(encode_utf8(m.system_name).len() % 0x10000);
    lemma_widths(encode_utf8(m.system_platform).len() % 0x10000);
    lemma_widths(encode_utf8(m.system_version).len() % 0x10000);
    let p4 = m.unique_id + be16(m.version as nat) + text_field(m.system_name) + text_field(
        m.system_platform,
    ) + text_field(m.system_version);
    lemma_tail_in(p4, m.keepalive_timer, m.uptime, m.load[0], m.load[1], m.load[2]);
}

/// A message that `encode` wrote is read back by `decode`: the same message
/// when its version is 1, error 2 otherwise; the frame is complete and is
/// exactly as long as the encoding.
pub proof fn lemma_decode_encode(m: MessageV1View)
    requires
        m.wf(),
        m.texts_fit(),
    ensures
        encode(m).len() == 36 + encode_utf8(m.system_name).len() + encode_utf8(m.system_platform).len()
            + encode_utf8(m.system_version).len(),
        frame_complete(encode(m)),
        m.version == 1 ==> frame_len(encode(m)) == encode(m).len(),
        decode(encode(m)) == (if m.version == 1 {
            Ok::<MessageV1View, u32>(m)
        } else {
            Err::<MessageV1View, u32>(2)
        }),
{
    let e = encode(m);
    lemma_layout(m);
    lemma_layout_tail(m);
    if m.version == 1 {
        vstd::utf8::encode_utf8_valid_utf8(m.system_name);
        vstd::utf8::encode_utf8_valid_utf8(m.system_platform);
        vstd::utf8::encode_utf8_valid_utf8(m.system_version);
        vstd::utf8::encode_utf8_decode_utf8(m.system_name);
        vstd::utf8::encode_utf8_decode_utf8(m.system_platform);
        vstd::utf8::encode_utf8_decode_utf8(m.system_version);
        let d = decode(e)->Ok_0;
        assert(d.load =~= m.load);
        assert(d =~= m);
    }
}

proof fn lemma_same_u16(e: Seq<u8>, b: Seq<u8>, i: int)
    requires
        0 <= i,
        i + 2 <= e.len(),
        i + 2 <= b.len(),
        u16_at(e, i) == u16_at(b, i),
    ensures
        e[i] == b[i],
        e[i + 1] == b[i + 1],
{
}

proof fn lemma_same_u32(e: Seq<u8>, b: Seq<u8>, i: int)
    requires
        0 <= i,
        i + 4 <= e.len(),
        i + 4 <= b.len(),
        u32_at(e, i) == u32_at(b, i),
    ensures
        e[i] == b[i],
        e[i + 1] == b[i + 1],
        e[i + 2] == b[i + 2],
        e[i + 3] == b[i + 3],
{
    lemma_same_u16(e, b, i + 2);
    lemma_same_u16(e, b, i);
}

/// The three text regions of a version-1 frame hold valid UTF-8.
pub open spec fn texts_valid(b: Seq<u8>) -> bool {
    &&& valid_utf8(b.subrange(20, platform_at(b)))
    &&& valid_utf8(b.subrange(platform_at(b) + 2, sysver_at(b)))
    &&& valid_utf8(b.subrange(sysver_at(b) + 2, tail_at(b)))
}

/// A frame read by `decode` is written back by `encode` byte for byte, when its
/// texts are valid UTF-8: each message has one encoding, and `to_bytes`
/// reproduces what `parse` read.
pub proof fn lemma_encode_decode(b: Seq<u8>)
    requires
        frame_complete(b),
        decode(b) is Ok,
        texts_valid(b),
    ensures
        decode(b)->Ok_0.wf(),
        decode(b)->Ok_0.texts_fit(),
        encode(decode(b)->Ok_0) == b.subrange(0, frame_len(b)),
{
    let m = decode(b)->Ok_0;
    let r1 = b.subrange(20, platform_at(b));
    let r2 = b.subrange(platform_at(b) + 2, sysver_at(b));
    let r3 = b.subrange(sysver_at(b) + 2, tail_at(b));
    vstd::utf8::decode_utf8_encode_utf8(r1);
    vstd::utf8::decode_utf8_encode_utf8(r2);
    vstd::utf8::decode_utf8_encode_utf8(r3);
    assert(encode_utf8(m.system_name) == r1);
    assert(encode_utf8(m.system_platform) == r2);
    assert(encode_utf8(m.system_version) == r3);
    lemma_layout(m);
    lemma_layout_tail(m);
    let e = encode(m);
    let f = b.subrange(0, frame_len(b));
    let t = tail_at(b);
    assert(e.len() == f.len());
    lemma_same_u16(e, b, 16);
    lemma_same_u16(e, b, 18);
    lemma_same_u16(e, b, platform_at(b));
    lemma_same_u16(e, b, sysver_at(b));
    lemma_same_u16(e, b, t);
    lemma_same_u32(e, b, t + 2);
    lemma_same_u16(e, b, t + 6);
    lemma_same_u16(e, b, t + 8);
    lemma_same_u16(e, b, t + 10);
    assert forall|k: int| 0 <= k < f.len() implies e[k] == f[k] by {
        if k < 16 {
            assert(e.subrange(0, 16)[k] == b.subrange(0, 16)[k]);
        } else if 20 <= k < platform_at(b) {
            assert(e.subrange(20, platform_at(b))[k - 20] == r1[k - 20]);
        } else if platform_at(b) + 2 <= k < sysver_at(b) {
            assert(e.subrange(platform_at(b) + 2, sysver_at(b))[k - (platform_at(b) + 2)]
                == r2[k - (platform_at(b) + 2)]);
        } else if sysver_at(b) + 2 <= k < t {
            assert(e.subrange(sysver_at(b) + 2, t)[k - (sysver_at(b) + 2)] == r3[k - (sysver_at(
                b,
            ) + 2)]);
        }
    }
    assert(e =~= f);
}

/// Bytes after a complete frame change nothing: the frame stays complete and
/// is read the same.
pub proof fn lemma_decode_ignores_trailing(b: Seq<u8>, rest: Seq<u8>)
    requires
        frame_complete(b),
    ensures
        frame_complete(b + rest),
        decode(b + rest) == decode(b),
        u16_at(b, 16) == 1 ==> frame_len(b + rest) == frame_len(b),
{
    let c = b + rest;
    assert(c[16] == b[16] && c[17] == b[17]);
    if u16_at(b, 16) == 1 {
        assert(c[18] == b[18] && c[19] == b[19]);
        let p = platform_at(b);
        assert(c[p] == b[p] && c[p + 1] == b[p + 1]);
        let v = sysver_at(b);
        assert(c[v] == b[v] && c[v + 1] == b[v + 1]);
        let t = tail_at(b);
        assert(c[t] == b[t] && c[t + 1] == b[t + 1]);
        assert(c[t + 2] == b[t + 2] && c[t + 3] == b[t + 3]);
        assert(c[t + 4] == b[t + 4] && c[t + 5] == b[t + 5]);
        assert(c[t + 6] == b[t + 6] && c[t + 7] == b[t + 7]);
        assert(c[t + 8] == b[t + 8] && c[t + 9] == b[t + 9]);
        assert(c[t + 10] == b[t + 10] && c[t + 11] == b[t + 11]);
        assert(c.subrange(0, 16) =~= b.subrange(0, 16));
        assert(c.subrange(20, p) =~= b.subrange(20, p));
        assert(c.subrange(p + 2, v) =~= b.subrange(p + 2, v));
        assert(c.subrange(v + 2, t) =~= b.subrange(v + 2, t));
        assert(decode(c)->Ok_0 =~= decode(b)->Ok_0);
    }
}

} // verus!
