use vstd::prelude::*;
use vstd::string::StringSliceAdditionalSpecFns;

verus! {

/// The sum of the big-endian 16-bit words of `d` from byte `i` on; a last odd byte
/// counts as the high half of a word.
pub open spec fn word_sum_from(d: Seq<u8>, i: int) -> int
    decreases d.len() - i,
{
    if i < 0 || i >= d.len() {
        0
    } else if i + 1 < d.len() {
        256 * d[i] + d[i + 1] + word_sum_from(d, i + 2)
    } else {
        256 * d[i]
    }
}

/// The sum of the big-endian 16-bit words of `d`.
pub open spec fn word_sum(d: Seq<u8>) -> int {
    word_sum_from(d, 0)
}

/// Folds the carries above 16 bits back into the low half until none is left.
pub open spec fn fold16(s: int) -> int
    decreases s,
{
    if s < 65536 {
        s
    } else {
        proof {
            lemma_fold_step(s);
        }
        fold16(s % 65536 + s / 65536)
    }
}

/// The RFC 1071 checksum of a word sum: the ones' complement of its folded value.
pub open spec fn checksum_of_sum(s: int) -> int {
    65535 - fold16(s)
}

/// The RFC 1071 Internet checksum of `d`.
pub open spec fn checksum_spec(d: Seq<u8>) -> int {
    checksum_of_sum(word_sum(d))
}

/// `d` with the checksum of `d` written big-endian at `p`.
pub open spec fn with_checksum(d: Seq<u8>, p: int) -> Seq<u8> {
    let c = checksum_spec(d);
    d.update(p, (c / 256) as u8).update(p + 1, (c % 256) as u8)
}

/// One folding step shrinks the value and keeps it modulo 65535.
pub proof fn lemma_fold_step(s: int)
    requires
        s >= 65536,
    ensures
        0 <= s % 65536 + s / 65536 < s,
        (s % 65536 + s / 65536) % 65535 == s % 65535,
{
    let q = s / 65536;
    let r = s % 65536;
    assert(s == 65536 * q + r && 0 <= r < 65536 && q >= 1);
    assert((r + q) % 65535 == s % 65535) by {
        vstd::arithmetic::div_mod::lemma_mod_multiples_vanish(q, r + q, 65535);
    }
}

/// Folding keeps the value modulo 65535, lands in 16 bits, and is zero only for zero.
pub proof fn lemma_fold16(s: int)
    requires
        s >= 0,
    ensures
        0 <= fold16(s) <= 65535,
        fold16(s) % 65535 == s % 65535,
        s > 0 ==> fold16(s) > 0,
    decreases s,
{
    if s >= 65536 {
        lemma_fold_step(s);
        lemma_fold16(s % 65536 + s / 65536);
    }
}

proof fn lemma_word_sum_nonneg(d: Seq<u8>, i: int)
    ensures
        0 <= word_sum_from(d, i),
    decreases d.len() - i,
{
    if 0 <= i && i + 1 < d.len() {
        lemma_word_sum_nonneg(d, i + 2);
    }
}

/// The word sum from `i` is at most 65535 per byte left.
pub proof fn lemma_word_sum_bound(d: Seq<u8>, i: int)
    requires
        0 <= i <= d.len(),
    ensures
        0 <= word_sum_from(d, i) <= 65535 * (d.len() - i),
    decreases d.len() - i,
{
    if i + 1 < d.len() {
        lemma_word_sum_bound(d, i + 2);
    }
}

proof fn lemma_word_sum_mono(d: Seq<u8>, j: int, k: int)
    requires
        0 <= j <= k,
        (k - j) % 2 == 0,
    ensures
        word_sum_from(d, j) >= word_sum_from(d, k),
    decreases k - j,
{
    if j < k {
        lemma_word_sum_mono(d, j + 2, k);
        lemma_word_sum_nonneg(d, j + 2);
    }
}

proof fn lemma_word_sum_suffix(d: Seq<u8>, e: Seq<u8>, i: int)
    requires
        0 <= i,
        d.len() == e.len(),
        forall|j: int| i <= j < d.len() ==> d[j] == e[j],
    ensures
        word_sum_from(d, i) == word_sum_from(e, i),
    decreases d.len() - i,
{
    if i + 1 < d.len() {
        lemma_word_sum_suffix(d, e, i + 2);
    }
}

/// Replacing the word at an even position `p` changes the sum by the difference of the words.
proof fn lemma_word_sum_update(d: Seq<u8>, p: int, x: u8, y: u8, i: int)
    requires
        0 <= i <= p,
        i % 2 == 0,
        p % 2 == 0,
        p + 1 < d.len(),
    ensures
        word_sum_from(d.update(p, x).update(p + 1, y), i) == word_sum_from(d, i) - (256 * d[p]
            + d[p + 1]) + 256 * x + y,
    decreases p - i,
{
    let e = d.update(p, x).update(p + 1, y);
    if i == p {
        lemma_word_sum_suffix(d, e, p + 2);
    } else {
        lemma_word_sum_update(d, p, x, y, i + 2);
    }
}

/// Writing the checksum of `d` into a zeroed word at an even position `p` makes the
/// checksum of the result zero: the receiver's check of RFC 1071 passes.
pub proof fn lemma_checksum_verifies(d: Seq<u8>, p: int)
    requires
        0 <= p,
        p % 2 == 0,
        p + 1 < d.len(),
        d[p] == 0,
        d[p + 1] == 0,
    ensures
        checksum_spec(with_checksum(d, p)) == 0,
{
    let s = word_sum(d);
    lemma_word_sum_nonneg(d, 0);
    lemma_fold16(s);
    let c = checksum_spec(d);
    assert(0 <= c <= 65535);
    let hi = (c / 256) as u8;
    let lo = (c % 256) as u8;
    assert(256 * hi + lo == c);
    lemma_word_sum_update(d, p, hi, lo, 0);
    let t = s + c;
    assert(word_sum(with_checksum(d, p)) == t);
    lemma_fold16(t);
    assert(t > 0);
    assert(t % 65535 == 0) by {
        vstd::arithmetic::div_mod::lemma_mod_adds(s, c, 65535);
        vstd::arithmetic::div_mod::lemma_mod_adds(fold16(s), c, 65535);
    }
    assert(fold16(t) == 65535);
}

/// Standard 16-bit Internet checksum (RFC 1071) of `data`.
pub fn calculate_internet_checksum(data: &[u8]) -> (r: u16)
    requires
        word_sum(data@) <= u32::MAX,
    ensures
        r == checksum_spec(data@),
{
    let len = data.len();
    let mut sum: u32 = 0;
    let mut i: usize = 0;
    while i < len && len - i >= 2
        invariant
            len == data@.len(),
            i <= len,
            word_sum(data@) <= u32::MAX,
            sum + word_sum_from(data@, i as int) == word_sum(data@),
        decreases len - i,
    {
        proof {
            lemma_word_sum_nonneg(data@, i + 2);
        }
        let word = 256 * (data[i] as u32) + data[i + 1] as u32;
        sum += word;
        i += 2;
    }
    if i < len {
        sum += 256 * (data[i] as u32);
    }
    assert(sum == word_sum(data@));
    let ghost total = sum as int;
    while sum >= 65536
        invariant
            fold16(sum as int) == fold16(total),
        decreases sum,
    {
        proof {
            lemma_fold_step(sum as int);
        }
        sum = sum % 65536 + sum / 65536;
    }
    proof {
        lemma_word_sum_nonneg(data@, 0);
    }
    assert(sum < 65536 ==> (!sum) as u16 == 65535 - sum) by (bit_vector);
    !sum as u16
}


pub const ETHERTYPE_IPV4: u16 = 0x0800;

pub const ETHERTYPE_ARP: u16 = 0x0806;

pub const IP_PROTO_ICMP: u8 = 1;

pub const IP_PROTO_TCP: u8 = 6;

pub const IP_PROTO_UDP: u8 = 17;

/// Addresses of this host on the network.
#[derive(Clone, Debug)]
pub struct NetworkConfig {
    pub mac: [u8; 6],
    pub ip: [u8; 4],
    pub gateway: [u8; 4],
    pub subnet: [u8; 4],
    pub dns: [u8; 4],
    pub is_online: bool,
}

/// The protocol stack: its configuration and frame counters.
pub struct NetworkStack {
    pub config: NetworkConfig,
    pub tx_count: usize,
    pub rx_count: usize,
}

/// The 14-byte Ethernet II header from `mac` to the gateway, carrying IPv4.
pub open spec fn eth_header(mac: Seq<u8>) -> Seq<u8> {
    seq![0x52u8, 0x55u8, 0x0au8, 0x00u8, 0x02u8, 0x02u8] + mac + seq![0x08u8, 0x00u8]
}

/// A 20-byte IPv4 header with a zero checksum field.
pub open spec fn ipv4_header(total_len: int, id_hi: u8, id_lo: u8, proto: u8, src: Seq<u8>, dst: Seq<u8>) -> Seq<u8> {
    seq![
        0x45u8,
        0x00u8,
        ((total_len / 256) % 256) as u8,
        (total_len % 256) as u8,
        id_hi,
        id_lo,
        0x40u8,
        0x00u8,
        0x40u8,
        proto,
        0x00u8,
        0x00u8,
    ] + src + dst
}

/// The high byte of a 16-bit value.
pub open spec fn high_byte(x: int) -> u8 {
    ((x / 256) % 256) as u8
}

/// The low byte of a 16-bit value.
pub open spec fn low_byte(x: int) -> u8 {
    (x % 256) as u8
}

/// The high byte of `x`.
fn hi_u8(x: u16) -> (r: u8)
    ensures
        r == high_byte(x as int),
{
    (x / 256) as u8
}

/// The low byte of `x`.
fn lo_u8(x: u16) -> (r: u8)
    ensures
        r == low_byte(x as int),
{
    (x % 256) as u8
}

/// The 32-byte ping payload: the alphabet, wrapping after `Z`.
pub open spec fn ping_payload() -> Seq<u8> {
    Seq::new(32, |i: int| (65 + i % 26) as u8)
}

/// An ICMP echo request with identifier 0x1000 and a zero checksum field.
pub open spec fn echo_request(seq_no: u16) -> Seq<u8> {
    seq![
        0x08u8,
        0x00u8,
        0x00u8,
        0x00u8,
        0x10u8,
        0x00u8,
        high_byte(seq_no as int),
        low_byte(seq_no as int),
    ] + ping_payload()
}

/// The complete ping frame from `mac`/`src` to `dst`.
pub open spec fn ping_frame(mac: Seq<u8>, src: Seq<u8>, dst: Seq<u8>, seq_no: u16) -> Seq<u8> {
    eth_header(mac) + with_checksum(ipv4_header(60, 0x12, 0x34, IP_PROTO_ICMP, src, dst), 10)
        + with_checksum(echo_request(seq_no), 2)
}

/// The HTTP/1.1 GET request for `path` on `host`.
pub open spec fn http_request(host: &str, path: &str) -> Seq<u8> {
    http_request_chars(host@, path@)
}

/// The bytes of the HTTP/1.1 GET request for `path` on `host`, given as characters.
pub open spec fn http_request_chars(host: Seq<char>, path: Seq<char>) -> Seq<u8> {
    "GET ".spec_bytes() + vstd::utf8::encode_utf8(path) + " HTTP/1.1\r\nHost: ".spec_bytes()
        + vstd::utf8::encode_utf8(host)
        + "\r\nUser-Agent: AtulyaOS/0.3 (Quantum x86_64)\r\nConnection: close\r\n\r\n".spec_bytes()
}

/// The TCP header from port 49152 to port 80, PSH+ACK, with a zero checksum field.
pub open spec fn tcp_header() -> Seq<u8> {
    seq![
        0xc0u8, 0x00u8, 0x00u8, 0x50u8, 0x00u8, 0x00u8, 0x00u8, 0x01u8, 0x00u8, 0x00u8,
        0x00u8, 0x00u8, 0x50u8, 0x18u8, 0x10u8, 0x00u8, 0x00u8, 0x00u8, 0x00u8, 0x00u8,
    ]
}

/// The big-endian word at `i`.
pub open spec fn be16(d: Seq<u8>, i: int) -> int {
    256 * d[i] + d[i + 1]
}

/// The word sum of a TCP segment: pseudo-header, header without its checksum word, payload.
pub open spec fn tcp_sum(src: Seq<u8>, dst: Seq<u8>, hdr: Seq<u8>, payload: Seq<u8>) -> int {
    be16(src, 0) + be16(src, 2) + be16(dst, 0) + be16(dst, 2) + IP_PROTO_TCP + (20
        + payload.len()) % 65536 + word_sum(hdr) - be16(hdr, 16) + word_sum(payload)
}

/// The complete HTTP GET frame from `mac`/`src` to `dst` carrying `payload`.
pub open spec fn http_frame(mac: Seq<u8>, src: Seq<u8>, dst: Seq<u8>, payload: Seq<u8>) -> Seq<u8> {
    let c = checksum_of_sum(tcp_sum(src, dst, tcp_header(), payload));
    eth_header(mac) + with_checksum(
        ipv4_header(40 + payload.len() as int, 0x56, 0x78, IP_PROTO_TCP, src, dst),
        10,
    ) + tcp_header().update(16, (c / 256) as u8).update(17, (c % 256) as u8) + payload
}

/// Appends the bytes of `s` to `v`.
fn push_bytes(v: &mut Vec<u8>, s: &[u8])
    ensures
        final(v)@ == old(v)@ + s@,
{
    let ghost start = v@;
    let mut k: usize = 0;
    while k < s.len()
        invariant
            k <= s@.len(),
            v@ == start + s@.subrange(0, k as int),
        decreases s@.len() - k,
    {
        v.push(s[k]);
        proof {
            assert(s@.subrange(0, k + 1) =~= s@.subrange(0, k as int).push(s@[k as int]));
        }
        k += 1;
    }
    assert(s@.subrange(0, s@.len() as int) =~= s@);
}

/// The Ethernet header of a frame from `mac`.
fn build_eth_header(mac: &[u8; 6]) -> (r: Vec<u8>)
    ensures
        r@ == eth_header(mac@),
{
    let mut v: Vec<u8> = vec![0x52, 0x55, 0x0a, 0x00, 0x02, 0x02];
    push_bytes(&mut v, mac.as_slice());
    v.push(0x08);
    v.push(0x00);
    assert(v@ =~= eth_header(mac@));
    v
}

/// An IPv4 header with its checksum filled in.
fn build_ipv4_header(total_len: usize, id_hi: u8, id_lo: u8, proto: u8, src: &[u8; 4], dst: &[u8; 4]) -> (r: Vec<u8>)
    ensures
        r@ == with_checksum(ipv4_header(total_len as int, id_hi, id_lo, proto, src@, dst@), 10),
{
    let mut h: Vec<u8> = vec![
        0x45,
        0x00,
        ((total_len / 256) % 256) as u8,
        (total_len % 256) as u8,
        id_hi,
        id_lo,
        0x40,
        0x00,
        0x40,
        proto,
        0x00,
        0x00,
        src[0],
        src[1],
        src[2],
        src[3],
        dst[0],
        dst[1],
        dst[2],
        dst[3],
    ];
    assert(h@ =~= ipv4_header(total_len as int, id_hi, id_lo, proto, src@, dst@));
    proof {
        lemma_word_sum_bound(h@, 0);
    }
    let c = calculate_internet_checksum(h.as_slice());
    h.set(10, (c / 256) as u8);
    h.set(11, (c % 256) as u8);
    h
}

/// The TCP checksum over the IPv4 pseudo-header, the header without its checksum word, and the payload.
fn calculate_tcp_checksum(src_ip: &[u8; 4], dst_ip: &[u8; 4], tcp_hdr: &[u8], payload: &[u8]) -> (r: u16)
    requires
        tcp_hdr@.len() == 20,
        tcp_sum(src_ip@, dst_ip@, tcp_hdr@, payload@) <= u32::MAX,
        payload@.len() + 20 <= usize::MAX,
    ensures
        r == checksum_of_sum(tcp_sum(src_ip@, dst_ip@, tcp_hdr@, payload@)),
{
    let ghost total = tcp_sum(src_ip@, dst_ip@, tcp_hdr@, payload@);
    proof {
        lemma_word_sum_bound(tcp_hdr@, 0);
        lemma_word_sum_nonneg(payload@, 0);
        lemma_word_sum_nonneg(tcp_hdr@, 18);
    }
    let tcp_len = ((20 + payload.len()) % 65536) as u16;
    let mut sum: u32 = 0;
    sum += 256 * (src_ip[0] as u32) + src_ip[1] as u32;
    sum += 256 * (src_ip[2] as u32) + src_ip[3] as u32;
    sum += 256 * (dst_ip[0] as u32) + dst_ip[1] as u32;
    sum += 256 * (dst_ip[2] as u32) + dst_ip[3] as u32;
    sum += IP_PROTO_TCP as u32;
    sum += tcp_len as u32;
    let ghost pseudo = sum as int;
    let mut i: usize = 0;
    while i + 1 < 20
        invariant
            tcp_hdr@.len() == 20,
            i <= 20,
            i % 2 == 0,
            total <= u32::MAX,
            total == pseudo + word_sum(tcp_hdr@) - be16(tcp_hdr@, 16) + word_sum(payload@),
            0 <= word_sum(payload@),
            sum + word_sum_from(tcp_hdr@, i as int) - (if i <= 16 { be16(tcp_hdr@, 16) } else { 0 })
                == pseudo + word_sum(tcp_hdr@) - be16(tcp_hdr@, 16),
        decreases 20 - i,
    {
        proof {
            lemma_word_sum_bound(tcp_hdr@, i + 2);
            if i < 16 {
                lemma_word_sum_mono(tcp_hdr@, i + 2, 16);
                lemma_word_sum_nonneg(tcp_hdr@, 18);
            }
        }
        if i != 16 {
            sum += 256 * (tcp_hdr[i] as u32) + tcp_hdr[i + 1] as u32;
        }
        i += 2;
    }
    let len = payload.len();
    let mut j: usize = 0;
    let ghost after_hdr = sum as int;
    while j < len && len - j >= 2
        invariant
            len == payload@.len(),
            j <= len,
            total <= u32::MAX,
            after_hdr + word_sum(payload@) == total,
            sum + word_sum_from(payload@, j as int) == total,
        decreases len - j,
    {
        proof {
            lemma_word_sum_nonneg(payload@, j + 2);
        }
        sum += 256 * (payload[j] as u32) + payload[j + 1] as u32;
        j += 2;
    }
    if j < len {
        sum += 256 * (payload[j] as u32);
    }
    assert(sum == total);
    while sum >= 65536
        invariant
            fold16(sum as int) == fold16(total),
        decreases sum,
    {
        proof {
            lemma_fold_step(sum as int);
        }
        sum = sum % 65536 + sum / 65536;
    }
    assert(sum < 65536 ==> (!sum) as u16 == 65535 - sum) by (bit_vector);
    !sum as u16
}

/// Whether the word sum of a TCP segment fits in 32 bits, as the checksum needs.
fn tcp_sum_fits(src_ip: &[u8; 4], dst_ip: &[u8; 4], tcp_hdr: &[u8], payload: &[u8]) -> (r: bool)
    requires
        tcp_hdr@.len() == 20,
    ensures
        r == (tcp_sum(src_ip@, dst_ip@, tcp_hdr@, payload@) <= u32::MAX),
{
    let ghost total = tcp_sum(src_ip@, dst_ip@, tcp_hdr@, payload@);
    proof {
        lemma_word_sum_bound(tcp_hdr@, 0);
        lemma_word_sum_nonneg(payload@, 0);
        lemma_word_sum_nonneg(tcp_hdr@, 18);
    }
    let len = payload.len();
    let tcp_len: u64 = ((len % 65536) as u64 + 20) % 65536;
    assert(tcp_len == (20 + len) % 65536);
    let mut sum: u64 = 0;
    sum += 256 * (src_ip[0] as u64) + src_ip[1] as u64;
    sum += 256 * (src_ip[2] as u64) + src_ip[3] as u64;
    sum += 256 * (dst_ip[0] as u64) + dst_ip[1] as u64;
    sum += 256 * (dst_ip[2] as u64) + dst_ip[3] as u64;
    sum += IP_PROTO_TCP as u64;
    sum += tcp_len;
    let ghost pseudo = sum as int;
    let mut i: usize = 0;
    while i + 1 < 20
        invariant
            tcp_hdr@.len() == 20,
            i <= 20,
            i % 2 == 0,
            total == pseudo + word_sum(tcp_hdr@) - be16(tcp_hdr@, 16) + word_sum(payload@),
            pseudo <= 7 * 65535,
            sum <= 7 * 65535 + 65535 * i,
            sum + word_sum_from(tcp_hdr@, i as int) - (if i <= 16 { be16(tcp_hdr@, 16) } else { 0 })
                == pseudo + word_sum(tcp_hdr@) - be16(tcp_hdr@, 16),
        decreases 20 - i,
    {
        proof {
            lemma_word_sum_bound(tcp_hdr@, i + 2);
            if i < 16 {
                lemma_word_sum_mono(tcp_hdr@, i + 2, 16);
                lemma_word_sum_nonneg(tcp_hdr@, 18);
            }
        }
        if i != 16 {
            sum += 256 * (tcp_hdr[i] as u64) + tcp_hdr[i + 1] as u64;
        }
        i += 2;
    }
    let ghost after_hdr = sum as int;
    let mut j: usize = 0;
    while j < len && len - j >= 2
        invariant
            len == payload@.len(),
            j <= len,
            total == tcp_sum(src_ip@, dst_ip@, tcp_hdr@, payload@),
            after_hdr + word_sum(payload@) == total,
            sum + word_sum_from(payload@, j as int) == total,
            sum <= u32::MAX,
        decreases len - j,
    {
        proof {
            lemma_word_sum_nonneg(payload@, j + 2);
            assert(word_sum_from(payload@, j as int) == 256 * payload@[j as int] + payload@[j + 1]
                + word_sum_from(payload@, j + 2));
        }
        sum += 256 * (payload[j] as u64) + payload[j + 1] as u64;
        if sum > 4294967295u64 {
            return false;
        }
        j += 2;
    }
    if j < len {
        sum += 256 * (payload[j] as u64);
    }
    sum <= 4294967295u64
}

impl NetworkStack {
    pub fn new() -> (r: Self)
        ensures
            r.config.mac@ == seq![0x52u8, 0x54u8, 0x00u8, 0x12u8, 0x34u8, 0x56u8],
            r.config.ip@ == seq![10u8, 0u8, 2u8, 15u8],
            r.config.gateway@ == seq![10u8, 0u8, 2u8, 2u8],
            r.config.subnet@ == seq![255u8, 255u8, 255u8, 0u8],
            r.config.dns@ == seq![10u8, 0u8, 2u8, 3u8],
            r.config.is_online,
            r.tx_count == 0,
            r.rx_count == 0,
    {
        let r = Self {
            config: NetworkConfig {
                mac: [0x52, 0x54, 0x00, 0x12, 0x34, 0x56],
                ip: [10, 0, 2, 15],
                gateway: [10, 0, 2, 2],
                subnet: [255, 255, 255, 0],
                dns: [10, 0, 2, 3],
                is_online: true,
            },
            tx_count: 0,
            rx_count: 0,
        };
        assert(r.config.mac@ =~= seq![0x52u8, 0x54u8, 0x00u8, 0x12u8, 0x34u8, 0x56u8]);
        assert(r.config.ip@ =~= seq![10u8, 0u8, 2u8, 15u8]);
        assert(r.config.gateway@ =~= seq![10u8, 0u8, 2u8, 2u8]);
        assert(r.config.subnet@ =~= seq![255u8, 255u8, 255u8, 0u8]);
        assert(r.config.dns@ =~= seq![10u8, 0u8, 2u8, 3u8]);
        r
    }

    /// Builds an Ethernet + IPv4 + ICMP echo request frame to `target_ip` and counts it sent.
    pub fn build_icmp_ping(&mut self, target_ip: [u8; 4], seq: u16) -> (r: Vec<u8>)
        requires
            old(self).tx_count < usize::MAX,
        ensures
            r@ == ping_frame(old(self).config.mac@, old(self).config.ip@, target_ip@, seq),
            final(self).tx_count == old(self).tx_count + 1,
            final(self).rx_count == old(self).rx_count,
            final(self).config == old(self).config,
    {
        let mut frame = build_eth_header(&self.config.mac);
        let mut ip_hdr = build_ipv4_header(60, 0x12, 0x34, IP_PROTO_ICMP, &self.config.ip, &target_ip);
        frame.append(&mut ip_hdr);
        let mut echo: Vec<u8> = vec![0x08, 0x00, 0x00, 0x00, 0x10, 0x00, hi_u8(seq), lo_u8(seq)];
        let mut i: u8 = 0;
        while i < 32
            invariant
                i <= 32,
                echo@.len() == 8 + i,
                echo@ =~= echo_request(seq).subrange(0, 8 + i),
            decreases 32 - i,
        {
            echo.push(65 + i % 26);
            i += 1;
        }
        assert(echo@ =~= echo_request(seq));
        proof {
            lemma_word_sum_bound(echo@, 0);
        }
        let c = calculate_internet_checksum(echo.as_slice());
        echo.set(2, hi_u8(c));
        echo.set(3, lo_u8(c));
        frame.append(&mut echo);
        self.tx_count += 1;
        frame
    }

    /// Whether `build_http_get` can build the frame for `path` on `host` to `target_ip`: a
    /// frame count is left, the frame's length fits, and the segment's word sum fits in 32 bits.
    pub fn http_get_fits(&self, target_ip: [u8; 4], host: &str, path: &str) -> (r: bool)
        ensures
            r == (self.tx_count < usize::MAX && http_request(host, path).len() + 54 <= usize::MAX
                && tcp_sum(self.config.ip@, target_ip@, tcp_header(), http_request(host, path)) <= u32::MAX),
    {
        if self.tx_count == usize::MAX {
            return false;
        }
        let mut http: Vec<u8> = Vec::new();
        push_bytes(&mut http, "GET ".as_bytes());
        push_bytes(&mut http, path.as_bytes());
        push_bytes(&mut http, " HTTP/1.1\r\nHost: ".as_bytes());
        push_bytes(&mut http, host.as_bytes());
        push_bytes(
            &mut http,
            "\r\nUser-Agent: AtulyaOS/0.3 (Quantum x86_64)\r\nConnection: close\r\n\r\n".as_bytes(),
        );
        assert(http@ =~= http_request(host, path));
        if http.len() > usize::MAX - 54 {
            return false;
        }
        let tcp_hdr: Vec<u8> = vec![
            0xc0, 0x00, 0x00, 0x50, 0x00, 0x00, 0x00, 0x01, 0x00, 0x00,
            0x00, 0x00, 0x50, 0x18, 0x10, 0x00, 0x00, 0x00, 0x00, 0x00,
        ];
        assert(tcp_hdr@ =~= tcp_header());
        tcp_sum_fits(&self.config.ip, &target_ip, tcp_hdr.as_slice(), http.as_slice())
    }

    /// Builds an Ethernet + IPv4 + TCP frame carrying an HTTP/1.1 GET of `path` on `host`,
    /// and counts it sent.
    pub fn build_http_get(&mut self, target_ip: [u8; 4], host: &str, path: &str) -> (r: Vec<u8>)
        requires
            old(self).tx_count < usize::MAX,
            http_request(host, path).len() + 54 <= usize::MAX,
            tcp_sum(old(self).config.ip@, target_ip@, tcp_header(), http_request(host, path))
                <= u32::MAX,
        ensures
            r@ == http_frame(
                old(self).config.mac@,
                old(self).config.ip@,
                target_ip@,
                http_request(host, path),
            ),
            final(self).tx_count == old(self).tx_count + 1,
            final(self).rx_count == old(self).rx_count,
            final(self).config == old(self).config,
    {
        let mut http: Vec<u8> = Vec::new();
        push_bytes(&mut http, "GET ".as_bytes());
        push_bytes(&mut http, path.as_bytes());
        push_bytes(&mut http, " HTTP/1.1\r\nHost: ".as_bytes());
        push_bytes(&mut http, host.as_bytes());
        push_bytes(
            &mut http,
            "\r\nUser-Agent: AtulyaOS/0.3 (Quantum x86_64)\r\nConnection: close\r\n\r\n".as_bytes(),
        );
        assert(http@ =~= http_request(host, path));
        let ip_len = 40 + http.len();
        let mut frame = build_eth_header(&self.config.mac);
        let mut ip_hdr = build_ipv4_header(ip_len, 0x56, 0x78, IP_PROTO_TCP, &self.config.ip, &target_ip);
        frame.append(&mut ip_hdr);
        let mut tcp_hdr: Vec<u8> = vec![
            0xc0, 0x00, 0x00, 0x50, 0x00, 0x00, 0x00, 0x01, 0x00, 0x00,
            0x00, 0x00, 0x50, 0x18, 0x10, 0x00, 0x00, 0x00, 0x00, 0x00,
        ];
        assert(tcp_hdr@ =~= tcp_header());
        let c = calculate_tcp_checksum(&self.config.ip, &target_ip, tcp_hdr.as_slice(), http.as_slice());
        tcp_hdr.set(16, (c / 256) as u8);
        tcp_hdr.set(17, (c % 256) as u8);
        frame.append(&mut tcp_hdr);
        frame.append(&mut http);
        self.tx_count += 1;
        frame
    }
}

/// Every ping frame carries an IPv4 header and an ICMP message whose checksums verify.
pub proof fn lemma_ping_checksums_verify(mac: Seq<u8>, src: Seq<u8>, dst: Seq<u8>, seq_no: u16)
    requires
        mac.len() == 6,
        src.len() == 4,
        dst.len() == 4,
    ensures
        checksum_spec(ping_frame(mac, src, dst, seq_no).subrange(14, 34)) == 0,
        checksum_spec(ping_frame(mac, src, dst, seq_no).subrange(34, 74)) == 0,
{
    let f = ping_frame(mac, src, dst, seq_no);
    let ip = ipv4_header(60, 0x12, 0x34, IP_PROTO_ICMP, src, dst);
    let echo = echo_request(seq_no);
    assert(f.subrange(14, 34) =~= with_checksum(ip, 10));
    assert(f.subrange(34, 74) =~= with_checksum(echo, 2));
    lemma_checksum_verifies(ip, 10);
    lemma_checksum_verifies(echo, 2);
}

} // verus!
