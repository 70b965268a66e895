//! Network audit tools and LSB steganography.
use vstd::prelude::*;

verus! {

pub struct SecurityToolkit;

#[derive(Clone, Debug)]
pub struct HostNode {
    pub ip: [u8; 4],
    pub mac: [u8; 6],
    pub hostname: &'static str,
    pub status: &'static str,
}

/// Number of payload bytes that fit: byte `i` needs image bytes up to `8i + 8` exclusive,
/// with `8i + 8` still inside the image.
pub open spec fn stego_capacity(image_len: int, payload_len: int) -> int {
    let fit = if image_len > 8 { (image_len - 1) / 8 } else { 0 };
    if payload_len < fit {
        payload_len
    } else {
        fit
    }
}

/// The image after hiding the first `n` payload bytes, bit `j` of byte `i` in the lowest bit
/// of image byte `8i + j`.
pub open spec fn stego_spec(img: Seq<u8>, payload: Seq<u8>, n: int) -> Seq<u8> {
    Seq::new(
        img.len(),
        |k: int|
            if k < 8 * n {
                (img[k] & 0xFE) | ((payload[k / 8] >> ((k % 8) as u8)) & 1)
            } else {
                img[k]
            },
    )
}

fn ip_mac(ip: [u8; 4], mac: [u8; 6], hostname: &'static str, status: &'static str) -> (r: HostNode)
    ensures
        r.ip == ip && r.mac == mac && r.hostname == hostname && r.status == status,
{
    HostNode { ip, mac, hostname, status }
}

impl SecurityToolkit {
    /// The hosts of the local subnet.
    pub fn scan_network() -> (r: Vec<HostNode>)
        ensures
            r@.len() == 4,
            r@[0].ip == [10u8, 0, 2, 1] && r@[0].hostname == "qemu-gateway.local" && r@[0].status
                == "ONLINE (Gateway)",
            r@[1].ip == [10u8, 0, 2, 2] && r@[1].hostname == "qemu-virtual-host" && r@[1].status
                == "ONLINE (DHCP Server)",
            r@[2].ip == [10u8, 0, 2, 3] && r@[2].hostname == "dns-resolver.local" && r@[2].status
                == "ONLINE (DNS Core)",
            r@[3].ip == [10u8, 0, 2, 15] && r@[3].hostname == "atulya-sovereign-node"
                && r@[3].status == "LOCAL (Active Interface)",
            r@[0].mac == [0x52u8, 0x54, 0x00, 0x12, 0x34, 0x01] && r@[1].mac == [
                0x52u8,
                0x54,
                0x00,
                0x12,
                0x34,
                0x02,
            ] && r@[2].mac == [0x52u8, 0x54, 0x00, 0x12, 0x34, 0x03] && r@[3].mac == [
                0x52u8,
                0x54,
                0x00,
                0x12,
                0x34,
                0x56,
            ],
    {
        let mut v: Vec<HostNode> = Vec::new();
        v.push(ip_mac([10, 0, 2, 1], [0x52, 0x54, 0x00, 0x12, 0x34, 0x01], "qemu-gateway.local", "ONLINE (Gateway)"));
        v.push(ip_mac([10, 0, 2, 2], [0x52, 0x54, 0x00, 0x12, 0x34, 0x02], "qemu-virtual-host", "ONLINE (DHCP Server)"));
        v.push(ip_mac([10, 0, 2, 3], [0x52, 0x54, 0x00, 0x12, 0x34, 0x03], "dns-resolver.local", "ONLINE (DNS Core)"));
        v.push(ip_mac([10, 0, 2, 15], [0x52, 0x54, 0x00, 0x12, 0x34, 0x56], "atulya-sovereign-node", "LOCAL (Active Interface)"));
        v
    }

    /// The TCP ports reported for a target: `(service, port, status)`.
    pub fn scan_ports(_target_ip: &str) -> (r: Vec<(&'static str, u16, &'static str)>)
        ensures
            r@ == seq![
                ("SSH", 22u16, "FILTERED"),
                ("DNS", 53u16, "OPEN (BIND 9 / QEMU DNS)"),
                ("HTTP", 80u16, "OPEN (Atulya Mesh Gateway)"),
                ("HTTPS", 443u16, "CLOSED"),
                ("QWEN-AI", 8000u16, "OPEN (Tantra-LLM Local API)"),
                ("HTTP-ALT", 8080u16, "OPEN (Decentralized Node)"),
            ],
    {
        let mut v: Vec<(&'static str, u16, &'static str)> = Vec::new();
        v.push(("SSH", 22, "FILTERED"));
        v.push(("DNS", 53, "OPEN (BIND 9 / QEMU DNS)"));
        v.push(("HTTP", 80, "OPEN (Atulya Mesh Gateway)"));
        v.push(("HTTPS", 443, "CLOSED"));
        v.push(("QWEN-AI", 8000, "OPEN (Tantra-LLM Local API)"));
        v.push(("HTTP-ALT", 8080, "OPEN (Decentralized Node)"));
        assert(v@ =~= seq![
            ("SSH", 22u16, "FILTERED"),
            ("DNS", 53u16, "OPEN (BIND 9 / QEMU DNS)"),
            ("HTTP", 80u16, "OPEN (Atulya Mesh Gateway)"),
            ("HTTPS", 443u16, "CLOSED"),
            ("QWEN-AI", 8000u16, "OPEN (Tantra-LLM Local API)"),
            ("HTTP-ALT", 8080u16, "OPEN (Decentralized Node)"),
        ]);
        v
    }

    /// Hides payload bytes in the lowest bits of the image, eight image bytes per payload
    /// byte, while they fit; returns how many payload bytes were hidden.
    pub fn stego_encode(image_raw: &mut [u8], payload: &[u8]) -> (r: usize)
        requires
            payload@.len() * 8 + 8 <= usize::MAX,
        ensures
            r == stego_capacity(old(image_raw)@.len() as int, payload@.len() as int),
            final(image_raw)@ == stego_spec(old(image_raw)@, payload@, r as int),
    {
        let ghost img0 = image_raw@;
        let mut written: usize = 0;
        let mut i: usize = 0;
        let n = image_raw.len();
        while i < payload.len()
            invariant_except_break
                written == i,
                image_raw@ == stego_spec(img0, payload@, i as int),
                i <= stego_capacity(n as int, payload@.len() as int),
            invariant
                n == img0.len(),
                image_raw@.len() == n,
                payload@.len() * 8 + 8 <= usize::MAX,
                i <= payload@.len(),
            ensures
                written == stego_capacity(n as int, payload@.len() as int),
                image_raw@ == stego_spec(img0, payload@, written as int),
            decreases payload@.len() - i,
        {
            if i * 8 + 8 >= n {
                break;
            }
            let b = payload[i];
            let mut bit: usize = 0;
            while bit < 8
                invariant
                    i * 8 + 8 < n,
                    image_raw@.len() == n,
                    bit <= 8,
                    i < payload@.len(),
                    b == payload@[i as int],
                    forall|k: int|
                        0 <= k < n ==> image_raw@[k] == if k < 8 * i + bit {
                            (img0[k] & 0xFE) | ((payload@[k / 8] >> ((k % 8) as u8)) & 1)
                        } else {
                            img0[k]
                        },
                decreases 8 - bit,
            {
                let bit_val = (b >> (bit as u8)) & 1;
                let idx = i * 8 + bit;
                image_raw[idx] = (image_raw[idx] & 0xFE) | bit_val;
                proof {
                    assert(idx / 8 == i as int);
                    assert(idx % 8 == bit as int);
                }
                bit += 1;
            }
            written += 1;
            i += 1;
            assert(image_raw@ =~= stego_spec(img0, payload@, i as int));
        }
        written
    }
}

/// The lowest bit of image byte `8i + j` after encoding is bit `j` of payload byte `i`: the
/// hidden bytes can be read back.
pub proof fn lemma_stego_readback(img: Seq<u8>, payload: Seq<u8>, n: int, i: int, j: int)
    requires
        0 <= i < n,
        n <= payload.len(),
        8 * n <= img.len(),
        0 <= j < 8,
    ensures
        stego_spec(img, payload, n)[8 * i + j] & 1 == (payload[i] >> (j as u8)) & 1,
{
    let k = 8 * i + j;
    assert(k / 8 == i);
    assert(k % 8 == j);
    let x = img[k];
    let y = payload[i];
    let s = j as u8;
    assert(((x & 0xFE) | ((y >> s) & 1)) & 1 == (y >> s) & 1) by (bit_vector);
}

} // verus!
