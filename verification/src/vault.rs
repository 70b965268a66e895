//! Encrypted user vault.
use vstd::prelude::*;

verus! {

pub struct EncryptedVault {
    pub is_unlocked: bool,
    pub active_user: &'static str,
    pub vault_files_count: usize,
}

/// One xorshift step of the key-stream generator.
pub open spec fn xorshift(s: u32) -> u32 {
    let a = s ^ (s << 13u32);
    let b = a ^ (a >> 17u32);
    b ^ (b << 5u32)
}

/// Generator state after `k` steps from `key`.
pub open spec fn stream_state(key: u32, k: nat) -> u32
    decreases k,
{
    if k == 0 {
        key
    } else {
        xorshift(stream_state(key, (k - 1) as nat))
    }
}

/// Key-stream byte `k`: the low byte of the state after `k + 1` steps.
pub open spec fn key_byte(key: u32, k: nat) -> u8 {
    (stream_state(key, k + 1) & 0xFF) as u8
}

/// Every byte of `data` XORed with the key stream.
pub open spec fn crypt_spec(data: Seq<u8>, key: u32) -> Seq<u8> {
    Seq::new(data.len(), |k: int| data[k] ^ key_byte(key, k as nat))
}

fn xorshift_exec(s: u32) -> (r: u32)
    ensures
        r == xorshift(s),
{
    let mut state = s;
    state ^= state << 13;
    state ^= state >> 17;
    state ^= state << 5;
    state
}

impl EncryptedVault {
    pub fn new() -> (r: Self)
        ensures
            !r.is_unlocked,
            r.active_user == "atul",
            r.vault_files_count == 3,
    {
        Self { is_unlocked: false, active_user: "atul", vault_files_count: 3 }
    }

    /// Unlocks with any non-empty key.
    pub fn unlock(&mut self, key: &str) -> (r: Result<&'static str, &'static str>)
        ensures
            key@.len() > 0 ==> r == Ok::<&'static str, &'static str>(
                "Vault Unlocked: Encrypted storage /user/atul/vault is now decrypted and mounted.",
            ) && final(self).is_unlocked,
            key@.len() == 0 ==> r == Err::<&'static str, &'static str>(
                "Vault Error: Invalid biometric/passkey authorization.",
            ) && final(self).is_unlocked == old(self).is_unlocked,
            final(self).active_user == old(self).active_user,
            final(self).vault_files_count == old(self).vault_files_count,
    {
        if !key.is_empty() {
            self.is_unlocked = true;
            Ok("Vault Unlocked: Encrypted storage /user/atul/vault is now decrypted and mounted.")
        } else {
            Err("Vault Error: Invalid biometric/passkey authorization.")
        }
    }

    pub fn lock(&mut self)
        ensures
            !final(self).is_unlocked,
            final(self).active_user == old(self).active_user,
            final(self).vault_files_count == old(self).vault_files_count,
    {
        self.is_unlocked = false;
    }

    /// Encrypts or decrypts: XORs each byte with the xorshift key stream seeded by `key`.
    pub fn crypt_stream(&self, data: &[u8], key: u32) -> (r: Vec<u8>)
        ensures
            r@ == crypt_spec(data@, key),
    {
        let mut out: Vec<u8> = Vec::new();
        let mut state = key;
        let mut k: usize = 0;
        while k < data.len()
            invariant
                k <= data@.len(),
                state == stream_state(key, k as nat),
                out@ == crypt_spec(data@.subrange(0, k as int), key),
            decreases data@.len() - k,
        {
            state = xorshift_exec(state);
            let key_byte = (state & 0xFF) as u8;
            out.push(data[k] ^ key_byte);
            k += 1;
            assert(out@ =~= crypt_spec(data@.subrange(0, k as int), key));
        }
        assert(data@.subrange(0, k as int) =~= data@);
        out
    }
}

/// Applying the key stream twice gives the data back: decryption undoes encryption.
pub proof fn lemma_crypt_involution(data: Seq<u8>, key: u32)
    ensures
        crypt_spec(crypt_spec(data, key), key) == data,
{
    assert forall|k: int| 0 <= k < data.len() implies #[trigger] crypt_spec(crypt_spec(data, key), key)[k]
        == data[k] by {
        let x = data[k];
        let y = key_byte(key, k as nat);
        assert((x ^ y) ^ y == x) by (bit_vector);
    }
    assert(crypt_spec(crypt_spec(data, key), key) =~= data);
}


/// The key stream is the xorshift32 sequence with shifts 13, 17 and 5: each state is the one
/// before with `x ^= x << 13; x ^= x >> 17; x ^= x << 5` applied, starting from the key, and
/// byte `k` of the output is byte `k` of the input XORed with the low byte of state `k + 1`.
pub proof fn lemma_key_stream_xorshift(data: Seq<u8>, key: u32, k: nat)
    ensures
        stream_state(key, 0) == key,
        ({
            let x = stream_state(key, k);
            let a = x ^ (x << 13u32);
            let b = a ^ (a >> 17u32);
            stream_state(key, k + 1) == b ^ (b << 5u32)
        }),
        k < data.len() ==> crypt_spec(data, key)[k as int] == data[k as int] ^ ((stream_state(key, k + 1) & 0xFF) as u8),
        crypt_spec(data, key).len() == data.len(),
{
}

/// The generator never stands still: from a non-zero key every state is non-zero and differs
/// from the one before it, so the key stream is not the key's low byte repeated.
pub proof fn lemma_key_stream_moves(key: u32, k: nat)
    requires
        key != 0,
    ensures
        stream_state(key, k) != 0,
        stream_state(key, k + 1) != stream_state(key, k),
    decreases k,
{
    if k > 0 {
        lemma_key_stream_moves(key, (k - 1) as nat);
        let p = stream_state(key, (k - 1) as nat);
        lemma_xorshift_moves(p);
        assert(stream_state(key, k) == xorshift(p));
    }
    let x = stream_state(key, k);
    lemma_xorshift_moves(x);
    assert(stream_state(key, k + 1) == xorshift(x));
}

proof fn lemma_xorshift_moves(x: u32)
    ensures
        x != 0 ==> xorshift(x) != 0 && xorshift(x) != x,
{
    assert(x != 0 ==> xorshift(x) != 0 && xorshift(x) != x) by (bit_vector);
}

/// The first key-stream bytes: key 1 gives 0x21 first, and key 0xDEADBEEF turns `secret`
/// into C4 27 3B 49 2D 6F.
pub proof fn lemma_key_stream_examples()
    ensures
        crypt_spec(seq![0u8], 1) == seq![0x21u8],
        crypt_spec(seq![0x73u8, 0x65, 0x63, 0x72, 0x65, 0x74], 0xDEAD_BEEF) == seq![0xc4u8, 0x27, 0x3b, 0x49, 0x2d, 0x6f],
{
    assert(0u8 ^ ((xorshift(1) & 0xFF) as u8) == 0x21u8) by (bit_vector);
    assert(stream_state(1, 1) == xorshift(stream_state(1, 0)));
    assert(crypt_spec(seq![0u8], 1)[0] == 0u8 ^ key_byte(1, 0));
    assert(crypt_spec(seq![0u8], 1) =~= seq![0x21u8]);
    let s1 = xorshift(0xDEAD_BEEF);
    let s2 = xorshift(s1);
    let s3 = xorshift(s2);
    let s4 = xorshift(s3);
    let s5 = xorshift(s4);
    let s6 = xorshift(s5);
    assert(0x73u8 ^ ((s1 & 0xFF) as u8) == 0xc4u8 && 0x65u8 ^ ((s2 & 0xFF) as u8) == 0x27u8
        && 0x63u8 ^ ((s3 & 0xFF) as u8) == 0x3bu8 && 0x72u8 ^ ((s4 & 0xFF) as u8) == 0x49u8
        && 0x65u8 ^ ((s5 & 0xFF) as u8) == 0x2du8 && 0x74u8 ^ ((s6 & 0xFF) as u8) == 0x6fu8) by (bit_vector)
        requires
            s1 == xorshift(0xDEAD_BEEF),
            s2 == xorshift(s1),
            s3 == xorshift(s2),
            s4 == xorshift(s3),
            s5 == xorshift(s4),
            s6 == xorshift(s5),
    ;
    assert(stream_state(0xDEAD_BEEF, 0) == 0xDEAD_BEEFu32);
    assert(stream_state(0xDEAD_BEEF, 1) == s1);
    assert(stream_state(0xDEAD_BEEF, 2) == s2);
    assert(stream_state(0xDEAD_BEEF, 3) == s3);
    assert(stream_state(0xDEAD_BEEF, 4) == s4);
    assert(stream_state(0xDEAD_BEEF, 5) == s5);
    assert(stream_state(0xDEAD_BEEF, 6) == s6);
    assert(crypt_spec(seq![0x73u8, 0x65, 0x63, 0x72, 0x65, 0x74], 0xDEAD_BEEF) =~= seq![0xc4u8, 0x27, 0x3b, 0x49, 0x2d, 0x6f]);
}

} // verus!
