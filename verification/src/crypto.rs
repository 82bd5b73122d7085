//! Cryptographic building blocks of the WPA2-PSK handshake.
//!
//! HMAC-SHA1 and the AES-128 block decryption come from the `hmac`/`sha1`
//! and `aes` crates; everything layered on top of them (PBKDF2, the 802.11i
//! PRF, PTK derivation, MIC computation and RFC 3394 key unwrap) is verified
//! here against specifications written over those two primitives.

use vstd::prelude::*;

use aes::cipher::{BlockDecrypt, KeyInit, generic_array::GenericArray};
use aes::Aes128;
use hmac::{Hmac, Mac};
use sha1::Sha1;

use crate::wpa2::WpaError;

verus! {

/// Size of a SHA-1 digest in bytes.
pub const SHA1_DIGEST_SIZE: usize = 20;

/// What `Hmac<Sha1>` produces for `key` and `data` (RFC 2104 over SHA-1).
pub uninterp spec fn hmac_sha1_spec(key: Seq<u8>, data: Seq<u8>) -> Seq<u8>;

/// What AES-128 decryption of one 16-byte `block` under `key` produces.
pub uninterp spec fn aes128_decrypt_spec(key: Seq<u8>, block: Seq<u8>) -> Seq<u8>;

/// HMAC-SHA1 of `data` under `key`, computed by the `hmac` crate with the
/// `sha1` crate's digest (`Mac::new_from_slice`, `update`, `finalize`).
/// `new_from_slice` accepts keys of every length for `Hmac<Sha1>` (long keys
/// are hashed first), so the call never fails.  The contract only names the
/// 20-byte tag; that it is the RFC 2104 value is not stated.
#[verifier::external_body]
pub(crate) fn hmac_sha1(key: &[u8], data: &[u8]) -> (out: [u8; 20])
    ensures
        out@ == hmac_sha1_spec(key@, data@),
{
    let mut mac = <Hmac<Sha1> as Mac>::new_from_slice(key).unwrap();
    mac.update(data);
    let tag = mac.finalize().into_bytes();
    let mut out = [0u8; 20];
    out.copy_from_slice(&tag);
    out
}

/// AES-128 decryption of one block with `aes::Aes128` (`KeyInit::new` on the
/// 16-byte key, then `BlockDecrypt::decrypt_block`).  The contract only names
/// the result as a function of key and block.
#[verifier::external_body]
pub(crate) fn aes128_decrypt_block(key: &[u8; 16], block: &[u8; 16]) -> (out: [u8; 16])
    ensures
        out@ == aes128_decrypt_spec(key@, block@),
{
    let cipher = Aes128::new(GenericArray::from_slice(key));
    let mut b = GenericArray::clone_from_slice(block);
    cipher.decrypt_block(&mut b);
    let mut out = [0u8; 16];
    out.copy_from_slice(&b);
    out
}

// ------------------------------------------------------------------
// Small byte-level helpers
// ------------------------------------------------------------------

/// Four big-endian bytes of `n`.
pub open spec fn be32(n: u32) -> Seq<u8> {
    seq![(n / 0x100_0000) as u8, ((n / 0x1_0000) % 0x100) as u8, ((n / 0x100) % 0x100) as u8, (n % 0x100) as u8]
}

/// Byte-wise XOR of the first `len` bytes of `a` and `b`.
pub open spec fn xor_bytes(a: Seq<u8>, b: Seq<u8>, len: nat) -> Seq<u8> {
    Seq::new(len, |i: int| a[i] ^ b[i])
}

/// Appends `s` to `v`.
pub fn append_bytes(v: &mut Vec<u8>, s: &[u8])
    ensures
        final(v)@ == old(v)@ + s@,
{
    let ghost start = v@;
    let mut i: usize = 0;
    while i < s.len()
        invariant
            i <= s.len(),
            v@ == start + s@.take(i as int),
        decreases s.len() - i,
    {
        v.push(s[i]);
        i = i + 1;
        assert(s@.take(i as int) == s@.take((i - 1) as int).push(s@[i - 1]));
    }
    assert(s@.take(s.len() as int) == s@);
}

/// Copies `s` into a fresh vector.
pub fn bytes_to_vec(s: &[u8]) -> (v: Vec<u8>)
    ensures
        v@ == s@,
{
    let mut v: Vec<u8> = Vec::new();
    append_bytes(&mut v, s);
    v
}

// ------------------------------------------------------------------
// PBKDF2-HMAC-SHA1 (RFC 2898)
// ------------------------------------------------------------------

/// `U_k` of block `block`: `U_1 = HMAC(P, S || INT(block))`, `U_k = HMAC(P, U_{k-1})`.
pub open spec fn pbkdf2_u(pass: Seq<u8>, salt: Seq<u8>, block: u32, k: nat) -> Seq<u8>
    decreases k,
{
    if k <= 1 {
        hmac_sha1_spec(pass, salt + be32(block))
    } else {
        hmac_sha1_spec(pass, pbkdf2_u(pass, salt, block, (k - 1) as nat))
    }
}

/// `T_block = U_1 ^ U_2 ^ ... ^ U_iters` (just `U_1` when `iters <= 1`).
pub open spec fn pbkdf2_t(pass: Seq<u8>, salt: Seq<u8>, block: u32, iters: nat) -> Seq<u8>
    decreases iters,
{
    if iters <= 1 {
        pbkdf2_u(pass, salt, block, 1)
    } else {
        xor_bytes(pbkdf2_t(pass, salt, block, (iters - 1) as nat), pbkdf2_u(pass, salt, block, iters), 20)
    }
}

/// `T_1 || T_2 || ... || T_n`.
pub open spec fn pbkdf2_blocks(pass: Seq<u8>, salt: Seq<u8>, iters: nat, n: nat) -> Seq<u8>
    decreases n,
{
    if n == 0 {
        Seq::empty()
    } else {
        pbkdf2_blocks(pass, salt, iters, (n - 1) as nat) + pbkdf2_t(pass, salt, n as u32, iters)
    }
}

/// Number of 20-byte digests needed for `len` bytes of output.
pub open spec fn digest_blocks(len: nat) -> nat {
    ((len + 19) / 20) as nat
}

/// PBKDF2-HMAC-SHA1 output of `dk_len` bytes.
pub open spec fn pbkdf2_spec(pass: Seq<u8>, salt: Seq<u8>, iters: nat, dk_len: nat) -> Seq<u8> {
    pbkdf2_blocks(pass, salt, iters, digest_blocks(dk_len)).take(dk_len as int)
}

/// PBKDF2-HMAC-SHA1 of `passphrase` with `salt`, `iterations` rounds and
/// `dk_len` bytes of output.
pub fn pbkdf2_sha1(passphrase: &[u8], salt: &[u8], iterations: u32, dk_len: usize) -> (dk: Vec<u8>)
    requires
        dk_len <= usize::MAX - 40,
        salt.len() <= usize::MAX - 4,
    ensures
        dk@ == pbkdf2_spec(passphrase@, salt@, iterations as nat, dk_len as nat),
        dk@.len() == dk_len,
{
    let mut result: Vec<u8> = Vec::new();
    let blocks_needed = (dk_len + SHA1_DIGEST_SIZE - 1) / SHA1_DIGEST_SIZE;
    let mut block_index: usize = 1;
    while block_index <= blocks_needed
        invariant
            1 <= block_index <= blocks_needed + 1,
            blocks_needed == digest_blocks(dk_len as nat),
            blocks_needed * 20 <= dk_len + 19,
            salt.len() <= usize::MAX - 4,
            result@ == pbkdf2_blocks(passphrase@, salt@, iterations as nat, (block_index - 1) as nat),
            result@.len() == (block_index - 1) * 20,
        decreases blocks_needed + 1 - block_index,
    {
        let mut salt_block: Vec<u8> = bytes_to_vec(salt);
        let bi = block_index as u32;
        let be: [u8; 4] = [(bi / 0x100_0000) as u8, ((bi / 0x1_0000) % 0x100) as u8, ((bi / 0x100) % 0x100) as u8, (bi % 0x100) as u8];
        append_bytes(&mut salt_block, &be);
        assert(be@ == be32(bi));
        let mut u = hmac_sha1(passphrase, salt_block.as_slice());
        let mut t = u;
        let mut it: u32 = 1;
        while it < iterations
            invariant
                1 <= it,
                it <= iterations || it == 1,
                u@ == pbkdf2_u(passphrase@, salt@, bi, it as nat),
                t@ == pbkdf2_t(passphrase@, salt@, bi, it as nat),
            decreases iterations - it,
        {
            u = hmac_sha1(passphrase, &u);
            let mut i: usize = 0;
            let ghost t_prev = t@;
            while i < SHA1_DIGEST_SIZE
                invariant
                    i <= 20,
                    forall|k: int| 0 <= k < i ==> t@[k] == t_prev[k] ^ u@[k],
                    forall|k: int| i <= k < 20 ==> t@[k] == t_prev[k],
                decreases 20 - i,
            {
                t[i] = t[i] ^ u[i];
                i = i + 1;
            }
            it = it + 1;
            assert(t@ == xor_bytes(t_prev, u@, 20));
        }
        proof {
            if iterations == 0 {
                assert(pbkdf2_t(passphrase@, salt@, bi, 0) == pbkdf2_t(passphrase@, salt@, bi, 1));
            }
        }
        let ghost prev = result@;
        append_bytes(&mut result, &t);
        assert(t@ == pbkdf2_t(passphrase@, salt@, block_index as u32, iterations as nat));
        block_index = block_index + 1;
        proof {
            assert(result@ == prev + t@);
        }
    }
    proof {
        assert((dk_len + 19) / 20 * 20 >= dk_len) by (nonlinear_arith);
    }
    result.truncate(dk_len);
    result
}

// ------------------------------------------------------------------
// IEEE 802.11i PRF-SHA1
// ------------------------------------------------------------------

/// HMAC input of PRF block `i`: `label || 0x00 || data || i`.
pub open spec fn prf_input(label: Seq<u8>, data: Seq<u8>, i: nat) -> Seq<u8> {
    label + seq![0u8] + data + seq![i as u8]
}

/// PRF block `i`: the 20-byte HMAC-SHA1 tag of `prf_input(label, data, i)`.
pub open spec fn prf_block(key: Seq<u8>, label: Seq<u8>, data: Seq<u8>, i: nat) -> Seq<u8> {
    Seq::new(20, |j: int| hmac_sha1_spec(key, prf_input(label, data, i))[j])
}

/// The first `n` PRF blocks concatenated.
pub open spec fn prf_blocks(key: Seq<u8>, label: Seq<u8>, data: Seq<u8>, n: nat) -> Seq<u8>
    decreases n,
{
    if n == 0 {
        Seq::empty()
    } else {
        prf_blocks(key, label, data, (n - 1) as nat) + prf_block(key, label, data, (n - 1) as nat)
    }
}

proof fn lemma_prf_blocks_len(key: Seq<u8>, label: Seq<u8>, data: Seq<u8>, n: nat)
    ensures
        prf_blocks(key, label, data, n).len() == 20 * n,
    decreases n,
{
    if n > 0 {
        lemma_prf_blocks_len(key, label, data, (n - 1) as nat);
    }
}

/// PRF-SHA1 output of `len` bytes.
pub open spec fn prf_spec(key: Seq<u8>, label: Seq<u8>, data: Seq<u8>, len: nat) -> Seq<u8> {
    prf_blocks(key, label, data, digest_blocks(len)).take(len as int)
}

/// More PRF iterations only extend the bytes of fewer: the first `b1`
/// blocks are a prefix of the first `b2 >= b1` blocks.
pub proof fn law_prf_blocks_prefix(key: Seq<u8>, label: Seq<u8>, data: Seq<u8>, b1: nat, b2: nat)
    requires
        b1 <= b2,
    ensures
        prf_blocks(key, label, data, b1).len() <= prf_blocks(key, label, data, b2).len(),
        prf_blocks(key, label, data, b2).take(prf_blocks(key, label, data, b1).len() as int)
            == prf_blocks(key, label, data, b1),
    decreases b2,
{
    if b1 < b2 {
        law_prf_blocks_prefix(key, label, data, b1, (b2 - 1) as nat);
        let a = prf_blocks(key, label, data, b1);
        let c = prf_blocks(key, label, data, (b2 - 1) as nat);
        assert(prf_blocks(key, label, data, b2).take(a.len() as int) =~= c.take(a.len() as int));
    } else {
        let a = prf_blocks(key, label, data, b1);
        assert(a.take(a.len() as int) =~= a);
    }
}

/// A shorter PRF output is the start of a longer one: for `m <= n`, the
/// `m` bytes of output are the first `m` of the `n`.
pub proof fn law_prf_prefix(key: Seq<u8>, label: Seq<u8>, data: Seq<u8>, m: nat, n: nat)
    requires
        m <= n,
    ensures
        prf_spec(key, label, data, n).len() == n,
        prf_spec(key, label, data, m) == prf_spec(key, label, data, n).take(m as int),
{
    let bm = digest_blocks(m);
    let bn = digest_blocks(n);
    assert(bm <= bn && m <= 20 * bm && n <= 20 * bn) by (nonlinear_arith)
        requires
            m <= n,
            bm == (m + 19) / 20,
            bn == (n + 19) / 20,
    ;
    lemma_prf_blocks_len(key, label, data, bm);
    lemma_prf_blocks_len(key, label, data, bn);
    law_prf_blocks_prefix(key, label, data, bm, bn);
    let a = prf_blocks(key, label, data, bm);
    let c = prf_blocks(key, label, data, bn);
    assert(a.take(m as int) =~= c.take(n as int).take(m as int));
}

/// IEEE 802.11i PRF-SHA1 with `output_len` bytes of output.
pub fn prf_sha1(key: &[u8], label: &[u8], data: &[u8], output_len: usize) -> (out: Vec<u8>)
    requires
        output_len <= usize::MAX - 40,
        label.len() + data.len() <= usize::MAX - 2,
    ensures
        out@ == prf_spec(key@, label@, data@, output_len as nat),
        out@.len() == output_len,
{
    let iterations = (output_len + SHA1_DIGEST_SIZE - 1) / SHA1_DIGEST_SIZE;
    let mut result: Vec<u8> = Vec::new();
    let mut i: usize = 0;
    while i < iterations
        invariant
            i <= iterations,
            iterations == digest_blocks(output_len as nat),
            iterations * 20 <= output_len + 19,
            label.len() + data.len() <= usize::MAX - 2,
            result@ == prf_blocks(key@, label@, data@, i as nat),
            result@.len() == i * 20,
        decreases iterations - i,
    {
        let mut input: Vec<u8> = bytes_to_vec(label);
        input.push(0u8);
        append_bytes(&mut input, data);
        input.push(i as u8);
        assert(input@ == prf_input(label@, data@, i as nat));
        let hash = hmac_sha1(key, input.as_slice());
        assert(hash@ =~= prf_block(key@, label@, data@, i as nat));
        append_bytes(&mut result, &hash);
        i = i + 1;
    }
    proof {
        assert((output_len + 19) / 20 * 20 >= output_len) by (nonlinear_arith);
    }
    result.truncate(output_len);
    result
}

// ------------------------------------------------------------------
// Lexicographic order of byte strings
// ------------------------------------------------------------------

/// `a < b` in the lexicographic order of byte strings (as `[u8]` compares).
pub open spec fn bytes_lt(a: Seq<u8>, b: Seq<u8>) -> bool
    decreases a.len(),
{
    if a.len() == 0 {
        b.len() > 0
    } else if b.len() == 0 {
        false
    } else if a[0] < b[0] {
        true
    } else if a[0] > b[0] {
        false
    } else {
        bytes_lt(a.drop_first(), b.drop_first())
    }
}

proof fn lemma_bytes_lt_skip(a: Seq<u8>, b: Seq<u8>, i: int)
    requires
        0 <= i < a.len(),
        i < b.len(),
        a[i] == b[i],
    ensures
        bytes_lt(a.skip(i), b.skip(i)) == bytes_lt(a.skip(i + 1), b.skip(i + 1)),
{
    assert(a.skip(i).drop_first() == a.skip(i + 1));
    assert(b.skip(i).drop_first() == b.skip(i + 1));
}

/// Lexicographic comparison `a < b` of two byte strings.
pub fn slice_lt(a: &[u8], b: &[u8]) -> (r: bool)
    ensures
        r == bytes_lt(a@, b@),
{
    let mut i: usize = 0;
    assert(a@.skip(0) == a@);
    assert(b@.skip(0) == b@);
    while i < a.len() && i < b.len()
        invariant
            i <= a.len(),
            i <= b.len(),
            bytes_lt(a@, b@) == bytes_lt(a@.skip(i as int), b@.skip(i as int)),
        decreases a.len() - i,
    {
        if a[i] < b[i] {
            return true;
        }
        if a[i] > b[i] {
            return false;
        }
        proof {
            lemma_bytes_lt_skip(a@, b@, i as int);
        }
        i = i + 1;
    }
    i < b.len()
}

/// Two byte strings of the same length are either ordered one way, the
/// other way, or equal.
pub proof fn lemma_bytes_lt_total(a: Seq<u8>, b: Seq<u8>)
    requires
        a.len() == b.len(),
    ensures
        !(bytes_lt(a, b) && bytes_lt(b, a)),
        !bytes_lt(a, b) && !bytes_lt(b, a) ==> a == b,
    decreases a.len(),
{
    if a.len() > 0 && a[0] == b[0] {
        lemma_bytes_lt_total(a.drop_first(), b.drop_first());
        if a.drop_first() == b.drop_first() {
            assert(a == seq![a[0]] + a.drop_first());
            assert(b == seq![b[0]] + b.drop_first());
        }
    }
    if a.len() == 0 {
        assert(a == b);
    }
}

// ------------------------------------------------------------------
// PTK derivation and MIC
// ------------------------------------------------------------------

/// Length of the pairwise master key.
pub const PMK_LEN: usize = 32;
/// Length of the pairwise transient key (KCK + KEK + TK).
pub const PTK_LEN: usize = 48;
/// Length of a key nonce.
pub const NONCE_LEN: usize = 32;
/// Length of an EAPOL-Key MIC.
pub const MIC_LEN: usize = 16;

/// The PRF label `"Pairwise key expansion"`.
pub open spec fn ptk_label() -> Seq<u8> {
    seq![0x50u8, 0x61, 0x69, 0x72, 0x77, 0x69, 0x73, 0x65, 0x20, 0x6b, 0x65, 0x79, 0x20,
        0x65, 0x78, 0x70, 0x61, 0x6e, 0x73, 0x69, 0x6f, 0x6e]
}

/// The PRF label `"Pairwise key expansion"` as bytes.
pub fn ptk_label_bytes() -> (l: [u8; 22])
    ensures
        l@ == ptk_label(),
{
    let l: [u8; 22] = [0x50, 0x61, 0x69, 0x72, 0x77, 0x69, 0x73, 0x65, 0x20, 0x6b, 0x65, 0x79,
        0x20, 0x65, 0x78, 0x70, 0x61, 0x6e, 0x73, 0x69, 0x6f, 0x6e];
    assert(l@ == ptk_label());
    l
}

/// `Min(a, b) || Max(a, b)` in lexicographic order.
pub open spec fn min_max(a: Seq<u8>, b: Seq<u8>) -> Seq<u8> {
    if bytes_lt(a, b) { a + b } else { b + a }
}

/// PRF data of the PTK: `Min(AA,SPA) || Max(AA,SPA) || Min(ANonce,SNonce) || Max(ANonce,SNonce)`.
pub open spec fn ptk_data(aa: Seq<u8>, spa: Seq<u8>, anonce: Seq<u8>, snonce: Seq<u8>) -> Seq<u8> {
    min_max(aa, spa) + min_max(anonce, snonce)
}

/// The 48 PTK bytes: `PRF-384(PMK, "Pairwise key expansion", ptk_data)`.
pub open spec fn ptk_spec(pmk: Seq<u8>, aa: Seq<u8>, spa: Seq<u8>, anonce: Seq<u8>, snonce: Seq<u8>) -> Seq<u8> {
    prf_spec(pmk, ptk_label(), ptk_data(aa, spa, anonce, snonce), 48)
}

/// The pairwise transient key, split into its three parts.
#[derive(Clone, Copy)]
pub struct Ptk {
    /// Key confirmation key (MIC key).
    pub kck: [u8; 16],
    /// Key encryption key (key data wrapping key).
    pub kek: [u8; 16],
    /// Temporal key (CCMP data key).
    pub tk: [u8; 16],
}

impl Ptk {
    /// The PTK as the 48 bytes `KCK || KEK || TK`.
    pub open spec fn bytes(self) -> Seq<u8> {
        self.kck@ + self.kek@ + self.tk@
    }

    /// Splits 48 PTK bytes into KCK, KEK and TK.
    pub fn from_bytes(ptk_bytes: &[u8; 48]) -> (p: Self)
        ensures
            p.bytes() == ptk_bytes@,
            p.kck@ == ptk_bytes@.subrange(0, 16),
            p.kek@ == ptk_bytes@.subrange(16, 32),
            p.tk@ == ptk_bytes@.subrange(32, 48),
    {
        let mut kck = [0u8; 16];
        let mut kek = [0u8; 16];
        let mut tk = [0u8; 16];
        let mut i: usize = 0;
        while i < 16
            invariant
                i <= 16,
                forall|k: int| 0 <= k < i ==> kck@[k] == ptk_bytes@[k],
                forall|k: int| 0 <= k < i ==> kek@[k] == ptk_bytes@[k + 16],
                forall|k: int| 0 <= k < i ==> tk@[k] == ptk_bytes@[k + 32],
            decreases 16 - i,
        {
            kck[i] = ptk_bytes[i];
            kek[i] = ptk_bytes[i + 16];
            tk[i] = ptk_bytes[i + 32];
            i = i + 1;
        }
        assert(kck@ == ptk_bytes@.subrange(0, 16));
        assert(kek@ == ptk_bytes@.subrange(16, 32));
        assert(tk@ == ptk_bytes@.subrange(32, 48));
        assert(kck@ + kek@ + tk@ == ptk_bytes@);
        Ptk { kck, kek, tk }
    }
}

/// Copies `src[off..off + n]` into `dst[at..at + n]`.
pub fn copy_into(dst: &mut [u8], at: usize, src: &[u8], off: usize, n: usize)
    requires
        at + n <= old(dst)@.len(),
        off + n <= src@.len(),
    ensures
        final(dst)@.len() == old(dst)@.len(),
        final(dst)@ == old(dst)@.subrange(0, at as int) + src@.subrange(off as int, (off + n) as int)
            + old(dst)@.subrange((at + n) as int, old(dst)@.len() as int),
{
    let mut i: usize = 0;
    while i < n
        invariant
            i <= n,
            at + n <= dst.len(),
            off + n <= src.len(),
            dst@.len() == old(dst)@.len(),
            forall|k: int| 0 <= k < at ==> dst@[k] == old(dst)@[k],
            forall|k: int| at + n <= k < dst@.len() ==> dst@[k] == old(dst)@[k],
            forall|k: int| at <= k < at + i ==> dst@[k] == src@[off + k - at],
            forall|k: int| at + i <= k < at + n ==> dst@[k] == old(dst)@[k],
        decreases n - i,
    {
        dst[at + i] = src[off + i];
        i = i + 1;
    }
    assert(dst@ == old(dst)@.subrange(0, at as int) + src@.subrange(off as int, (off + n) as int)
        + old(dst)@.subrange((at + n) as int, old(dst)@.len() as int));
}

/// Derives the PTK from the PMK, both MAC addresses and both nonces.
pub fn derive_ptk(pmk: &[u8; 32], aa: &[u8; 6], spa: &[u8; 6], anonce: &[u8; 32], snonce: &[u8; 32]) -> (p: Ptk)
    ensures
        p.bytes() == ptk_spec(pmk@, aa@, spa@, anonce@, snonce@),
{
    let mut data = [0u8; 76];
    if slice_lt(aa, spa) {
        copy_into(&mut data, 0, aa, 0, 6);
        copy_into(&mut data, 6, spa, 0, 6);
    } else {
        copy_into(&mut data, 0, spa, 0, 6);
        copy_into(&mut data, 6, aa, 0, 6);
    }
    if slice_lt(anonce, snonce) {
        copy_into(&mut data, 12, anonce, 0, 32);
        copy_into(&mut data, 44, snonce, 0, 32);
    } else {
        copy_into(&mut data, 12, snonce, 0, 32);
        copy_into(&mut data, 44, anonce, 0, 32);
    }
    assert(data@ == ptk_data(aa@, spa@, anonce@, snonce@));
    let label = ptk_label_bytes();
    let ptk_bytes = prf_sha1(pmk, &label, &data, PTK_LEN);
    let mut ptk_arr = [0u8; 48];
    copy_into(&mut ptk_arr, 0, ptk_bytes.as_slice(), 0, 48);
    assert(ptk_arr@ == ptk_bytes@);
    Ptk::from_bytes(&ptk_arr)
}

/// The EAPOL-Key MIC: the first 16 bytes of HMAC-SHA1 under the KCK.
pub open spec fn mic_spec(kck: Seq<u8>, frame: Seq<u8>) -> Seq<u8> {
    Seq::new(16, |i: int| hmac_sha1_spec(kck, frame)[i])
}

/// Computes the MIC (HMAC-SHA1-128) of `eapol_frame` under `kck`.
pub fn compute_mic(kck: &[u8], eapol_frame: &[u8]) -> (mic: [u8; 16])
    ensures
        mic@ == mic_spec(kck@, eapol_frame@),
{
    let hash = hmac_sha1(kck, eapol_frame);
    let mut mic = [0u8; 16];
    copy_into(&mut mic, 0, &hash, 0, 16);
    assert(mic@ == mic_spec(kck@, eapol_frame@));
    mic
}

/// The PTK is the same whichever side calls itself authenticator: swapping
/// the two addresses together with the two nonces leaves it unchanged.
pub proof fn lemma_ptk_symmetric(pmk: Seq<u8>, aa: Seq<u8>, spa: Seq<u8>, anonce: Seq<u8>, snonce: Seq<u8>)
    requires
        aa.len() == spa.len(),
        anonce.len() == snonce.len(),
    ensures
        ptk_spec(pmk, aa, spa, anonce, snonce) == ptk_spec(pmk, spa, aa, snonce, anonce),
{
    lemma_bytes_lt_total(aa, spa);
    lemma_bytes_lt_total(anonce, snonce);
    assert(min_max(aa, spa) == min_max(spa, aa));
    assert(min_max(anonce, snonce) == min_max(snonce, anonce));
}

// ------------------------------------------------------------------
// AES key unwrap (RFC 3394)
// ------------------------------------------------------------------

/// The eight big-endian bytes of `t`.
pub open spec fn be64_bytes(t: u64) -> Seq<u8> {
    seq![(t >> 56u64) as u8, (t >> 48u64) as u8, (t >> 40u64) as u8, (t >> 32u64) as u8,
        (t >> 24u64) as u8, (t >> 16u64) as u8, (t >> 8u64) as u8, t as u8]
}

/// One unwrap step for round `j` and block `i` (of `n`): with
/// `t = n*j + i + 1`, `B = AES-1(KEK, (A ^ t) || R[i])`, then `A = MSB64(B)`
/// and `R[i] = LSB64(B)`.
pub open spec fn unwrap_step(kek: Seq<u8>, n: nat, a: Seq<u8>, r: Seq<u8>, j: nat, i: nat) -> (Seq<u8>, Seq<u8>) {
    let t = (n * j + i + 1) as u64;
    let lo = (8 * i) as int;
    let b = aes128_decrypt_spec(kek, xor_bytes(a, be64_bytes(t), 8) + r.subrange(lo, lo + 8));
    (b.subrange(0, 8), r.subrange(0, lo) + b.subrange(8, 16) + r.subrange(lo + 8, r.len() as int))
}

/// The first `m` steps of round `j`, which visit the blocks `n-1, n-2, ...`.
pub open spec fn unwrap_round(kek: Seq<u8>, n: nat, a: Seq<u8>, r: Seq<u8>, j: nat, m: nat) -> (Seq<u8>, Seq<u8>)
    decreases m,
{
    if m == 0 || m > n {
        (a, r)
    } else {
        let prev = unwrap_round(kek, n, a, r, j, (m - 1) as nat);
        unwrap_step(kek, n, prev.0, prev.1, j, (n - m) as nat)
    }
}

/// The first `k` of the six rounds, which run `j = 5, 4, ..., 0`.
pub open spec fn unwrap_rounds(kek: Seq<u8>, n: nat, a: Seq<u8>, r: Seq<u8>, k: nat) -> (Seq<u8>, Seq<u8>)
    decreases k,
{
    if k == 0 || k > 6 {
        (a, r)
    } else {
        let prev = unwrap_rounds(kek, n, a, r, (k - 1) as nat);
        unwrap_round(kek, n, prev.0, prev.1, (6 - k) as nat, n)
    }
}

/// The default initial value `A6A6A6A6A6A6A6A6`.
pub open spec fn default_iv() -> Seq<u8> {
    seq![0xA6u8, 0xA6, 0xA6, 0xA6, 0xA6, 0xA6, 0xA6, 0xA6]
}

/// RFC 3394 key unwrap: `None` when the input is not a multiple of 8 bytes
/// of at least 16 bytes, or when the integrity check fails.
pub open spec fn aes_unwrap_spec(kek: Seq<u8>, wrapped: Seq<u8>) -> Option<Seq<u8>> {
    if wrapped.len() < 16 || wrapped.len() % 8 != 0 {
        None
    } else {
        let n = (wrapped.len() / 8 - 1) as nat;
        let res = unwrap_rounds(kek, n, wrapped.subrange(0, 8), wrapped.subrange(8, wrapped.len() as int), 6);
        if res.0 == default_iv() {
            Some(res.1)
        } else {
            None
        }
    }
}

/// One unwrap step on `a` and `r` in place.
fn unwrap_step_exec(cipher_key: &[u8; 16], n: usize, a: &mut [u8; 8], r: &mut Vec<u8>, j: u64, i: usize)
    requires
        i < n,
        j <= 5,
        old(r)@.len() == 8 * n,
    ensures
        final(r)@.len() == 8 * n,
        (final(a)@, final(r)@) == unwrap_step(cipher_key@, n as nat, old(a)@, old(r)@, j as nat, i as nat),
{
    assert(r.len() == 8 * n);
    proof {
        assert(n * j <= n * 5) by (nonlinear_arith) requires j <= 5;
        assert(8 * i + 8 <= 8 * n) by (nonlinear_arith) requires i < n;
        assert(8 * n <= u64::MAX);
    }
    let t: u64 = (n as u64) * j + (i as u64) + 1;
    let tb: [u8; 8] = [(t >> 56u64) as u8, (t >> 48u64) as u8, (t >> 40u64) as u8, (t >> 32u64) as u8,
        (t >> 24u64) as u8, (t >> 16u64) as u8, (t >> 8u64) as u8, t as u8];
    assert(tb@ == be64_bytes((n * j + i + 1) as u64));
    let mut block = [0u8; 16];
    let mut k: usize = 0;
    while k < 8
        invariant
            k <= 8,
            8 * i + 8 <= r@.len(),
            r.len() == 8 * n,
            forall|q: int| 0 <= q < k ==> block@[q] == a@[q] ^ tb@[q],
            forall|q: int| 8 <= q < 8 + k ==> block@[q] == r@[8 * i + q - 8],
        decreases 8 - k,
    {
        block[k] = a[k] ^ tb[k];
        block[k + 8] = r[8 * i + k];
        k = k + 1;
    }
    assert(block@ == xor_bytes(a@, tb@, 8) + r@.subrange(8 * i, 8 * i + 8));
    let b = aes128_decrypt_block(cipher_key, &block);
    let ghost r0 = r@;
    k = 0;
    while k < 8
        invariant
            k <= 8,
            r0.len() == 8 * n,
            8 * i + 8 <= 8 * n,
            r@.len() == 8 * n,
            r.len() == 8 * n,
            forall|q: int| 0 <= q < k ==> a@[q] == b@[q],
            forall|q: int| 0 <= q < 8 * n ==> r@[q] == if 8 * i <= q < 8 * i + k {
                b@[q - 8 * i + 8]
            } else {
                r0[q]
            },
        decreases 8 - k,
    {
        a[k] = b[k];
        r.set(8 * i + k, b[k + 8]);
        k = k + 1;
    }
    assert(a@ == b@.subrange(0, 8));
    assert(r@ == r0.subrange(0, 8 * i) + b@.subrange(8, 16) + r0.subrange(8 * i + 8, r0.len() as int));
}

/// AES key unwrap (RFC 3394) of `wrapped` under the 16-byte `kek`.
pub fn aes_key_unwrap(kek: &[u8], wrapped: &[u8]) -> (res: Result<Vec<u8>, WpaError>)
    requires
        kek@.len() == 16,
    ensures
        match aes_unwrap_spec(kek@, wrapped@) {
            Some(plain) => res matches Ok(v) && v@ == plain,
            None => res == Err::<Vec<u8>, WpaError>(WpaError::AesUnwrapFailed),
        },
{
    if wrapped.len() < 16 || wrapped.len() % 8 != 0 {
        return Err(WpaError::AesUnwrapFailed);
    }
    let n = (wrapped.len() / 8) - 1;
    let mut key = [0u8; 16];
    copy_into(&mut key, 0, kek, 0, 16);
    assert(key@ == kek@);
    let mut a = [0u8; 8];
    copy_into(&mut a, 0, wrapped, 0, 8);
    assert(a@ == wrapped@.subrange(0, 8));
    let mut r: Vec<u8> = Vec::new();
    let mut q: usize = 8;
    while q < wrapped.len()
        invariant
            8 <= q <= wrapped.len(),
            r@ == wrapped@.subrange(8, q as int),
        decreases wrapped.len() - q,
    {
        r.push(wrapped[q]);
        q = q + 1;
    }
    let ghost a0 = a@;
    let ghost r0 = r@;
    let mut round: u64 = 0;
    while round < 6
        invariant
            round <= 6,
            n == wrapped@.len() / 8 - 1,
            r@.len() == 8 * n,
            (a@, r@) == unwrap_rounds(key@, n as nat, a0, r0, round as nat),
        decreases 6 - round,
    {
        let j: u64 = 5 - round;
        let ghost a_start = a@;
        let ghost r_start = r@;
        let mut m: usize = 0;
        while m < n
            invariant
                m <= n,
                j <= 5,
                r@.len() == 8 * n,
                (a@, r@) == unwrap_round(key@, n as nat, a_start, r_start, j as nat, m as nat),
            decreases n - m,
        {
            let i = n - 1 - m;
            unwrap_step_exec(&key, n, &mut a, &mut r, j, i);
            m = m + 1;
        }
        round = round + 1;
    }
    let iv: [u8; 8] = [0xA6, 0xA6, 0xA6, 0xA6, 0xA6, 0xA6, 0xA6, 0xA6];
    assert(iv@ == default_iv());
    let mut same = true;
    let mut k: usize = 0;
    while k < 8
        invariant
            k <= 8,
            same <==> (forall|q: int| 0 <= q < k ==> a@[q] == iv@[q]),
        decreases 8 - k,
    {
        if a[k] != iv[k] {
            same = false;
        }
        k = k + 1;
    }
    if !same {
        assert(a@ != default_iv());
        return Err(WpaError::AesUnwrapFailed);
    }
    assert(a@ == default_iv());
    Ok(r)
}

} // verus!
