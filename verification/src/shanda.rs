//! The client's custom byte cipher ("Shanda"): three rounds, each a forward
//! and a backward pass that chain every byte into a running accumulator.
use vstd::prelude::*;

verus! {

// ---------------------------------------------------------------------------
// Byte-level model
// ---------------------------------------------------------------------------

/// Rotates a byte left by `count % 8` bits.
pub open spec fn spec_rotl(byte: u8, count: u32) -> u8 {
    let c = count % 8;
    if c > 0 {
        (byte << c) | (byte >> ((8 - c) as u32))
    } else {
        byte
    }
}

/// Rotates a byte right by `count % 8` bits.
pub open spec fn spec_rotr(byte: u8, count: u32) -> u8 {
    let c = count % 8;
    if c > 0 {
        (byte >> c) | (byte << ((8 - c) as u32))
    } else {
        byte
    }
}

/// Adds an index to a byte, modulo 256.
pub open spec fn add8(x: u8, j: int) -> u8 {
    ((x + j) % 256) as u8
}

/// Subtracts an index from a byte, modulo 256.
pub open spec fn sub8(x: u8, j: int) -> u8 {
    ((x - j) % 256) as u8
}

/// Rotating a byte right undoes rotating it left by the same count, and the
/// other way round; rotating right is rotating left by the rest of the byte.
pub proof fn lemma_rot_inverse(x: u8, c: u32)
    ensures
        spec_rotr(spec_rotl(x, c), c) == x,
        spec_rotl(spec_rotr(x, c), c) == x,
        spec_rotr(x, c) == spec_rotl(x, ((8 - c % 8) % 8) as u32),
{
    let m = c % 8;
    assert(m < 8);
    if m > 0 {
        assert(0 < m < 8 ==> ((((x << m) | (x >> ((8 - m) as u32))) >> m) | (((x << m) | (x >> ((8
            - m) as u32))) << ((8 - m) as u32))) == x) by (bit_vector);
        assert(0 < m < 8 ==> ((((x >> m) | (x << ((8 - m) as u32))) << m) | (((x >> m) | (x << ((8
            - m) as u32))) >> ((8 - m) as u32))) == x) by (bit_vector);
        let k: u32 = ((8 - m) % 8) as u32;
        assert(k == 8 - m);
        assert(k % 8 == k);
        assert(0 < m < 8 ==> (x >> m) | (x << ((8 - m) as u32)) == (x << ((8 - m) as u32)) | (x >> m))
            by (bit_vector);
        assert(((8 - k) as u32) == m);
    } else {
        assert(((8 - c % 8) % 8) as u32 == 0);
    }
}

proof fn lemma_xor_cancel(x: u8, y: u8)
    ensures
        (x ^ y) ^ y == x,
        (x ^ y) ^ x == y,
        x ^ 0 == x,
{
    assert((x ^ y) ^ y == x) by (bit_vector);
    assert((x ^ y) ^ x == y) by (bit_vector);
    assert(x ^ 0 == x) by (bit_vector);
}

proof fn lemma_add_sub_inverse(x: u8, j: int)
    ensures
        sub8(add8(x, j), j) == x,
        add8(sub8(x, j), j) == x,
{
    vstd::arithmetic::div_mod::lemma_sub_mod_noop(x + j, j, 256);
    vstd::arithmetic::div_mod::lemma_add_mod_noop(x - j, j, 256);
    vstd::arithmetic::div_mod::lemma_mod_twice(j, 256);
    vstd::arithmetic::div_mod::lemma_small_mod(x as nat, 256);
    assert(((x + j) % 256 - j) % 256 == ((x + j) - j) % 256) by {
        vstd::arithmetic::div_mod::lemma_sub_mod_noop_right((x + j) % 256, j, 256);
        vstd::arithmetic::div_mod::lemma_sub_mod_noop(x + j, j, 256);
        vstd::arithmetic::div_mod::lemma_mod_twice(x + j, 256);
    }
    assert(((x - j) % 256 + j) % 256 == ((x - j) + j) % 256) by {
        vstd::arithmetic::div_mod::lemma_add_mod_noop(x - j, j, 256);
        vstd::arithmetic::div_mod::lemma_add_mod_noop((x - j) % 256, j, 256);
        vstd::arithmetic::div_mod::lemma_mod_twice(x - j, 256);
    }
}


// ---------------------------------------------------------------------------
// Sequence-level model of the four passes
// ---------------------------------------------------------------------------

/// Accumulator of the first encryption pass after its first `m` bytes.
pub open spec fn enc_fwd_acc(s: Seq<u8>, m: nat) -> u8
    decreases m,
{
    if m == 0 {
        0
    } else {
        let k = m - 1;
        add8(spec_rotl(s[k], 3), s.len() - k) ^ enc_fwd_acc(s, (m - 1) as nat)
    }
}

/// First encryption pass: front to back, byte `k` is chained with all bytes before it.
pub open spec fn enc_fwd(s: Seq<u8>) -> Seq<u8> {
    Seq::new(
        s.len(),
        |k: int|
            add8(spec_rotr(enc_fwd_acc(s, (k + 1) as nat), (s.len() - k) as u32) ^ 0xFF, 0x48),
    )
}

/// Accumulator of the second encryption pass once it has reached index `i`.
pub open spec fn enc_bwd_acc(s: Seq<u8>, i: int) -> u8
    decreases s.len() - i,
{
    if i < 0 || i >= s.len() {
        0
    } else {
        add8(spec_rotl(s[i], 4), i + 1) ^ enc_bwd_acc(s, i + 1)
    }
}

/// Second encryption pass: back to front, byte `i` is chained with all bytes after it.
pub open spec fn enc_bwd(s: Seq<u8>) -> Seq<u8> {
    Seq::new(s.len(), |i: int| spec_rotr(enc_bwd_acc(s, i) ^ 0x13, 3))
}

/// The value the first decryption pass recovers at index `i` (zero past the end).
pub open spec fn dec_bwd_key(s: Seq<u8>, i: int) -> u8 {
    if 0 <= i < s.len() {
        spec_rotl(s[i], 3) ^ 0x13
    } else {
        0
    }
}

/// First decryption pass: undoes `enc_bwd`.
pub open spec fn dec_bwd(s: Seq<u8>) -> Seq<u8> {
    Seq::new(
        s.len(),
        |i: int| spec_rotr(sub8(dec_bwd_key(s, i) ^ dec_bwd_key(s, i + 1), i + 1), 4),
    )
}

/// The value the second decryption pass recovers at index `k` (zero before the start).
pub open spec fn dec_fwd_key(s: Seq<u8>, k: int) -> u8 {
    if 0 <= k < s.len() {
        spec_rotl(sub8(s[k], 0x48) ^ 0xFF, (s.len() - k) as u32)
    } else {
        0
    }
}

/// Second decryption pass: undoes `enc_fwd`.
pub open spec fn dec_fwd(s: Seq<u8>) -> Seq<u8> {
    Seq::new(
        s.len(),
        |k: int| spec_rotr(sub8(dec_fwd_key(s, k) ^ dec_fwd_key(s, k - 1), s.len() - k), 3),
    )
}

/// One encryption round.
pub open spec fn enc_round(s: Seq<u8>) -> Seq<u8> {
    enc_bwd(enc_fwd(s))
}

/// One decryption round.
pub open spec fn dec_round(s: Seq<u8>) -> Seq<u8> {
    dec_fwd(dec_bwd(s))
}

/// What `encrypt` makes of a buffer: three encryption rounds.
pub open spec fn spec_encrypt(s: Seq<u8>) -> Seq<u8> {
    enc_round(enc_round(enc_round(s)))
}

/// What `decrypt` makes of a buffer: three decryption rounds.
pub open spec fn spec_decrypt(s: Seq<u8>) -> Seq<u8> {
    dec_round(dec_round(dec_round(s)))
}


// ---------------------------------------------------------------------------
// Each decryption pass undoes the matching encryption pass, and vice versa
// ---------------------------------------------------------------------------

proof fn lemma_dec_bwd_key_of_enc_bwd(s: Seq<u8>, j: int)
    requires
        0 <= j <= s.len(),
    ensures
        dec_bwd_key(enc_bwd(s), j) == enc_bwd_acc(s, j),
{
    if j < s.len() {
        let acc = enc_bwd_acc(s, j);
        lemma_rot_inverse(acc ^ 0x13, 3);
        lemma_xor_cancel(acc, 0x13);
    }
}

proof fn lemma_dec_bwd_enc_bwd(s: Seq<u8>)
    ensures
        dec_bwd(enc_bwd(s)) == s,
{
    let t = enc_bwd(s);
    assert forall|i: int| 0 <= i < s.len() implies #[trigger] dec_bwd(t)[i] == s[i] by {
        lemma_dec_bwd_key_of_enc_bwd(s, i);
        lemma_dec_bwd_key_of_enc_bwd(s, i + 1);
        let x = add8(spec_rotl(s[i], 4), i + 1);
        lemma_xor_cancel(x, enc_bwd_acc(s, i + 1));
        lemma_add_sub_inverse(spec_rotl(s[i], 4), i + 1);
        lemma_rot_inverse(s[i], 4);
    }
    assert(dec_bwd(t) =~= s);
}

proof fn lemma_enc_bwd_acc_of_dec_bwd(s: Seq<u8>, i: int)
    requires
        0 <= i <= s.len(),
    ensures
        enc_bwd_acc(dec_bwd(s), i) == dec_bwd_key(s, i),
    decreases s.len() - i,
{
    let t = dec_bwd(s);
    if i < s.len() {
        lemma_enc_bwd_acc_of_dec_bwd(s, i + 1);
        let k = dec_bwd_key(s, i);
        let k1 = dec_bwd_key(s, i + 1);
        let y = sub8(k ^ k1, i + 1);
        lemma_rot_inverse(y, 4);
        lemma_add_sub_inverse(k ^ k1, i + 1);
        lemma_xor_cancel(k, k1);
        assert((k ^ k1) ^ k1 == k);
    }
}

proof fn lemma_enc_bwd_dec_bwd(s: Seq<u8>)
    ensures
        enc_bwd(dec_bwd(s)) == s,
{
    let t = dec_bwd(s);
    assert forall|i: int| 0 <= i < s.len() implies #[trigger] enc_bwd(t)[i] == s[i] by {
        lemma_enc_bwd_acc_of_dec_bwd(s, i);
        lemma_xor_cancel(spec_rotl(s[i], 3), 0x13);
        lemma_rot_inverse(s[i], 3);
    }
    assert(enc_bwd(t) =~= s);
}

proof fn lemma_dec_fwd_key_of_enc_fwd(s: Seq<u8>, k: int)
    requires
        -1 <= k < s.len(),
    ensures
        dec_fwd_key(enc_fwd(s), k) == enc_fwd_acc(s, (k + 1) as nat),
{
    if k >= 0 {
        let a = enc_fwd_acc(s, (k + 1) as nat);
        let c = (s.len() - k) as u32;
        let r = spec_rotr(a, c);
        lemma_add_sub_inverse(r ^ 0xFF, 0x48);
        lemma_xor_cancel(r, 0xFF);
        lemma_rot_inverse(a, c);
    }
}

proof fn lemma_dec_fwd_enc_fwd(s: Seq<u8>)
    ensures
        dec_fwd(enc_fwd(s)) == s,
{
    let t = enc_fwd(s);
    assert forall|k: int| 0 <= k < s.len() implies #[trigger] dec_fwd(t)[k] == s[k] by {
        lemma_dec_fwd_key_of_enc_fwd(s, k);
        lemma_dec_fwd_key_of_enc_fwd(s, k - 1);
        let x = add8(spec_rotl(s[k], 3), s.len() - k);
        lemma_xor_cancel(x, enc_fwd_acc(s, k as nat));
        lemma_add_sub_inverse(spec_rotl(s[k], 3), s.len() - k);
        lemma_rot_inverse(s[k], 3);
    }
    assert(dec_fwd(t) =~= s);
}

proof fn lemma_enc_fwd_acc_of_dec_fwd(s: Seq<u8>, m: nat)
    requires
        m <= s.len(),
    ensures
        enc_fwd_acc(dec_fwd(s), m) == dec_fwd_key(s, m - 1),
    decreases m,
{
    if m > 0 {
        let k = m - 1;
        lemma_enc_fwd_acc_of_dec_fwd(s, (m - 1) as nat);
        let kk = dec_fwd_key(s, k);
        let kp = dec_fwd_key(s, k - 1);
        let y = sub8(kk ^ kp, s.len() - k);
        lemma_rot_inverse(y, 3);
        lemma_add_sub_inverse(kk ^ kp, s.len() - k);
        lemma_xor_cancel(kk, kp);
    }
}

proof fn lemma_enc_fwd_dec_fwd(s: Seq<u8>)
    ensures
        enc_fwd(dec_fwd(s)) == s,
{
    let t = dec_fwd(s);
    assert forall|k: int| 0 <= k < s.len() implies #[trigger] enc_fwd(t)[k] == s[k] by {
        lemma_enc_fwd_acc_of_dec_fwd(s, (k + 1) as nat);
        let c = (s.len() - k) as u32;
        let y = sub8(s[k], 0x48) ^ 0xFF;
        lemma_rot_inverse(y, c);
        lemma_xor_cancel(sub8(s[k], 0x48), 0xFF);
        lemma_add_sub_inverse(s[k], 0x48);
    }
    assert(enc_fwd(t) =~= s);
}


/// Decrypting an encrypted buffer gives back the bytes it started from.
pub proof fn lemma_decrypt_encrypt(s: Seq<u8>)
    ensures
        spec_decrypt(spec_encrypt(s)) == s,
{
    let r1 = enc_round(s);
    let r2 = enc_round(r1);
    let r3 = enc_round(r2);
    lemma_dec_bwd_enc_bwd(enc_fwd(r2));
    lemma_dec_fwd_enc_fwd(r2);
    lemma_dec_bwd_enc_bwd(enc_fwd(r1));
    lemma_dec_fwd_enc_fwd(r1);
    lemma_dec_bwd_enc_bwd(enc_fwd(s));
    lemma_dec_fwd_enc_fwd(s);
}

/// Encrypting a decrypted buffer gives back the bytes it started from.
pub proof fn lemma_encrypt_decrypt(s: Seq<u8>)
    ensures
        spec_encrypt(spec_decrypt(s)) == s,
{
    let r1 = dec_round(s);
    let r2 = dec_round(r1);
    lemma_enc_fwd_dec_fwd(dec_bwd(r2));
    lemma_enc_bwd_dec_bwd(r2);
    lemma_enc_fwd_dec_fwd(dec_bwd(r1));
    lemma_enc_bwd_dec_bwd(r1);
    lemma_enc_fwd_dec_fwd(dec_bwd(s));
    lemma_enc_bwd_dec_bwd(s);
}

/// Both directions keep the buffer's length.
pub proof fn lemma_cipher_keeps_length(s: Seq<u8>)
    ensures
        spec_encrypt(s).len() == s.len(),
        spec_decrypt(s).len() == s.len(),
{
}

// ---------------------------------------------------------------------------
// Executable cipher
// ---------------------------------------------------------------------------

/// Roll a byte left count times
pub fn rotl(byte: u8, count: u32) -> (r: u8)
    ensures
        r == spec_rotl(byte, count),
{
    let count = count % 8;
    if count > 0 {
        (byte << count) | (byte >> (8 - count))
    } else {
        byte
    }
}

/// Roll a byte right count times
pub fn rotr(byte: u8, count: u32) -> (r: u8)
    ensures
        r == spec_rotr(byte, count),
{
    let count = count % 8;
    if count > 0 {
        (byte >> count) | (byte << (8 - count))
    } else {
        byte
    }
}

/// Adds an index to a byte with wrap-around.
fn add_index(c: u8, j: usize) -> (r: u8)
    ensures
        r == add8(c, j as int),
{
    proof {
        vstd::arithmetic::div_mod::lemma_add_mod_noop_right(c as int, j as int, 256);
    }
    c.wrapping_add((j % 256) as u8)
}

/// Subtracts an index from a byte with wrap-around.
fn sub_index(c: u8, j: usize) -> (r: u8)
    ensures
        r == sub8(c, j as int),
{
    proof {
        vstd::arithmetic::div_mod::lemma_sub_mod_noop_right(c as int, j as int, 256);
    }
    c.wrapping_sub((j % 256) as u8)
}

fn encrypt_forward(data: &mut [u8])
    ensures
        final(data)@ == enc_fwd(old(data)@),
{
    let size: usize = data.len();
    let ghost s = data@;
    let mut a: u8 = 0;
    let mut k: usize = 0;
    while k < size
        invariant
            size == s.len(),
            data@.len() == size,
            k <= size,
            a == enc_fwd_acc(s, k as nat),
            forall|i: int| 0 <= i < k ==> data@[i] == #[trigger] enc_fwd(s)[i],
            forall|i: int| k <= i < size ==> data@[i] == #[trigger] s[i],
        decreases size - k,
    {
        let j: usize = size - k;
        let mut c: u8 = data[k];
        c = rotl(c, 3);
        c = add_index(c, j);
        c ^= a;
        a = c;
        c = rotr(a, j as u32);
        c ^= 0xFF;
        c = add_index(c, 0x48);
        data[k] = c;
        k += 1;
    }
    assert(data@ =~= enc_fwd(s));
}

fn encrypt_backward(data: &mut [u8])
    ensures
        final(data)@ == enc_bwd(old(data)@),
{
    let size: usize = data.len();
    let ghost s = data@;
    let mut a: u8 = 0;
    let mut j: usize = size;
    while j > 0
        invariant
            size == s.len(),
            data@.len() == size,
            j <= size,
            a == enc_bwd_acc(s, j as int),
            forall|i: int| j <= i < size ==> data@[i] == #[trigger] enc_bwd(s)[i],
            forall|i: int| 0 <= i < j ==> data@[i] == #[trigger] s[i],
        decreases j,
    {
        let mut c: u8 = data[j - 1];
        c = rotl(c, 4);
        c = add_index(c, j);
        c ^= a;
        a = c;
        c ^= 0x13;
        c = rotr(c, 3);
        data[j - 1] = c;
        j -= 1;
    }
    assert(data@ =~= enc_bwd(s));
}

fn decrypt_backward(data: &mut [u8])
    ensures
        final(data)@ == dec_bwd(old(data)@),
{
    let size: usize = data.len();
    let ghost s = data@;
    let mut b: u8 = 0;
    let mut j: usize = size;
    while j > 0
        invariant
            size == s.len(),
            data@.len() == size,
            j <= size,
            b == dec_bwd_key(s, j as int),
            forall|i: int| j <= i < size ==> data@[i] == #[trigger] dec_bwd(s)[i],
            forall|i: int| 0 <= i < j ==> data@[i] == #[trigger] s[i],
        decreases j,
    {
        let mut c: u8 = data[j - 1];
        c = rotl(c, 3);
        c ^= 0x13;
        let a: u8 = c;
        c ^= b;
        c = sub_index(c, j);
        c = rotr(c, 4);
        b = a;
        data[j - 1] = c;
        j -= 1;
    }
    assert(data@ =~= dec_bwd(s));
}

fn decrypt_forward(data: &mut [u8])
    ensures
        final(data)@ == dec_fwd(old(data)@),
{
    let size: usize = data.len();
    let ghost s = data@;
    let mut b: u8 = 0;
    let mut k: usize = 0;
    while k < size
        invariant
            size == s.len(),
            data@.len() == size,
            k <= size,
            b == dec_fwd_key(s, k - 1),
            forall|i: int| 0 <= i < k ==> data@[i] == #[trigger] dec_fwd(s)[i],
            forall|i: int| k <= i < size ==> data@[i] == #[trigger] s[i],
        decreases size - k,
    {
        let j: usize = size - k;
        let mut c: u8 = data[k];
        c = sub_index(c, 0x48);
        c ^= 0xFF;
        c = rotl(c, j as u32);
        let a: u8 = c;
        c ^= b;
        c = sub_index(c, j);
        c = rotr(c, 3);
        b = a;
        data[k] = c;
        k += 1;
    }
    assert(data@ =~= dec_fwd(s));
}

/// Encrypt bytes using Maplestory's custom encryption algorithm.
pub fn encrypt(data: &mut [u8])
    ensures
        final(data)@ == spec_encrypt(old(data)@),
{
    let mut round: usize = 0;
    while round < 3
        invariant
            round <= 3,
            data@ == (if round == 0 {
                old(data)@
            } else if round == 1 {
                enc_round(old(data)@)
            } else if round == 2 {
                enc_round(enc_round(old(data)@))
            } else {
                spec_encrypt(old(data)@)
            }),
        decreases 3 - round,
    {
        encrypt_forward(data);
        encrypt_backward(data);
        round += 1;
    }
}

/// Decrypt bytes encrypted with Maplestory's custom encryption algorithm.
pub fn decrypt(data: &mut [u8])
    ensures
        final(data)@ == spec_decrypt(old(data)@),
{
    let mut round: usize = 0;
    while round < 3
        invariant
            round <= 3,
            data@ == (if round == 0 {
                old(data)@
            } else if round == 1 {
                dec_round(old(data)@)
            } else if round == 2 {
                dec_round(dec_round(old(data)@))
            } else {
                spec_decrypt(old(data)@)
            }),
        decreases 3 - round,
    {
        decrypt_backward(data);
        decrypt_forward(data);
        round += 1;
    }
}

} // verus!
