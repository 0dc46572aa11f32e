use vstd::prelude::*;
use byteorder::{ByteOrder, LittleEndian};
use rand::rngs::ThreadRng;
use super::errors::MysqlError;

verus! {

/// The value of a little-endian byte string.
pub open spec fn le_value(s: Seq<u8>) -> nat
    decreases s.len(),
{
    if s.len() == 0 {
        0
    } else {
        s[0] as nat + 256 * le_value(s.drop_first())
    }
}

/// The `n` low-order bytes of `x`, least significant first.
pub open spec fn le_bytes(x: nat, n: nat) -> Seq<u8>
    decreases n,
{
    if n == 0 {
        Seq::empty()
    } else {
        seq![(x % 256) as u8] + le_bytes(x / 256, (n - 1) as nat)
    }
}

/// MySQL's length-encoded integer of `x`.
pub open spec fn spec_lenenc(x: u64) -> Seq<u8> {
    if x < 251 {
        seq![x as u8]
    } else if x < 65_536 {
        seq![0xfcu8] + le_bytes(x as nat, 2)
    } else if x < 16_777_216 {
        seq![0xfdu8] + le_bytes(x as nat, 3)
    } else {
        seq![0xfeu8] + le_bytes(x as nat, 8)
    }
}

/// What reading a length-encoded integer at the front of `data` gives:
/// the number of bytes it took and its value, `(0, 0)` when `data` does not
/// start with a complete one.
pub open spec fn spec_read_lenenc(data: Seq<u8>) -> (int, u64) {
    if data.len() < 1 {
        (0, 0)
    } else if data[0] < 0xfc {
        (1, data[0] as u64)
    } else if data[0] == 0xfc && data.len() >= 3 {
        (3, le_value(data.subrange(1, 3)) as u64)
    } else if data[0] == 0xfd && data.len() >= 4 {
        (4, le_value(data.subrange(1, 4)) as u64)
    } else if data[0] == 0xfe && data.len() >= 9 {
        (9, le_value(data.subrange(1, 9)) as u64)
    } else {
        (0, 0)
    }
}

pub proof fn lemma_le_bytes_len(x: nat, n: nat)
    ensures
        le_bytes(x, n).len() == n,
    decreases n,
{
    if n > 0 {
        lemma_le_bytes_len(x / 256, (n - 1) as nat);
    }
}

pub proof fn lemma_le_value_of_bytes(x: nat, n: nat)
    ensures
        le_value(le_bytes(x, n)) == (x as int) % vstd::arithmetic::power::pow(256, n),
    decreases n,
{
    vstd::arithmetic::power::lemma_pow_positive(256, n);
    if n == 0 {
        vstd::arithmetic::power::lemma_pow0(256);
    } else {
        let m = (n - 1) as nat;
        lemma_le_value_of_bytes(x / 256, m);
        lemma_le_bytes_len(x / 256, m);
        let s = le_bytes(x, n);
        assert(s.drop_first() =~= le_bytes(x / 256, m));
        vstd::arithmetic::power::lemma_pow_positive(256, m);
        let p = vstd::arithmetic::power::pow(256, m);
        vstd::arithmetic::power::lemma_pow_adds(256, 1, m);
        vstd::arithmetic::power::lemma_pow1(256);
        // x % (256 * p) == x % 256 + 256 * ((x / 256) % p)
        vstd::arithmetic::div_mod::lemma_breakdown(x as int, 256, p as int);
    }
}

pub proof fn lemma_le_value_subrange_bound(s: Seq<u8>)
    ensures
        le_value(s) < vstd::arithmetic::power::pow(256, s.len()),
    decreases s.len(),
{
    if s.len() == 0 {
        vstd::arithmetic::power::lemma_pow0(256);
    } else {
        lemma_le_value_subrange_bound(s.drop_first());
        vstd::arithmetic::power::lemma_pow_adds(256, 1, (s.len() - 1) as nat);
        vstd::arithmetic::power::lemma_pow1(256);
    }
}

/// Reads a little-endian `u64` from the first `nbytes` bytes of `buf`.
#[verifier::external_body]
pub(crate) fn le_read_uint(buf: &[u8], nbytes: usize) -> (r: u64)
    requires
        1 <= nbytes <= 8,
        nbytes <= buf@.len(),
    ensures
        r as nat == le_value(buf@.subrange(0, nbytes as int)),
{
    LittleEndian::read_uint(buf, nbytes)
}

/// Reads a little-endian `u16` from the first two bytes of `buf`.
#[verifier::external_body]
pub(crate) fn le_read_u16(buf: &[u8]) -> (r: u16)
    requires
        buf@.len() >= 2,
    ensures
        r as nat == le_value(buf@.subrange(0, 2)),
{
    LittleEndian::read_u16(buf)
}

/// Writes `n` in four little-endian bytes.
#[verifier::external_body]
pub(crate) fn le_write_u32(n: u32) -> (r: [u8; 4])
    ensures
        r@ == le_bytes(n as nat, 4),
{
    let mut buf = [0u8; 4];
    LittleEndian::write_u32(&mut buf, n);
    buf
}

/// Appends `data[start..end]` to `out`.
pub fn append_slice(out: &mut Vec<u8>, data: &[u8], start: usize, end: usize)
    requires
        start <= end <= data@.len(),
    ensures
        final(out)@ == old(out)@ + data@.subrange(start as int, end as int),
{
    let mut i = start;
    while i < end
        invariant
            start <= i <= end,
            end <= data@.len(),
            out@ == old(out)@ + data@.subrange(start as int, i as int),
        decreases end - i,
    {
        out.push(data[i]);
        proof {
            assert(data@.subrange(start as int, i + 1) =~= data@.subrange(start as int, i as int).push(data@[i as int]));
        }
        i += 1;
    }
}

/// Whether two byte strings are equal.
pub fn bytes_eq(a: &[u8], b: &[u8]) -> (r: bool)
    ensures
        r == (a@ == b@),
{
    if a.len() != b.len() {
        return false;
    }
    let mut i: usize = 0;
    while i < a.len()
        invariant
            i <= a@.len(),
            a@.len() == b@.len(),
            a@.subrange(0, i as int) == b@.subrange(0, i as int),
        decreases a@.len() - i,
    {
        if a[i] != b[i] {
            proof {
                assert(a@[i as int] != b@[i as int]);
            }
            return false;
        }
        proof {
            assert(a@.subrange(0, i + 1) =~= a@.subrange(0, i as int).push(a@[i as int]));
            assert(b@.subrange(0, i + 1) =~= b@.subrange(0, i as int).push(b@[i as int]));
        }
        i += 1;
    }
    proof {
        assert(a@.subrange(0, a@.len() as int) =~= a@);
        assert(b@.subrange(0, b@.len() as int) =~= b@);
    }
    true
}

/// Writes MySQL's length-encoded integer.
pub fn write_length_encoded_int(x: u64) -> (encoded: Vec<u8>)
    ensures
        encoded@ == spec_lenenc(x),
{
    let mut encoded_i: Vec<u8> = Vec::new();
    if x < 251 {
        encoded_i.push(#[verifier::truncate] (x as u8));
    } else if x < 65_536 {
        encoded_i.push(0xfc);
        encoded_i.push(#[verifier::truncate] (x as u8));
        encoded_i.push(#[verifier::truncate] ((x >> 8) as u8));
        
    } else if x < 16_777_216 {
        encoded_i.push(0xfd);
        encoded_i.push(#[verifier::truncate] (x as u8));
        encoded_i.push(#[verifier::truncate] ((x >> 8) as u8));
        encoded_i.push(#[verifier::truncate] ((x >> 16) as u8));
        
    } else {
        encoded_i.push(0xfe);
        encoded_i.push(#[verifier::truncate] (x as u8));
        encoded_i.push(#[verifier::truncate] ((x >> 8) as u8));
        encoded_i.push(#[verifier::truncate] ((x >> 16) as u8));
        encoded_i.push(#[verifier::truncate] ((x >> 24) as u8));
        encoded_i.push(#[verifier::truncate] ((x >> 32) as u8));
        encoded_i.push(#[verifier::truncate] ((x >> 40) as u8));
        encoded_i.push(#[verifier::truncate] ((x >> 48) as u8));
        encoded_i.push(#[verifier::truncate] ((x >> 56) as u8));
        
    }
    proof {
        reveal_le_bytes(x);
        assert(encoded_i@ =~= spec_lenenc(x));
    }
    encoded_i
}

/// The low-order bytes of `x`, least significant first, are its shifted bytes.
proof fn reveal_le_bytes(x: u64)
    ensures
        le_bytes(x as nat, 2) == seq![x as u8, (x >> 8) as u8],
        le_bytes(x as nat, 3) == seq![x as u8, (x >> 8) as u8, (x >> 16) as u8],
        le_bytes(x as nat, 8) == seq![
            x as u8, (x >> 8) as u8, (x >> 16) as u8, (x >> 24) as u8,
            (x >> 32) as u8, (x >> 40) as u8, (x >> 48) as u8, (x >> 56) as u8,
        ],
{
    reveal_with_fuel(le_bytes, 9);
    assert(x as u8 == (x % 256) as u8) by (bit_vector);
    assert((x >> 8) as u8 == ((x / 256) % 256) as u8) by (bit_vector);
    assert((x >> 16) as u8 == ((x / 256 / 256) % 256) as u8) by (bit_vector);
    assert((x >> 24) as u8 == ((x / 256 / 256 / 256) % 256) as u8) by (bit_vector);
    assert((x >> 32) as u8 == ((x / 256 / 256 / 256 / 256) % 256) as u8) by (bit_vector);
    assert((x >> 40) as u8 == ((x / 256 / 256 / 256 / 256 / 256) % 256) as u8) by (bit_vector);
    assert((x >> 48) as u8 == ((x / 256 / 256 / 256 / 256 / 256 / 256) % 256) as u8) by (bit_vector);
    assert((x >> 56) as u8 == ((x / 256 / 256 / 256 / 256 / 256 / 256 / 256) % 256) as u8) by (bit_vector);
    assert(le_bytes(x as nat, 2) =~= seq![x as u8, (x >> 8) as u8]);
    assert(le_bytes(x as nat, 3) =~= seq![x as u8, (x >> 8) as u8, (x >> 16) as u8]);
    assert(le_bytes(x as nat, 8) =~= seq![
        x as u8, (x >> 8) as u8, (x >> 16) as u8, (x >> 24) as u8,
        (x >> 32) as u8, (x >> 40) as u8, (x >> 48) as u8, (x >> 56) as u8,
    ]);
}

/// Reads MySQL's length-encoded integer at the front of `data`:
/// `(bytes taken, value)`, or `(0, 0)` when `data` does not start with one.
pub fn read_length_encoded_int(data: &[u8]) -> (res: (usize, u64))
    ensures
        res.0 as int == spec_read_lenenc(data@).0,
        res.1 == spec_read_lenenc(data@).1,
{
    if data.len() < 1 {
        return (0, 0);
    }
    let first = data[0];
    if first < 0xfc {
        return (1, first as u64);
    }
    let byte_c: usize = if first == 0xfc && data.len() >= 3 {
        2
    } else if first == 0xfd && data.len() >= 4 {
        3
    } else if first == 0xfe && data.len() >= 9 {
        8
    } else {
        0
    };
    if byte_c > 0 {
        let rest = &data[1..data.len()];
        let v = le_read_uint(rest, byte_c);
        proof {
            assert(rest@.subrange(0, byte_c as int) =~= data@.subrange(1, byte_c + 1));
            lemma_le_value_subrange_bound(rest@.subrange(0, byte_c as int));
        }
        (byte_c + 1, v)
    } else {
        (0, 0)
    }
}

/// Reading back a written length-encoded integer gives the integer and the
/// number of bytes written, whatever follows it.
pub proof fn lemma_lenenc_roundtrip(x: u64, rest: Seq<u8>)
    ensures
        spec_read_lenenc(spec_lenenc(x) + rest) == (spec_lenenc(x).len() as int, x),
{
    let data = spec_lenenc(x) + rest;
    reveal(vstd::arithmetic::power::pow);
    reveal_with_fuel(vstd::arithmetic::power::pow, 9);
    if x < 251 {
    } else if x < 65_536 {
        lemma_le_bytes_len(x as nat, 2);
        lemma_le_value_of_bytes(x as nat, 2);
        assert(data.subrange(1, 3) =~= le_bytes(x as nat, 2));
        assert(vstd::arithmetic::power::pow(256, 2) == 65536);
        assert(data[0] == 0xfc);
        assert((x as int) % 65536 == x as int) by (nonlinear_arith)
            requires 0 <= x < 65536;
    } else if x < 16_777_216 {
        lemma_le_bytes_len(x as nat, 3);
        lemma_le_value_of_bytes(x as nat, 3);
        assert(data.subrange(1, 4) =~= le_bytes(x as nat, 3));
        assert(vstd::arithmetic::power::pow(256, 3) == 16777216);
        assert(data[0] == 0xfd);
        assert(le_value(data.subrange(1, 4)) == x);
    } else {
        lemma_le_bytes_len(x as nat, 8);
        lemma_le_value_of_bytes(x as nat, 8);
        assert(data.subrange(1, 9) =~= le_bytes(x as nat, 8));
        assert(vstd::arithmetic::power::pow(256, 8) == 0x1_0000_0000_0000_0000);
        assert(data[0] == 0xfe);
        assert(le_value(data.subrange(1, 9)) == x);
    }
}

#[verifier::external_type_specification]
#[verifier::external_body]
pub struct ExThreadRng(ThreadRng);

/// `rand::thread_rng`: a handle to this thread's random number generator.
#[verifier::external_body]
fn new_thread_rng() -> ThreadRng {
    rand::thread_rng()
}

/// `rand::Rng::gen_range` on bytes: some byte in `[low, high)`; which one is
/// left to chance.
#[verifier::external_body]
fn gen_range_u8(rng: &mut ThreadRng, low: u8, high: u8) -> (r: u8)
    requires
        low < high,
    ensures
        low <= r < high,
{
    rand::Rng::gen_range(rng, low, high)
}

/// A salt of `size` random printable bytes, each in `[30, 127)`.
pub fn random_salt(size: usize) -> (res: Result<Vec<u8>, MysqlError>)
    ensures
        res matches Ok(buf) && buf@.len() == size && forall|i: int|
            0 <= i < size ==> 30 <= #[trigger] buf@[i] < 127,
{
    let mut buf: Vec<u8> = Vec::new();
    let mut rng = new_thread_rng();
    for _i in 0..size
        invariant
            buf@.len() == _i,
            forall|j: int| 0 <= j < buf@.len() ==> 30 <= #[trigger] buf@[j] < 127,
    {
        buf.push(gen_range_u8(&mut rng, 30u8, 127u8));
    }
    Ok(buf)
}

/// The SHA-1 digest of a byte string.
pub uninterp spec fn spec_sha1(data: Seq<u8>) -> Seq<u8>;

/// `sha1::Sha1::from(data).digest().bytes()`: the SHA-1 digest of `data`.
#[verifier::external_body]
fn sha1_digest(data: &[u8]) -> (d: [u8; 20])
    ensures
        d@ == spec_sha1(data@),
{
    sha1::Sha1::from(data).digest().bytes()
}

/// `mysql_native_password`'s answer to `scramble` for `password` (UTF-8 bytes):
/// `SHA1(scramble ++ SHA1(SHA1(password)))` XOR `SHA1(password)`.
pub open spec fn spec_scramble_password(scramble: Seq<u8>, password: Seq<u8>) -> Seq<u8> {
    let stage1 = spec_sha1(password);
    let hash = spec_sha1(stage1);
    let combined = spec_sha1(scramble + hash);
    Seq::new(20, |i: int| combined[i] ^ stage1[i])
}

/// The answer to a salt is twenty bytes, byte `i` of
/// `SHA1(salt ++ SHA1(SHA1(password)))` XOR byte `i` of `SHA1(password)`,
/// where `password` is all of the password's bytes.
pub proof fn lemma_scramble_password_bytes(scramble: Seq<u8>, password: Seq<u8>)
    ensures
        spec_scramble_password(scramble, password).len() == 20,
        forall|i: int|
            0 <= i < 20 ==> #[trigger] spec_scramble_password(scramble, password)[i] == spec_sha1(
                scramble + spec_sha1(spec_sha1(password)),
            )[i] ^ spec_sha1(password)[i],
{
}

/// Hashes a password with the 4.1+ method (SHA-1); no answer for an empty
/// password.
pub fn scramble_password(scramble: &[u8], password: String) -> (res: Option<Vec<u8>>)
    ensures
        password@.len() == 0 ==> res is None,
        password@.len() != 0 ==> (res matches Some(r) && r@ == spec_scramble_password(
            scramble@,
            vstd::utf8::encode_utf8(password@),
        )),
{
    if password.as_str().is_empty() {
        return None;
    }
    let stage1 = sha1_digest(password.as_str().as_bytes());
    let hash = sha1_digest(&stage1);
    let mut input: Vec<u8> = Vec::new();
    let mut k: usize = 0;
    while k < scramble.len()
        invariant
            k <= scramble@.len(),
            input@ == scramble@.subrange(0, k as int),
        decreases scramble@.len() - k,
    {
        input.push(scramble[k]);
        k += 1;
    }
    let mut j: usize = 0;
    while j < 20
        invariant
            j <= 20,
            input@ == scramble@ + hash@.subrange(0, j as int),
        decreases 20 - j,
    {
        input.push(hash[j]);
        j += 1;
    }
    proof {
        assert(hash@.subrange(0, 20) =~= hash@);
    }
    let combined = sha1_digest(input.as_slice());
    let mut final_scramble: Vec<u8> = Vec::new();
    let mut i: usize = 0;
    while i < 20
        invariant
            i <= 20,
            final_scramble@.len() == i,
            forall|t: int| 0 <= t < i ==> #[trigger] final_scramble@[t] == combined@[t] ^ stage1@[t],
        decreases 20 - i,
    {
        final_scramble.push(combined[i] ^ stage1[i]);
        i += 1;
    }
    proof {
        assert(final_scramble@ =~= spec_scramble_password(scramble@, vstd::utf8::encode_utf8(password@)));
    }
    Some(final_scramble)
}

} // verus!
