//! Encoding and decoding of the stored runtime-version descriptor.
//!
//! A block stores its runtime version as an opaque blob; reading the version
//! back decodes the blob and fails with a decode error when the blob is
//! malformed.  The format is length-prefixed: the name's length, the name,
//! three version numbers, the API count and the API entries, each number as
//! four little-endian bytes.

use vstd::prelude::*;

use crate::bytes::lemma_take_step;
use crate::version::RuntimeVersion;
use crate::version::VersionView;

verus! {

/// A version whose name and API list admit length prefixes.
pub open spec fn version_fits(v: VersionView) -> bool {
    v.spec_name.len() <= u32::MAX && v.apis.len() <= u32::MAX
}

/// Four little-endian bytes of a 32-bit number.
pub open spec fn enc_u32(v: u32) -> Seq<u8> {
    seq![
        (v % 256) as u8,
        ((v / 256) % 256) as u8,
        ((v / 65536) % 256) as u8,
        ((v / 16777216) % 256) as u8,
    ]
}

/// The 32-bit number held by four little-endian bytes.
pub open spec fn dec_u32(b: Seq<u8>) -> u32
    recommends
        b.len() == 4,
{
    (b[0] + 256 * (b[1] as int) + 65536 * (b[2] as int) + 16777216 * (b[3] as int)) as u32
}

/// Decoding inverts encoding.
pub proof fn lemma_u32_round(v: u32)
    ensures
        enc_u32(v).len() == 4,
        dec_u32(enc_u32(v)) == v,
{
    assert((v % 256) as int + 256 * (((v / 256) % 256) as int) + 65536 * (((v / 65536) % 256)
        as int) + 16777216 * (((v / 16777216) % 256) as int) == v) by (bit_vector);
}

/// Encoding inverts decoding: four bytes are determined by their number.
pub proof fn lemma_u32_bytes(b: Seq<u8>)
    requires
        b.len() == 4,
    ensures
        enc_u32(dec_u32(b)) == b,
{
    let b0 = b[0];
    let b1 = b[1];
    let b2 = b[2];
    let b3 = b[3];
    assert(b0 as int + 256 * (b1 as int) + 65536 * (b2 as int) + 16777216 * (b3 as int)
        < 0x100000000);
    let v = dec_u32(b);
    assert(v == b0 as int + 256 * (b1 as int) + 65536 * (b2 as int) + 16777216 * (b3 as int));
    assert((v % 256) as u8 == b0 && ((v / 256) % 256) as u8 == b1 && ((v / 65536) % 256) as u8
        == b2 && ((v / 16777216) % 256) as u8 == b3) by (bit_vector)
        requires
            v == b0 as int + 256 * (b1 as int) + 65536 * (b2 as int) + 16777216 * (b3 as int),
    ;
    assert(enc_u32(dec_u32(b)) =~= b);
}

/// The API entries, each as two numbers.
pub open spec fn enc_apis(apis: Seq<(u32, u32)>) -> Seq<u8>
    decreases apis.len(),
{
    if apis.len() == 0 {
        Seq::empty()
    } else {
        enc_apis(apis.drop_last()) + enc_u32(apis.last().0) + enc_u32(apis.last().1)
    }
}

/// The whole descriptor.
pub open spec fn encoded_version(v: VersionView) -> Seq<u8> {
    enc_u32(v.spec_name.len() as u32) + v.spec_name + enc_u32(v.spec_version) + enc_u32(
        v.impl_version,
    ) + enc_u32(v.transaction_version) + enc_u32(v.apis.len() as u32) + enc_apis(v.apis)
}

/// The API area is eight bytes per entry.
pub proof fn lemma_enc_apis_len(apis: Seq<(u32, u32)>)
    ensures
        enc_apis(apis).len() == 8 * apis.len(),
    decreases apis.len(),
{
    if apis.len() > 0 {
        lemma_enc_apis_len(apis.drop_last());
    }
}

/// Where each part of an encoded descriptor stands.
pub proof fn lemma_encoding_shape(w: VersionView)
    requires
        version_fits(w),
    ensures
        encoded_version(w).len() == 20 + w.spec_name.len() + 8 * w.apis.len(),
        encoded_version(w).subrange(0, 4) =~= enc_u32(w.spec_name.len() as u32),
        encoded_version(w).subrange(4, 4 + w.spec_name.len() as int) =~= w.spec_name,
        encoded_version(w).subrange(
            4 + w.spec_name.len() as int,
            8 + w.spec_name.len() as int,
        ) =~= enc_u32(w.spec_version),
        encoded_version(w).subrange(
            8 + w.spec_name.len() as int,
            12 + w.spec_name.len() as int,
        ) =~= enc_u32(w.impl_version),
        encoded_version(w).subrange(
            12 + w.spec_name.len() as int,
            16 + w.spec_name.len() as int,
        ) =~= enc_u32(w.transaction_version),
        encoded_version(w).subrange(
            16 + w.spec_name.len() as int,
            20 + w.spec_name.len() as int,
        ) =~= enc_u32(w.apis.len() as u32),
        encoded_version(w).subrange(
            20 + w.spec_name.len() as int,
            encoded_version(w).len() as int,
        ) =~= enc_apis(w.apis),
{
    lemma_enc_apis_len(w.apis);
}

/// Appends the four little-endian bytes of `v`.
fn push_u32(out: &mut Vec<u8>, v: u32)
    ensures
        final(out)@ == old(out)@ + enc_u32(v),
{
    let ghost base = out@;
    out.push((v % 256) as u8);
    out.push(((v / 256) % 256) as u8);
    out.push(((v / 65536) % 256) as u8);
    out.push(((v / 16777216) % 256) as u8);
    proof {
        assert(out@ =~= base + enc_u32(v));
    }
}

/// Reads the 32-bit number at offset `off`.
fn read_u32(b: &Vec<u8>, off: usize) -> (r: u32)
    requires
        off + 4 <= b@.len(),
    ensures
        r == dec_u32(b@.subrange(off as int, off as int + 4)),
{
    proof {
        assert(b.len() == b@.len());
    }
    let r = b[off] as u32 + 256 * (b[off + 1] as u32) + 65536 * (b[off + 2] as u32) + 16777216
        * (b[off + 3] as u32);
    proof {
        let s = b@.subrange(off as int, off as int + 4);
        assert(s[0] == b@[off as int] && s[1] == b@[off as int + 1] && s[2] == b@[off as int + 2]
            && s[3] == b@[off as int + 3]);
    }
    r
}

/// Encodes a version descriptor.
#[verifier::loop_isolation(false)]
pub fn encode_version(v: &RuntimeVersion) -> (r: Vec<u8>)
    requires
        version_fits(v@),
    ensures
        r@ == encoded_version(v@),
{
    let mut out: Vec<u8> = Vec::new();
    push_u32(&mut out, v.spec_name.len() as u32);
    let mut i: usize = 0;
    proof {
        assert(out@ =~= enc_u32(v@.spec_name.len() as u32) + v@.spec_name.take(0));
    }
    while i < v.spec_name.len()
        invariant
            i <= v.spec_name@.len(),
            out@ == enc_u32(v@.spec_name.len() as u32) + v@.spec_name.take(i as int),
        decreases v.spec_name@.len() - i,
    {
        out.push(v.spec_name[i]);
        proof {
            assert(out@ =~= enc_u32(v@.spec_name.len() as u32) + v@.spec_name.take(i as int + 1));
        }
        i = i + 1;
    }
    proof {
        assert(v@.spec_name.take(v@.spec_name.len() as int) =~= v@.spec_name);
    }
    let ghost head = out@;
    push_u32(&mut out, v.spec_version);
    push_u32(&mut out, v.impl_version);
    push_u32(&mut out, v.transaction_version);
    push_u32(&mut out, v.apis.len() as u32);
    let ghost mid = out@;
    let mut j: usize = 0;
    proof {
        assert(out@ =~= mid + enc_apis(v@.apis.take(0)));
    }
    while j < v.apis.len()
        invariant
            j <= v.apis@.len(),
            mid == head + enc_u32(v@.spec_version) + enc_u32(v@.impl_version) + enc_u32(
                v@.transaction_version,
            ) + enc_u32(v@.apis.len() as u32),
            out@ == mid + enc_apis(v@.apis.take(j as int)),
        decreases v.apis@.len() - j,
    {
        let (id, ver) = v.apis[j];
        push_u32(&mut out, id);
        push_u32(&mut out, ver);
        proof {
            lemma_take_step(v@.apis, j as int);
            assert(out@ =~= mid + enc_apis(v@.apis.take(j as int + 1)));
        }
        j = j + 1;
    }
    proof {
        assert(v@.apis.take(v@.apis.len() as int) =~= v@.apis);
        assert(out@ =~= encoded_version(v@));
    }
    out
}

/// A blob shorter than the fixed fields encodes no descriptor.
proof fn lemma_no_encoding_short(b: Seq<u8>)
    requires
        b.len() < 20,
    ensures
        forall|w: VersionView| version_fits(w) ==> b != encoded_version(w),
{
    assert forall|w: VersionView| version_fits(w) implies b != encoded_version(w) by {
        lemma_encoding_shape(w);
    }
}

/// A blob too short for its own name-length prefix encodes no descriptor.
proof fn lemma_no_encoding_name_overrun(b: Seq<u8>, n: u32)
    requires
        b.len() >= 20,
        n == dec_u32(b.subrange(0, 4)),
        b.len() < 20 + n,
    ensures
        forall|w: VersionView| version_fits(w) ==> b != encoded_version(w),
{
    assert forall|w: VersionView| version_fits(w) implies b != encoded_version(w) by {
        lemma_encoding_shape(w);
        if b == encoded_version(w) {
            lemma_u32_round(w.spec_name.len() as u32);
            assert(b.subrange(0, 4) =~= encoded_version(w).subrange(0, 4));
            assert(n == w.spec_name.len() as u32);
        }
    }
}

/// A blob whose length disagrees with its own prefixes encodes no
/// descriptor.
proof fn lemma_no_encoding_length_mismatch(b: Seq<u8>, n: u32, count: u32)
    requires
        b.len() >= 20 + n,
        n == dec_u32(b.subrange(0, 4)),
        count == dec_u32(b.subrange(16 + n as int, 20 + n as int)),
        b.len() != 20 + n + 8 * count,
    ensures
        forall|w: VersionView| version_fits(w) ==> b != encoded_version(w),
{
    assert forall|w: VersionView| version_fits(w) implies b != encoded_version(w) by {
        lemma_encoding_shape(w);
        if b == encoded_version(w) {
            lemma_u32_round(w.spec_name.len() as u32);
            assert(b.subrange(0, 4) =~= encoded_version(w).subrange(0, 4));
            assert(n == w.spec_name.len() as u32);
            lemma_u32_round(w.apis.len() as u32);
            assert(b.subrange(16 + n as int, 20 + n as int) =~= encoded_version(w).subrange(
                16 + w.spec_name.len() as int,
                20 + w.spec_name.len() as int,
            ));
            assert(count == w.apis.len() as u32);
        }
    }
}

/// A blob whose parts all match a descriptor's fields is its encoding.
proof fn lemma_decode_reassemble(b: Seq<u8>, w: VersionView)
    requires
        version_fits(w),
        b.len() == 20 + w.spec_name.len() + 8 * w.apis.len(),
        w.spec_name.len() == dec_u32(b.subrange(0, 4)),
        w.spec_name == b.subrange(4, 4 + w.spec_name.len() as int),
        w.spec_version == dec_u32(
            b.subrange(4 + w.spec_name.len() as int, 8 + w.spec_name.len() as int),
        ),
        w.impl_version == dec_u32(
            b.subrange(8 + w.spec_name.len() as int, 12 + w.spec_name.len() as int),
        ),
        w.transaction_version == dec_u32(
            b.subrange(12 + w.spec_name.len() as int, 16 + w.spec_name.len() as int),
        ),
        w.apis.len() == dec_u32(
            b.subrange(16 + w.spec_name.len() as int, 20 + w.spec_name.len() as int),
        ),
        enc_apis(w.apis) == b.subrange(20 + w.spec_name.len() as int, b.len() as int),
    ensures
        b == encoded_version(w),
{
    let n = w.spec_name.len() as int;
    lemma_u32_bytes(b.subrange(0, 4));
    lemma_u32_bytes(b.subrange(4 + n, 8 + n));
    lemma_u32_bytes(b.subrange(8 + n, 12 + n));
    lemma_u32_bytes(b.subrange(12 + n, 16 + n));
    lemma_u32_bytes(b.subrange(16 + n, 20 + n));
    assert(encoded_version(w) =~= b);
}

/// Decodes a version descriptor; fails exactly on blobs that are no
/// descriptor's encoding.
#[verifier::loop_isolation(false)]
#[verifier::rlimit(60)]
pub fn decode_version(b: &Vec<u8>) -> (r: Option<RuntimeVersion>)
    ensures
        match r {
            Some(v) => b@ == encoded_version(v@) && version_fits(v@),
            None => forall|w: VersionView| version_fits(w) ==> b@ != encoded_version(w),
        },
{
    if b.len() < 20 {
        proof {
            lemma_no_encoding_short(b@);
        }
        return None;
    }
    let n = read_u32(b, 0);
    if (b.len() as u64) < 20u64 + (n as u64) {
        proof {
            lemma_no_encoding_name_overrun(b@, n);
        }
        return None;
    }
    let n_us = n as usize;
    let count = read_u32(b, 16 + n_us);
    if (b.len() as u64) != 20u64 + (n as u64) + 8u64 * (count as u64) {
        proof {
            lemma_no_encoding_length_mismatch(b@, n, count);
        }
        return None;
    }
    let mut spec_name: Vec<u8> = Vec::new();
    let mut i: usize = 0;
    proof {
        assert(spec_name@ =~= b@.subrange(4int, 4int));
    }
    while i < n_us
        invariant
            i <= n_us,
            20 + n_us <= b@.len(),
            spec_name@ == b@.subrange(4, 4 + i as int),
        decreases n_us - i,
    {
        spec_name.push(b[4 + i]);
        proof {
            assert(spec_name@ =~= b@.subrange(4, 4 + i as int + 1));
        }
        i = i + 1;
    }
    let spec_version = read_u32(b, 4 + n_us);
    let impl_version = read_u32(b, 8 + n_us);
    let transaction_version = read_u32(b, 12 + n_us);
    let mut apis: Vec<(u32, u32)> = Vec::new();
    let mut j: usize = 0;
    let count_us = count as usize;
    proof {
        assert(enc_apis(apis@.take(0)) =~= b@.subrange(20 + n as int, 20 + n as int));
    }
    while j < count_us
        invariant
            j <= count_us,
            apis@.len() == j,
            b@.len() == 20 + n_us + 8 * count_us,
            n_us == n,
            count_us == count,
            enc_apis(apis@) == b@.subrange(20 + n as int, 20 + n as int + 8 * j as int),
        decreases count_us - j,
    {
        let id = read_u32(b, 20 + n_us + 8 * j);
        let ver = read_u32(b, 24 + n_us + 8 * j);
        let ghost pre = apis@;
        apis.push((id, ver));
        proof {
            assert(apis@.drop_last() =~= pre);
            lemma_u32_bytes(b@.subrange(20 + n as int + 8 * j as int, 24 + n as int + 8 * j as int));
            lemma_u32_bytes(b@.subrange(24 + n as int + 8 * j as int, 28 + n as int + 8 * j as int));
            assert(enc_apis(apis@) =~= b@.subrange(20 + n as int, 20 + n as int + 8 * (j as int
                + 1)));
        }
        j = j + 1;
    }
    let v = RuntimeVersion { spec_name, spec_version, impl_version, transaction_version, apis };
    proof {
        assert(v@.spec_name.len() == n);
        assert(v@.apis.len() == count);
        lemma_decode_reassemble(b@, v@);
    }
    Some(v)
}

} // verus!
