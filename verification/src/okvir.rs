//! The on-disk frame: fixed little-endian header fields followed by the
//! raw key and value bytes.
//!
//! Layout of one frame, at a byte offset `p` of the log:
//! `zbir:u32, kljuc_duz:u32, vred_duz:u32, kljuc, vrednost`,
//! the three header fields little-endian, the checksum taken over
//! `kljuc + vrednost`.

use vstd::prelude::*;

use crate::zbir::kontrolni_zbir_od;

verus! {

/// The four little-endian bytes of a 32-bit integer.
pub open spec fn le32(n: u32) -> Seq<u8> {
    seq![
        (n & 0xff) as u8,
        ((n >> 8) & 0xff) as u8,
        ((n >> 16) & 0xff) as u8,
        ((n >> 24) & 0xff) as u8,
    ]
}

/// The 32-bit integer read from four little-endian bytes.
pub open spec fn u32_iz(b0: u8, b1: u8, b2: u8, b3: u8) -> u32 {
    (b0 as u32) | ((b1 as u32) << 8) | ((b2 as u32) << 16) | ((b3 as u32) << 24)
}

/// The eight little-endian bytes of a 64-bit integer.
pub open spec fn le64(n: u64) -> Seq<u8> {
    seq![
        (n & 0xff) as u8,
        ((n >> 8) & 0xff) as u8,
        ((n >> 16) & 0xff) as u8,
        ((n >> 24) & 0xff) as u8,
        ((n >> 32) & 0xff) as u8,
        ((n >> 40) & 0xff) as u8,
        ((n >> 48) & 0xff) as u8,
        ((n >> 56) & 0xff) as u8,
    ]
}

/// The 64-bit integer read from eight little-endian bytes.
pub open spec fn u64_iz(b0: u8, b1: u8, b2: u8, b3: u8, b4: u8, b5: u8, b6: u8, b7: u8) -> u64 {
    (b0 as u64) | ((b1 as u64) << 8) | ((b2 as u64) << 16) | ((b3 as u64) << 24)
        | ((b4 as u64) << 32) | ((b5 as u64) << 40) | ((b6 as u64) << 48) | ((b7 as u64) << 56)
}

/// Reading back the four bytes of `le32` yields the integer again.
pub proof fn lemma_le32_obrtanje(n: u32)
    ensures
        u32_iz(le32(n)[0], le32(n)[1], le32(n)[2], le32(n)[3]) == n,
{
    let b0 = (n & 0xff) as u8;
    let b1 = ((n >> 8) & 0xff) as u8;
    let b2 = ((n >> 16) & 0xff) as u8;
    let b3 = ((n >> 24) & 0xff) as u8;
    assert((b0 as u32) | ((b1 as u32) << 8) | ((b2 as u32) << 16) | ((b3 as u32) << 24) == n)
        by (bit_vector)
        requires
            b0 == (n & 0xff) as u8,
            b1 == ((n >> 8) & 0xff) as u8,
            b2 == ((n >> 16) & 0xff) as u8,
            b3 == ((n >> 24) & 0xff) as u8,
    ;
}

/// Reading back the eight bytes of `le64` yields the integer again.
pub proof fn lemma_le64_obrtanje(n: u64)
    ensures
        u64_iz(
            le64(n)[0], le64(n)[1], le64(n)[2], le64(n)[3],
            le64(n)[4], le64(n)[5], le64(n)[6], le64(n)[7],
        ) == n,
{
    let b0 = (n & 0xff) as u8;
    let b1 = ((n >> 8) & 0xff) as u8;
    let b2 = ((n >> 16) & 0xff) as u8;
    let b3 = ((n >> 24) & 0xff) as u8;
    let b4 = ((n >> 32) & 0xff) as u8;
    let b5 = ((n >> 40) & 0xff) as u8;
    let b6 = ((n >> 48) & 0xff) as u8;
    let b7 = ((n >> 56) & 0xff) as u8;
    assert((b0 as u64) | ((b1 as u64) << 8) | ((b2 as u64) << 16) | ((b3 as u64) << 24)
        | ((b4 as u64) << 32) | ((b5 as u64) << 40) | ((b6 as u64) << 48) | ((b7 as u64) << 56)
        == n)
        by (bit_vector)
        requires
            b0 == (n & 0xff) as u8,
            b1 == ((n >> 8) & 0xff) as u8,
            b2 == ((n >> 16) & 0xff) as u8,
            b3 == ((n >> 24) & 0xff) as u8,
            b4 == ((n >> 32) & 0xff) as u8,
            b5 == ((n >> 40) & 0xff) as u8,
            b6 == ((n >> 48) & 0xff) as u8,
            b7 == ((n >> 56) & 0xff) as u8,
    ;
}

/// Appends the little-endian bytes of `n`.
pub fn upisi_le32(v: &mut Vec<u8>, n: u32)
    ensures
        final(v)@ == old(v)@ + le32(n),
{
    proof {
        assert(n & 0xff < 256 && (n >> 8) & 0xff < 256 && (n >> 16) & 0xff < 256
            && (n >> 24) & 0xff < 256) by (bit_vector);
    }
    v.push((n & 0xff) as u8);
    v.push(((n >> 8) & 0xff) as u8);
    v.push(((n >> 16) & 0xff) as u8);
    v.push(((n >> 24) & 0xff) as u8);
    proof {
        assert(v@ =~= old(v)@ + le32(n));
    }
}

/// Appends the little-endian bytes of `n`.
pub fn upisi_le64(v: &mut Vec<u8>, n: u64)
    ensures
        final(v)@ == old(v)@ + le64(n),
{
    proof {
        assert(n & 0xff < 256 && (n >> 8) & 0xff < 256 && (n >> 16) & 0xff < 256
            && (n >> 24) & 0xff < 256 && (n >> 32) & 0xff < 256 && (n >> 40) & 0xff < 256
            && (n >> 48) & 0xff < 256 && (n >> 56) & 0xff < 256) by (bit_vector);
    }
    v.push((n & 0xff) as u8);
    v.push(((n >> 8) & 0xff) as u8);
    v.push(((n >> 16) & 0xff) as u8);
    v.push(((n >> 24) & 0xff) as u8);
    v.push(((n >> 32) & 0xff) as u8);
    v.push(((n >> 40) & 0xff) as u8);
    v.push(((n >> 48) & 0xff) as u8);
    v.push(((n >> 56) & 0xff) as u8);
    proof {
        assert(v@ =~= old(v)@ + le64(n));
    }
}

/// Appends every byte of `s`.
pub fn dodaj_bajtove(v: &mut Vec<u8>, s: &[u8])
    ensures
        final(v)@ == old(v)@ + s@,
{
    let duz = s.len();
    let mut i: usize = 0;
    while i < duz
        invariant
            duz == s@.len(),
            i <= duz,
            v@ == old(v)@ + s@.subrange(0, i as int),
        decreases duz - i,
    {
        v.push(s[i]);
        i = i + 1;
        proof {
            assert(v@ =~= old(v)@ + s@.subrange(0, i as int));
        }
    }
    proof {
        assert(v@ =~= old(v)@ + s@);
    }
}

/// The 32-bit little-endian field at byte offset `p` of the log.
pub open spec fn u32_na(log: Seq<u8>, p: int) -> u32
    recommends
        0 <= p,
        p + 4 <= log.len(),
{
    u32_iz(log[p], log[p + 1], log[p + 2], log[p + 3])
}

/// Reads the 32-bit little-endian field at offset `p`.
pub fn procitaj_u32(log: &[u8], p: usize) -> (r: u32)
    requires
        p + 4 <= log@.len(),
    ensures
        r == u32_na(log@, p as int),
{
    let b0 = log[p];
    let b1 = log[p + 1];
    let b2 = log[p + 2];
    let b3 = log[p + 3];
    (b0 as u32) | ((b1 as u32) << 8) | ((b2 as u32) << 16) | ((b3 as u32) << 24)
}

/// The 64-bit little-endian field at byte offset `p` of the log.
pub open spec fn u64_na(log: Seq<u8>, p: int) -> u64
    recommends
        0 <= p,
        p + 8 <= log.len(),
{
    u64_iz(
        log[p], log[p + 1], log[p + 2], log[p + 3],
        log[p + 4], log[p + 5], log[p + 6], log[p + 7],
    )
}

/// Reads the 64-bit little-endian field at offset `p`.
pub fn procitaj_u64(log: &[u8], p: usize) -> (r: u64)
    requires
        p + 8 <= log@.len(),
    ensures
        r == u64_na(log@, p as int),
{
    let b0 = log[p];
    let b1 = log[p + 1];
    let b2 = log[p + 2];
    let b3 = log[p + 3];
    let b4 = log[p + 4];
    let b5 = log[p + 5];
    let b6 = log[p + 6];
    let b7 = log[p + 7];
    (b0 as u64) | ((b1 as u64) << 8) | ((b2 as u64) << 16) | ((b3 as u64) << 24)
        | ((b4 as u64) << 32) | ((b5 as u64) << 40) | ((b6 as u64) << 48) | ((b7 as u64) << 56)
}

/// The length of the key of the frame at `p`, from its header.
pub open spec fn kljuc_duz_na(log: Seq<u8>, p: int) -> int {
    u32_na(log, p + 4) as int
}

/// The length of the value of the frame at `p`, from its header.
pub open spec fn vred_duz_na(log: Seq<u8>, p: int) -> int {
    u32_na(log, p + 8) as int
}

/// The total byte size of the frame at `p`: header plus payload.
pub open spec fn velicina_okvira(log: Seq<u8>, p: int) -> int {
    12 + kljuc_duz_na(log, p) + vred_duz_na(log, p)
}

/// The key bytes of the frame at `p`.
pub open spec fn kljuc_na(log: Seq<u8>, p: int) -> Seq<u8> {
    log.subrange(p + 12, p + 12 + kljuc_duz_na(log, p))
}

/// The value bytes of the frame at `p`.
pub open spec fn vrednost_na(log: Seq<u8>, p: int) -> Seq<u8> {
    log.subrange(p + 12 + kljuc_duz_na(log, p), p + velicina_okvira(log, p))
}

/// A complete frame with a matching checksum starts at offset `p`.
pub open spec fn ispravan_okvir(log: Seq<u8>, p: int) -> bool {
    &&& 0 <= p
    &&& p + 12 <= log.len()
    &&& p + velicina_okvira(log, p) <= log.len()
    &&& u32_na(log, p) == kontrolni_zbir_od(kljuc_na(log, p) + vrednost_na(log, p))
}

/// The frame that `append` writes for a key and a value: checksum,
/// the two lengths, then the payload.
pub open spec fn okvir_bajtovi(kljuc: Seq<u8>, vrednost: Seq<u8>) -> Seq<u8> {
    le32(kontrolni_zbir_od(kljuc + vrednost)) + le32(kljuc.len() as u32)
        + le32(vrednost.len() as u32) + kljuc + vrednost
}

/// Appending a frame puts a valid frame, holding exactly the given key
/// and value, at the old end of the log.
pub proof fn lemma_dodat_okvir(log: Seq<u8>, kljuc: Seq<u8>, vrednost: Seq<u8>)
    requires
        kljuc.len() <= u32::MAX,
        vrednost.len() <= u32::MAX,
    ensures
        ispravan_okvir(log + okvir_bajtovi(kljuc, vrednost), log.len() as int),
        kljuc_na(log + okvir_bajtovi(kljuc, vrednost), log.len() as int) == kljuc,
        vrednost_na(log + okvir_bajtovi(kljuc, vrednost), log.len() as int) == vrednost,
        velicina_okvira(log + okvir_bajtovi(kljuc, vrednost), log.len() as int)
            == 12 + kljuc.len() + vrednost.len(),
{
    let log2 = log + okvir_bajtovi(kljuc, vrednost);
    let p = log.len() as int;
    let z = kontrolni_zbir_od(kljuc + vrednost);
    let kd = kljuc.len() as u32;
    let vd = vrednost.len() as u32;
    assert(log2.subrange(p, p + 4) =~= le32(z));
    assert(log2.subrange(p + 4, p + 8) =~= le32(kd));
    assert(log2.subrange(p + 8, p + 12) =~= le32(vd));
    lemma_le32_obrtanje(z);
    lemma_le32_obrtanje(kd);
    lemma_le32_obrtanje(vd);
    assert(u32_na(log2, p) == z);
    assert(u32_na(log2, p + 4) == kd);
    assert(u32_na(log2, p + 8) == vd);
    assert(kljuc_na(log2, p) =~= kljuc);
    assert(vrednost_na(log2, p) =~= vrednost);
}

/// Appending bytes after a valid frame leaves the frame, its key and
/// its value exactly as they were.
pub proof fn lemma_okvir_stabilan(log: Seq<u8>, dodatak: Seq<u8>, p: int)
    requires
        ispravan_okvir(log, p),
    ensures
        ispravan_okvir(log + dodatak, p),
        kljuc_na(log + dodatak, p) == kljuc_na(log, p),
        vrednost_na(log + dodatak, p) == vrednost_na(log, p),
        velicina_okvira(log + dodatak, p) == velicina_okvira(log, p),
{
    let log2 = log + dodatak;
    assert(u32_na(log2, p) == u32_na(log, p));
    assert(u32_na(log2, p + 4) == u32_na(log, p + 4));
    assert(u32_na(log2, p + 8) == u32_na(log, p + 8));
    assert(kljuc_na(log2, p) =~= kljuc_na(log, p));
    assert(vrednost_na(log2, p) =~= vrednost_na(log, p));
}

} // verus!
