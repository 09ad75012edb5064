//! The store's laws: what holds of every log, key and value, proved
//! over the same spec functions that the operations' contracts use.

use vstd::prelude::*;

use crate::baza::{dnevnik_ispravan_od, indeks_posle};
use crate::okvir::{
    ispravan_okvir, kljuc_na, lemma_dodat_okvir, lemma_okvir_stabilan, okvir_bajtovi, u32_na,
    velicina_okvira, vrednost_na,
};
use crate::zbir::kontrolni_zbir_od;

verus! {

/// Round trip: the frame that `unesi_ali_zanemari_indeks` appends for
/// a pair starts a valid frame at the returned offset, and `uzmi_na`
/// at that offset reads back exactly that key and that value.
pub proof fn lemma_citanje_vracenog_zapisa(log: Seq<u8>, kljuc: Seq<u8>, vrednost: Seq<u8>)
    requires
        kljuc.len() <= u32::MAX,
        vrednost.len() <= u32::MAX,
    ensures
        ispravan_okvir(log + okvir_bajtovi(kljuc, vrednost), log.len() as int),
        kljuc_na(log + okvir_bajtovi(kljuc, vrednost), log.len() as int) == kljuc,
        vrednost_na(log + okvir_bajtovi(kljuc, vrednost), log.len() as int) == vrednost,
{
    lemma_dodat_okvir(log, kljuc, vrednost);
}

/// After `unesi(kljuc, vrednost)`, a lookup of `kljuc` through the
/// index finds the value of that very put: the log and index that
/// `unesi` leaves behind map the key to a record holding `vrednost`.
/// Repeated over a run of puts, the last put for a key wins, because
/// each `insert` supersedes the previous offset.
pub proof fn lemma_unesi_pa_uzmi(
    log: Seq<u8>,
    m: Map<Seq<u8>, u64>,
    kljuc: Seq<u8>,
    vrednost: Seq<u8>,
)
    requires
        kljuc.len() <= u32::MAX,
        vrednost.len() <= u32::MAX,
        log.len() <= u64::MAX,
    ensures
        ({
            let log2 = log + okvir_bajtovi(kljuc, vrednost);
            let m2 = m.insert(kljuc, log.len() as u64);
            &&& m2.dom().contains(kljuc)
            &&& ispravan_okvir(log2, m2[kljuc] as int)
            &&& vrednost_na(log2, m2[kljuc] as int) == vrednost
        }),
{
    lemma_dodat_okvir(log, kljuc, vrednost);
}

/// A later put for a different key disturbs nothing: the earlier
/// key's offset stays in the index, its frame stays intact under the
/// appended bytes, and a lookup still finds the same value. With
/// `lemma_unesi_pa_uzmi` this carries the last-put-wins guarantee
/// across any run of puts.
pub proof fn lemma_kasniji_unos_ne_dira_druge(
    log: Seq<u8>,
    m: Map<Seq<u8>, u64>,
    kljuc: Seq<u8>,
    vrednost: Seq<u8>,
    drugi: Seq<u8>,
)
    requires
        kljuc.len() <= u32::MAX,
        vrednost.len() <= u32::MAX,
        drugi != kljuc,
        m.dom().contains(drugi),
        ispravan_okvir(log, m[drugi] as int),
    ensures
        ({
            let log2 = log + okvir_bajtovi(kljuc, vrednost);
            let m2 = m.insert(kljuc, log.len() as u64);
            &&& m2.dom().contains(drugi)
            &&& m2[drugi] == m[drugi]
            &&& ispravan_okvir(log2, m2[drugi] as int)
            &&& vrednost_na(log2, m2[drugi] as int) == vrednost_na(log, m[drugi] as int)
        }),
{
    lemma_okvir_stabilan(log, okvir_bajtovi(kljuc, vrednost), m[drugi] as int);
}

/// `obrisi(kljuc)` followed by a lookup of `kljuc` yields a present
/// key with an empty value, not an absent key: deletion is only an
/// overwrite with a zero-length value, indistinguishable from a key
/// whose stored value is legitimately empty.
pub proof fn lemma_obrisi_pa_uzmi(log: Seq<u8>, m: Map<Seq<u8>, u64>, kljuc: Seq<u8>)
    requires
        kljuc.len() <= u32::MAX,
        log.len() <= u64::MAX,
    ensures
        ({
            let log2 = log + okvir_bajtovi(kljuc, Seq::<u8>::empty());
            let m2 = m.insert(kljuc, log.len() as u64);
            &&& m2.dom().contains(kljuc)
            &&& vrednost_na(log2, m2[kljuc] as int) == Seq::<u8>::empty()
        }),
{
    lemma_unesi_pa_uzmi(log, m, kljuc, Seq::<u8>::empty());
}

/// Replaying an appended-to log builds the index that the live store
/// keeps: one more frame replays to one more `insert`.
proof fn lemma_dodavanje_cuva_ucitavanje(
    log: Seq<u8>,
    kljuc: Seq<u8>,
    vrednost: Seq<u8>,
    p: int,
    m: Map<Seq<u8>, u64>,
)
    requires
        kljuc.len() <= u32::MAX,
        vrednost.len() <= u32::MAX,
        log.len() <= u64::MAX,
        0 <= p <= log.len(),
        dnevnik_ispravan_od(log, p),
    ensures
        dnevnik_ispravan_od(log + okvir_bajtovi(kljuc, vrednost), p),
        indeks_posle(log + okvir_bajtovi(kljuc, vrednost), p, m) == indeks_posle(log, p, m).insert(
            kljuc,
            log.len() as u64,
        ),
    decreases log.len() - p,
{
    let log2 = log + okvir_bajtovi(kljuc, vrednost);
    if p == log.len() {
        lemma_dodat_okvir(log, kljuc, vrednost);
        assert(p + velicina_okvira(log2, p) == log2.len());
        assert(dnevnik_ispravan_od(log2, log2.len() as int));
        assert(dnevnik_ispravan_od(log2, p));
        assert(indeks_posle(log2, log2.len() as int, m.insert(kljuc, p as u64)) == m.insert(
            kljuc,
            p as u64,
        ));
        assert(indeks_posle(log2, p, m) == m.insert(kljuc, p as u64));
        assert(indeks_posle(log, p, m) == m);
    } else {
        assert(ispravan_okvir(log, p));
        lemma_okvir_stabilan(log, okvir_bajtovi(kljuc, vrednost), p);
        lemma_dodavanje_cuva_ucitavanje(
            log,
            kljuc,
            vrednost,
            p + velicina_okvira(log, p),
            m.insert(kljuc_na(log, p), p as u64),
        );
    }
}

/// Closing and reopening the store loses nothing: if the index was
/// built by replay and a put appended one frame, replaying the longer
/// log from the start rebuilds exactly the index the live store had
/// after the put. Applied once per put, a full replay after reopening
/// answers every lookup as the store did before the close.
pub proof fn lemma_ucitavanje_posle_unosa(
    log: Seq<u8>,
    kljuc: Seq<u8>,
    vrednost: Seq<u8>,
    m: Map<Seq<u8>, u64>,
)
    requires
        kljuc.len() <= u32::MAX,
        vrednost.len() <= u32::MAX,
        log.len() <= u64::MAX,
        dnevnik_ispravan_od(log, 0),
    ensures
        dnevnik_ispravan_od(log + okvir_bajtovi(kljuc, vrednost), 0),
        indeks_posle(log + okvir_bajtovi(kljuc, vrednost), 0, m) == indeks_posle(log, 0, m).insert(
            kljuc,
            log.len() as u64,
        ),
{
    lemma_dodavanje_cuva_ucitavanje(log, kljuc, vrednost, 0, m);
}

/// A scan that starts at `q` passes through offset `p` on its way,
/// frame boundary by frame boundary.
pub open spec fn u_lancu(log: Seq<u8>, q: int, p: int) -> bool
    decreases log.len() - q
        when 0 <= q <= log.len()
{
    if q == p {
        true
    } else if q == log.len() || !ispravan_okvir(log, q) {
        false
    } else {
        u_lancu(log, q + velicina_okvira(log, q), p)
    }
}

/// A scan never runs past the offset it reaches.
proof fn lemma_u_lancu_granica(log: Seq<u8>, q: int, p: int)
    requires
        0 <= q <= log.len(),
        u_lancu(log, q, p),
    ensures
        q <= p,
    decreases log.len() - q,
{
    if q != p {
        lemma_u_lancu_granica(log, q + velicina_okvira(log, q), p);
    }
}

/// A reachable offset that starts no valid frame stops the replay:
/// the whole log fails to load, never silently skipping the damage.
pub proof fn lemma_ostecenje_zaustavlja_ucitavanje(log: Seq<u8>, q: int, p: int)
    requires
        0 <= q <= log.len(),
        u_lancu(log, q, p),
        p < log.len(),
        !ispravan_okvir(log, p),
    ensures
        !dnevnik_ispravan_od(log, q),
    decreases log.len() - q,
{
    if q != p {
        lemma_ostecenje_zaustavlja_ucitavanje(log, q + velicina_okvira(log, q), p);
    }
}

/// Frames on the way to `p` read the same in a log whose bytes agree
/// below `p + 12`.
proof fn lemma_lanac_ocuvan(log: Seq<u8>, log2: Seq<u8>, q: int, p: int)
    requires
        0 <= q <= log.len(),
        log2.len() == log.len(),
        u_lancu(log, q, p),
        forall|i: int| 0 <= i < p + 12 ==> log2[i] == log[i],
    ensures
        u_lancu(log2, q, p),
    decreases log.len() - q,
{
    if q != p {
        lemma_u_lancu_granica(log, q + velicina_okvira(log, q), p);
        assert(q + velicina_okvira(log, q) <= p);
        assert(u32_na(log2, q) == u32_na(log, q));
        assert(u32_na(log2, q + 4) == u32_na(log, q + 4));
        assert(u32_na(log2, q + 8) == u32_na(log, q + 8));
        assert(kljuc_na(log2, q) =~= kljuc_na(log, q));
        assert(vrednost_na(log2, q) =~= vrednost_na(log, q));
        assert(ispravan_okvir(log2, q));
        lemma_lanac_ocuvan(log, log2, q + velicina_okvira(log, q), p);
    }
}

/// Checksum sensitivity: change the key or value bytes of any frame a
/// replay reaches, in a way that moves the payload's digest, and the
/// replay of the whole log fails. That flipping any single bit moves
/// the CRC-32 digest is a property of the digest itself, which this
/// library names but does not define.
pub proof fn lemma_osetljivost_zbira(log: Seq<u8>, log2: Seq<u8>, p: int)
    requires
        0 <= p < log.len(),
        u_lancu(log, 0, p),
        ispravan_okvir(log, p),
        log2.len() == log.len(),
        forall|i: int| 0 <= i < p + 12 ==> log2[i] == log[i],
        kontrolni_zbir_od(kljuc_na(log2, p) + vrednost_na(log2, p)) != kontrolni_zbir_od(
            kljuc_na(log, p) + vrednost_na(log, p),
        ),
    ensures
        !dnevnik_ispravan_od(log2, 0),
{
    assert(u32_na(log2, p) == u32_na(log, p));
    assert(u32_na(log2, p + 4) == u32_na(log, p + 4));
    assert(u32_na(log2, p + 8) == u32_na(log, p + 8));
    assert(!ispravan_okvir(log2, p));
    lemma_lanac_ocuvan(log, log2, 0, p);
    lemma_ostecenje_zaustavlja_ucitavanje(log2, 0, p);
}

} // verus!
