//! The snapshot of the index that the disk-index variant appends to
//! the log under a reserved sentinel key, and the lookups that decode
//! it instead of trusting the live in-memory index.
//!
//! Snapshot payload layout, all fields little-endian: a pair count,
//! then for each pair its key length, its key bytes and its offset.

use vstd::prelude::*;

use crate::baza::{BazaKV, Greska};
use crate::indeks::{
    bez_kljuca, lemma_bez_kljuca, lemma_bez_kljuca_kljucevi, mapa_parova, parovi_od, Indeks,
    StavkaIndeksa,
};
use crate::okvir::{
    dodaj_bajtove, ispravan_okvir, le32, le64, lemma_le32_obrtanje, lemma_le64_obrtanje,
    okvir_bajtovi, procitaj_u32, procitaj_u64, u32_na, u64_na, upisi_le32, upisi_le64, vrednost_na,
};

verus! {

/// The bytes of one snapshot pair: key length, key, offset.
pub open spec fn par_bajtovi(kljuc: Seq<u8>, pozicija: u64) -> Seq<u8> {
    le32(kljuc.len() as u32) + kljuc + le64(pozicija)
}

/// The bytes of a run of pairs, one after another.
pub open spec fn parovi_bajtovi(parovi: Seq<(Seq<u8>, u64)>) -> Seq<u8>
    decreases parovi.len(),
{
    if parovi.len() == 0 {
        Seq::empty()
    } else {
        par_bajtovi(parovi.first().0, parovi.first().1) + parovi_bajtovi(parovi.drop_first())
    }
}

/// The whole snapshot payload: the pair count, then the pairs.
pub open spec fn snimak_bajtovi(parovi: Seq<(Seq<u8>, u64)>) -> Seq<u8> {
    le32(parovi.len() as u32) + parovi_bajtovi(parovi)
}

/// What decoding a run of `n` pairs from offset `p` yields, appended
/// to `acc`: `None` when the bytes do not carry exactly `n` pairs
/// ending at the end of the input.
pub open spec fn dekodiraj_parove(
    b: Seq<u8>,
    p: int,
    n: nat,
    acc: Seq<(Seq<u8>, u64)>,
) -> Option<Seq<(Seq<u8>, u64)>>
    decreases n,
{
    if n == 0 {
        if p == b.len() {
            Some(acc)
        } else {
            None
        }
    } else if 0 <= p && p + 4 <= b.len() && p + 4 + (u32_na(b, p) as int) + 8 <= b.len() {
        let kd = u32_na(b, p) as int;
        dekodiraj_parove(
            b,
            p + 4 + kd + 8,
            (n - 1) as nat,
            acc.push((b.subrange(p + 4, p + 4 + kd), u64_na(b, p + 4 + kd))),
        )
    } else {
        None
    }
}

/// What decoding a whole snapshot payload yields.
pub open spec fn dekodiraj_spec(b: Seq<u8>) -> Option<Seq<(Seq<u8>, u64)>> {
    if b.len() >= 4 {
        dekodiraj_parove(b, 4, u32_na(b, 0) as nat, Seq::empty())
    } else {
        None
    }
}

/// Encoding distributes over appending one pair at the end.
proof fn lemma_parovi_bajtovi_push(parovi: Seq<(Seq<u8>, u64)>, par: (Seq<u8>, u64))
    ensures
        parovi_bajtovi(parovi.push(par)) == parovi_bajtovi(parovi) + par_bajtovi(par.0, par.1),
    decreases parovi.len(),
{
    if parovi.len() == 0 {
        let jedini = parovi.push(par);
        assert(jedini.first() == par);
        assert(jedini.drop_first() =~= Seq::<(Seq<u8>, u64)>::empty());
        assert(parovi_bajtovi(jedini)
            == par_bajtovi(par.0, par.1) + parovi_bajtovi(jedini.drop_first()));
        assert(parovi_bajtovi(Seq::<(Seq<u8>, u64)>::empty()) == Seq::<u8>::empty());
        assert(parovi_bajtovi(jedini) =~= par_bajtovi(par.0, par.1));
        assert(parovi_bajtovi(parovi) == Seq::<u8>::empty());
        assert(parovi_bajtovi(parovi.push(par))
            =~= parovi_bajtovi(parovi) + par_bajtovi(par.0, par.1));
    } else {
        assert(parovi.push(par).drop_first() =~= parovi.drop_first().push(par));
        assert(parovi.push(par).first() == parovi.first());
        assert(parovi_bajtovi(parovi.push(par))
            == par_bajtovi(parovi.first().0, parovi.first().1)
            + parovi_bajtovi(parovi.drop_first().push(par)));
        lemma_parovi_bajtovi_push(parovi.drop_first(), par);
        assert(parovi_bajtovi(parovi.push(par))
            =~= parovi_bajtovi(parovi) + par_bajtovi(par.0, par.1));
    }
}

/// Decoding inverts encoding, pair by pair, from any offset whose
/// suffix is exactly the encoded run.
proof fn lemma_dekodiranje_sufiksa(
    b: Seq<u8>,
    p: int,
    parovi: Seq<(Seq<u8>, u64)>,
    acc: Seq<(Seq<u8>, u64)>,
)
    requires
        0 <= p <= b.len(),
        b.subrange(p, b.len() as int) == parovi_bajtovi(parovi),
        forall|i: int| 0 <= i < parovi.len() ==> #[trigger] parovi[i].0.len() <= u32::MAX,
    ensures
        dekodiraj_parove(b, p, parovi.len(), acc) == Some(acc + parovi),
    decreases parovi.len(),
{
    if parovi.len() == 0 {
        assert(b.len() - p == parovi_bajtovi(parovi).len());
        assert(acc + parovi =~= acc);
    } else {
        let par = parovi.first();
        let kd = par.0.len() as int;
        let pb = par_bajtovi(par.0, par.1);
        let rep = parovi_bajtovi(parovi.drop_first());
        assert(parovi[0].0.len() <= u32::MAX);
        assert(b.subrange(p, b.len() as int) == pb + rep);
        assert(pb.len() == 4 + kd + 8);
        assert(p + 4 + kd + 8 <= b.len());
        assert(pb.subrange(0, 4) =~= le32(par.0.len() as u32));
        assert(pb.subrange(4, 4 + kd) =~= par.0);
        assert(pb.subrange(4 + kd, 4 + kd + 8) =~= le64(par.1));
        assert forall|j: int| 0 <= j < pb.len() implies b[p + j] == pb[j] by {
            assert(b.subrange(p, b.len() as int)[j] == b[p + j]);
            assert((pb + rep)[j] == pb[j]);
        }
        assert(b.subrange(p, p + 4) =~= pb.subrange(0, 4));
        assert(b.subrange(p + 4, p + 4 + kd) =~= pb.subrange(4, 4 + kd));
        assert(b.subrange(p + 4 + kd, p + 4 + kd + 8) =~= pb.subrange(4 + kd, 4 + kd + 8));
        lemma_le32_obrtanje(par.0.len() as u32);
        assert(u32_na(b, p) == par.0.len() as u32);
        assert(u32_na(b, p) as int == kd);
        lemma_le64_obrtanje(par.1);
        assert(u64_na(b, p + 4 + kd) == par.1);
        assert forall|j: int| 0 <= j < rep.len()
            implies b.subrange(p + 4 + kd + 8, b.len() as int)[j] == rep[j] by {
            assert(b.subrange(p, b.len() as int)[pb.len() + j] == b[p + pb.len() + j]);
            assert((pb + rep)[pb.len() + j] == rep[j]);
        }
        assert(b.subrange(p + 4 + kd + 8, b.len() as int) =~= rep);
        assert(forall|i: int| 0 <= i < parovi.drop_first().len()
            ==> #[trigger] parovi.drop_first()[i].0.len() <= u32::MAX);
        lemma_dekodiranje_sufiksa(b, p + 4 + kd + 8, parovi.drop_first(), acc.push(par));
        assert(acc.push(par) + parovi.drop_first() =~= acc + parovi);
        assert(acc.push((b.subrange(p + 4, p + 4 + kd), u64_na(b, p + 4 + kd))) == acc.push(par));
    }
}

/// Decoding a snapshot payload yields exactly the pairs it was encoded
/// from: the round trip of the snapshot format.
pub proof fn lemma_snimak_obrtanje(parovi: Seq<(Seq<u8>, u64)>)
    requires
        parovi.len() <= u32::MAX,
        forall|i: int| 0 <= i < parovi.len() ==> #[trigger] parovi[i].0.len() <= u32::MAX,
    ensures
        dekodiraj_spec(snimak_bajtovi(parovi)) == Some(parovi),
{
    let b = snimak_bajtovi(parovi);
    assert(b.subrange(0, 4) =~= le32(parovi.len() as u32));
    lemma_le32_obrtanje(parovi.len() as u32);
    assert(u32_na(b, 0) == parovi.len() as u32);
    assert(b.subrange(4, b.len() as int) =~= parovi_bajtovi(parovi));
    lemma_dekodiranje_sufiksa(b, 4, parovi, Seq::empty());
    assert(Seq::<(Seq<u8>, u64)>::empty() + parovi =~= parovi);
}

/// Serializes the index entries into one snapshot payload.
pub fn kodiraj_snimak(stavke: &Vec<StavkaIndeksa>) -> (r: Vec<u8>)
    requires
        stavke@.len() <= u32::MAX,
        forall|i: int| 0 <= i < stavke@.len() ==> #[trigger] stavke@[i].kljuc@.len() <= u32::MAX,
    ensures
        r@ == snimak_bajtovi(parovi_od(stavke@)),
{
    let duz = stavke.len();
    let mut r: Vec<u8> = Vec::new();
    upisi_le32(&mut r, duz as u32);
    let mut i: usize = 0;
    while i < duz
        invariant
            duz == stavke@.len(),
            i <= duz,
            forall|j: int| 0 <= j < duz ==> #[trigger] stavke@[j].kljuc@.len() <= u32::MAX,
            r@ == le32(duz as u32) + parovi_bajtovi(parovi_od(stavke@.subrange(0, i as int))),
        decreases duz - i,
    {
        let kljuc_duz = stavke[i].kljuc.len();
        upisi_le32(&mut r, kljuc_duz as u32);
        dodaj_bajtove(&mut r, stavke[i].kljuc.as_slice());
        upisi_le64(&mut r, stavke[i].pozicija);
        proof {
            let par = (stavke@[i as int].kljuc@, stavke@[i as int].pozicija);
            lemma_parovi_bajtovi_push(parovi_od(stavke@.subrange(0, i as int)), par);
            assert(parovi_od(stavke@.subrange(0, i + 1))
                =~= parovi_od(stavke@.subrange(0, i as int)).push(par));
            assert(r@ =~= le32(duz as u32)
                + parovi_bajtovi(parovi_od(stavke@.subrange(0, i + 1))));
        }
        i = i + 1;
    }
    proof {
        assert(stavke@.subrange(0, duz as int) =~= stavke@);
        assert(parovi_od(stavke@).len() == duz);
    }
    r
}

/// Parses a snapshot payload back into index entries; `None` when the
/// bytes are not exactly one encoded snapshot.
pub fn dekodiraj_snimak(bajtovi: &[u8]) -> (r: Option<Indeks>)
    ensures
        match r {
            Some(ix) => dekodiraj_spec(bajtovi@) == Some(parovi_od(ix.stavke@)),
            None => dekodiraj_spec(bajtovi@) is None,
        },
{
    let duz = bajtovi.len();
    if duz < 4 {
        return None;
    }
    let broj = procitaj_u32(bajtovi, 0);
    let mut stavke: Vec<StavkaIndeksa> = Vec::new();
    let mut pozicija: usize = 4;
    let mut i: u32 = 0;
    proof {
        assert(parovi_od(stavke@) =~= Seq::<(Seq<u8>, u64)>::empty());
    }
    while i < broj
        invariant
            duz == bajtovi@.len(),
            pozicija <= duz,
            i <= broj,
            broj == u32_na(bajtovi@, 0),
            duz >= 4,
            dekodiraj_parove(bajtovi@, 4, broj as nat, Seq::empty()) == dekodiraj_parove(
                bajtovi@,
                pozicija as int,
                (broj - i) as nat,
                parovi_od(stavke@),
            ),
        decreases broj - i,
    {
        if duz - pozicija < 4 {
            return None;
        }
        let kljuc_duz = procitaj_u32(bajtovi, pozicija);
        if (kljuc_duz as u64) + 8 > (duz - (pozicija + 4)) as u64 {
            return None;
        }
        let kd = kljuc_duz as usize;
        let kljuc = vstd::slice::slice_to_vec(
            vstd::slice::slice_subrange(bajtovi, pozicija + 4, pozicija + 4 + kd),
        );
        let nova_pozicija = procitaj_u64(bajtovi, pozicija + 4 + kd);
        let ghost stari_parovi = parovi_od(stavke@);
        stavke.push(StavkaIndeksa { kljuc, pozicija: nova_pozicija });
        proof {
            assert(parovi_od(stavke@) =~= stari_parovi.push(
                (bajtovi@.subrange(pozicija + 4, pozicija + 4 + kd), u64_na(
                    bajtovi@,
                    pozicija + 4 + kd,
                )),
            ));
        }
        pozicija = pozicija + 4 + kd + 8;
        i = i + 1;
    }
    if pozicija != duz {
        return None;
    }
    Some(Indeks { stavke })
}

/// Writes the index to the log itself: drops the sentinel's own entry,
/// serializes what remains, empties the live index, and appends the
/// payload as an ordinary record under the sentinel key. After the
/// call the in-memory index knows only where that snapshot record is.
pub fn sacuvaj_indeks_na_disku(a: &mut BazaKV, indeks_kljuc: &[u8])
    requires
        indeks_kljuc@.len() <= u32::MAX,
        old(a).indeks.stavke@.len() <= u32::MAX,
        forall|i: int| 0 <= i < old(a).indeks.stavke@.len()
            ==> #[trigger] old(a).indeks.stavke@[i].kljuc@.len() <= u32::MAX,
        snimak_bajtovi(bez_kljuca(parovi_od(old(a).indeks.stavke@), indeks_kljuc@)).len()
            <= u32::MAX,
    ensures
        ({
            let bez = bez_kljuca(parovi_od(old(a).indeks.stavke@), indeks_kljuc@);
            let teret = snimak_bajtovi(bez);
            &&& final(a).dnevnik@ == old(a).dnevnik@ + okvir_bajtovi(indeks_kljuc@, teret)
            &&& final(a).indeks@ == Map::<Seq<u8>, u64>::empty().insert(
                indeks_kljuc@,
                old(a).dnevnik@.len() as u64,
            )
            &&& dekodiraj_spec(teret) == Some(bez)
            &&& mapa_parova(bez) == old(a).indeks@.remove(indeks_kljuc@)
            &&& final(a).dobro_oblikovana()
        }),
{
    let ghost stari_parovi = parovi_od(a.indeks.stavke@);
    a.indeks.ukloni(indeks_kljuc);
    proof {
        lemma_bez_kljuca(stari_parovi, indeks_kljuc@);
        assert(forall|i: int| 0 <= i < stari_parovi.len()
            ==> #[trigger] stari_parovi[i].0.len() <= u32::MAX);
        lemma_bez_kljuca_kljucevi(stari_parovi, indeks_kljuc@, u32::MAX as nat);
        let bez = bez_kljuca(stari_parovi, indeks_kljuc@);
        assert forall|i: int| 0 <= i < a.indeks.stavke@.len()
            implies #[trigger] a.indeks.stavke@[i].kljuc@.len() <= u32::MAX by {
            assert(a.indeks.stavke@[i].kljuc@ == parovi_od(a.indeks.stavke@)[i].0);
            assert(bez[i].0.len() <= u32::MAX);
        }
    }
    let indeks_kao_bajt = kodiraj_snimak(&a.indeks.stavke);
    a.indeks = Indeks::nova();
    a.unesi(indeks_kljuc, indeks_kao_bajt.as_slice());
    proof {
        let bez = bez_kljuca(stari_parovi, indeks_kljuc@);
        lemma_snimak_obrtanje(bez);
        assert(a.indeks@ =~= Map::<Seq<u8>, u64>::empty().insert(
            indeks_kljuc@,
            old(a).dnevnik@.len() as u64,
        ));
    }
}

/// A lookup that trusts no in-memory mapping for the target key: it
/// fetches the snapshot record by the sentinel key, decodes its
/// payload, and reads the target's record at the decoded offset.
pub fn uzmi_preko_snimka(a: &BazaKV, kljuc: &[u8], indeks_kljuc: &[u8]) -> (r: Result<
    Option<Vec<u8>>,
    Greska,
>)
    requires
        a.dobro_oblikovana(),
    ensures
        !a.indeks@.dom().contains(indeks_kljuc@) ==> r == Err::<Option<Vec<u8>>, Greska>(
            Greska::NemaSnimka,
        ),
        a.indeks@.dom().contains(indeks_kljuc@) ==> ({
            let teret = vrednost_na(a.dnevnik@, a.indeks@[indeks_kljuc@] as int);
            match dekodiraj_spec(teret) {
                None => r == Err::<Option<Vec<u8>>, Greska>(Greska::OsteceniPodaci),
                Some(parovi) => {
                    let m = mapa_parova(parovi);
                    if !m.dom().contains(kljuc@) {
                        r == Ok::<Option<Vec<u8>>, Greska>(None)
                    } else if ispravan_okvir(a.dnevnik@, m[kljuc@] as int) {
                        match r {
                            Ok(o) => match o {
                                Some(v) => v@ == vrednost_na(a.dnevnik@, m[kljuc@] as int),
                                None => false,
                            },
                            Err(_) => false,
                        }
                    } else {
                        r == Err::<Option<Vec<u8>>, Greska>(Greska::OsteceniPodaci)
                    }
                },
            }
        }),
{
    let indeks_kao_bajt = match a.uzmi(indeks_kljuc) {
        None => {
            return Err(Greska::NemaSnimka);
        },
        Some(bajt) => bajt,
    };
    let snimak = match dekodiraj_snimak(indeks_kao_bajt.as_slice()) {
        None => {
            return Err(Greska::OsteceniPodaci);
        },
        Some(snimak) => snimak,
    };
    let pozicija = match snimak.pronadji(kljuc) {
        None => {
            return Ok(None);
        },
        Some(pozicija) => pozicija,
    };
    match a.uzmi_na(pozicija) {
        Ok(kv) => Ok(Some(kv.vrednost)),
        Err(_) => Err(Greska::OsteceniPodaci),
    }
}

} // verus!
