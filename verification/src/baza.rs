//! The store: an append-only byte log of checksummed records and the
//! index that maps each key to the offset of its latest record.
//!
//! The log lives in a file; the store works on the file's bytes, which
//! the caller reads in when it opens the store and writes out after a
//! mutation.

use vstd::prelude::*;

use crate::indeks::{bajtovi_jednaki, Indeks};
use crate::okvir::{
    dodaj_bajtove, ispravan_okvir, kljuc_na, lemma_dodat_okvir, lemma_okvir_stabilan,
    okvir_bajtovi, procitaj_u32, u32_na, upisi_le32, velicina_okvira, vrednost_na,
};
use crate::zbir::izracunaj_kontrolni_zbir;

verus! {

/// One record: a key and the value stored under it.
#[derive(Debug)]
pub struct KljucVrednostPar {
    pub kljuc: Vec<u8>,
    pub vrednost: Vec<u8>,
}

/// What can go wrong inside the store. I/O failures belong to the
/// caller that owns the file; a logical miss is a plain `None`.
#[derive(Clone, Copy, Debug, PartialEq, Eq, Structural)]
pub enum Greska {
    /// A frame is truncated or its checksum disagrees with its payload.
    /// Processing never continues past such a record.
    OsteceniPodaci,
    /// The snapshot record that a lookup relied on is not in the index.
    NemaSnimka,
}

/// From offset `p` on, the log is a clean run of valid frames ending
/// exactly at the end of the bytes.
pub open spec fn dnevnik_ispravan_od(log: Seq<u8>, p: int) -> bool
    decreases log.len() - p
        when 0 <= p <= log.len()
{
    if p == log.len() {
        true
    } else if !ispravan_okvir(log, p) {
        false
    } else {
        dnevnik_ispravan_od(log, p + velicina_okvira(log, p))
    }
}

/// The index that a replay from offset `p` builds, starting from `m`:
/// every frame's key is mapped to that frame's offset, later frames
/// superseding earlier ones.
pub open spec fn indeks_posle(log: Seq<u8>, p: int, m: Map<Seq<u8>, u64>) -> Map<Seq<u8>, u64>
    decreases log.len() - p
        when 0 <= p <= log.len()
{
    if p == log.len() || !ispravan_okvir(log, p) {
        m
    } else {
        indeks_posle(log, p + velicina_okvira(log, p), m.insert(kljuc_na(log, p), p as u64))
    }
}

/// What a linear scan from offset `p` for the key `trazen` finds,
/// given that `acc` was the last match so far: the offset and value of
/// the last frame whose key is `trazen`.
pub open spec fn nadji_od(
    log: Seq<u8>,
    p: int,
    trazen: Seq<u8>,
    acc: Option<(u64, Seq<u8>)>,
) -> Option<(u64, Seq<u8>)>
    decreases log.len() - p
        when 0 <= p <= log.len()
{
    if p == log.len() || !ispravan_okvir(log, p) {
        acc
    } else {
        nadji_od(
            log,
            p + velicina_okvira(log, p),
            trazen,
            if kljuc_na(log, p) == trazen {
                Some((p as u64, vrednost_na(log, p)))
            } else {
                acc
            },
        )
    }
}

/// The store: the log's bytes and the in-memory index over them.
pub struct BazaKV {
    pub dnevnik: Vec<u8>,
    pub indeks: Indeks,
}

impl BazaKV {
    /// Every index entry points at a valid frame whose key is the
    /// entry's own key.
    pub open spec fn dobro_oblikovana(&self) -> bool {
        forall|k: Seq<u8>| #[trigger] self.indeks@.dom().contains(k) ==> {
            &&& ispravan_okvir(self.dnevnik@, self.indeks@[k] as int)
            &&& kljuc_na(self.dnevnik@, self.indeks@[k] as int) == k
        }
    }

    /// Opens a store over the log bytes; the index starts empty and is
    /// filled by `ucitaj`.
    pub fn otvori(dnevnik: Vec<u8>) -> (r: BazaKV)
        ensures
            r.dnevnik@ == dnevnik@,
            r.indeks@ == Map::<Seq<u8>, u64>::empty(),
            r.dobro_oblikovana(),
    {
        BazaKV { dnevnik, indeks: Indeks::nova() }
    }

    /// The offset one past the last byte of the log: where the next
    /// appended frame will begin.
    pub fn idi_na_kraj(&self) -> (r: u64)
        ensures
            r == self.dnevnik@.len(),
    {
        self.dnevnik.len() as u64
    }

    /// Parses the one frame that begins at `pozicija`, checking its
    /// checksum against its payload.
    fn obradi_zapis(dnevnik: &Vec<u8>, pozicija: usize) -> (r: Result<KljucVrednostPar, Greska>)
        ensures
            match r {
                Ok(kv) => {
                    &&& ispravan_okvir(dnevnik@, pozicija as int)
                    &&& kv.kljuc@ == kljuc_na(dnevnik@, pozicija as int)
                    &&& kv.vrednost@ == vrednost_na(dnevnik@, pozicija as int)
                },
                Err(g) => g == Greska::OsteceniPodaci && !ispravan_okvir(
                    dnevnik@,
                    pozicija as int,
                ),
            },
    {
        let ghost log = dnevnik@;
        let ghost p = pozicija as int;
        let duz = dnevnik.len();
        if pozicija > duz || duz - pozicija < 12 {
            return Err(Greska::OsteceniPodaci);
        }
        let sacuvani_zbir = procitaj_u32(dnevnik.as_slice(), pozicija);
        let kljuc_duz = procitaj_u32(dnevnik.as_slice(), pozicija + 4);
        let vred_duz = procitaj_u32(dnevnik.as_slice(), pozicija + 8);
        let ostatak = duz - (pozicija + 12);
        if (kljuc_duz as u64) + (vred_duz as u64) > (ostatak as u64) {
            proof {
                assert(p + velicina_okvira(log, p) > log.len());
            }
            return Err(Greska::OsteceniPodaci);
        }
        let kd = kljuc_duz as usize;
        let vd = vred_duz as usize;
        let pocetak = pozicija + 12;
        let podatak = vstd::slice::slice_subrange(dnevnik.as_slice(), pocetak, pocetak + kd + vd);
        let izracunati_zbir = izracunaj_kontrolni_zbir(podatak);
        proof {
            assert(log.subrange(p + 12, p + velicina_okvira(log, p))
                =~= kljuc_na(log, p) + vrednost_na(log, p));
        }
        if izracunati_zbir != sacuvani_zbir {
            return Err(Greska::OsteceniPodaci);
        }
        let kljuc = vstd::slice::slice_to_vec(
            vstd::slice::slice_subrange(dnevnik.as_slice(), pocetak, pocetak + kd),
        );
        let vrednost = vstd::slice::slice_to_vec(
            vstd::slice::slice_subrange(dnevnik.as_slice(), pocetak + kd, pocetak + kd + vd),
        );
        Ok(KljucVrednostPar { kljuc, vrednost })
    }

    /// Reads the one record whose frame begins at `pozicija`. Any
    /// offset that does not start a valid frame is corruption.
    pub fn uzmi_na(&self, pozicija: u64) -> (r: Result<KljucVrednostPar, Greska>)
        ensures
            match r {
                Ok(kv) => {
                    &&& ispravan_okvir(self.dnevnik@, pozicija as int)
                    &&& kv.kljuc@ == kljuc_na(self.dnevnik@, pozicija as int)
                    &&& kv.vrednost@ == vrednost_na(self.dnevnik@, pozicija as int)
                },
                Err(g) => g == Greska::OsteceniPodaci && !ispravan_okvir(
                    self.dnevnik@,
                    pozicija as int,
                ),
            },
    {
        if pozicija > self.dnevnik.len() as u64 {
            return Err(Greska::OsteceniPodaci);
        }
        Self::obradi_zapis(&self.dnevnik, pozicija as usize)
    }

    /// Replays the whole log from the start, mapping each key to the
    /// offset of its last record. Stops cleanly at a frame boundary at
    /// the end of the bytes; a truncated frame or a checksum mismatch
    /// is corruption and halts the replay at once.
    pub fn ucitaj(&mut self) -> (r: Result<(), Greska>)
        ensures
            final(self).dnevnik@ == old(self).dnevnik@,
            dnevnik_ispravan_od(old(self).dnevnik@, 0) ==> (r matches Ok(_)
                && final(self).indeks@
                == indeks_posle(old(self).dnevnik@, 0, old(self).indeks@)),
            !dnevnik_ispravan_od(old(self).dnevnik@, 0) ==> r == Err::<(), Greska>(
                Greska::OsteceniPodaci,
            ),
            old(self).dobro_oblikovana() ==> final(self).dobro_oblikovana(),
    {
        let duz = self.dnevnik.len();
        let mut pozicija: usize = 0;
        while pozicija < duz
            invariant
                pozicija <= duz,
                duz == self.dnevnik@.len(),
                self.dnevnik@ == old(self).dnevnik@,
                indeks_posle(self.dnevnik@, 0, old(self).indeks@)
                    == indeks_posle(self.dnevnik@, pozicija as int, self.indeks@),
                dnevnik_ispravan_od(self.dnevnik@, 0)
                    <==> dnevnik_ispravan_od(self.dnevnik@, pozicija as int),
                old(self).dobro_oblikovana() ==> self.dobro_oblikovana(),
            decreases duz - pozicija,
        {
            let ghost log = self.dnevnik@;
            let ghost p = pozicija as int;
            match Self::obradi_zapis(&self.dnevnik, pozicija) {
                Err(_) => {
                    return Err(Greska::OsteceniPodaci);
                },
                Ok(kv) => {
                    let ghost vel = velicina_okvira(log, p);
                    proof {
                        assert(kv.kljuc@.len() == u32_na(log, p + 4) as int);
                        assert(kv.vrednost@.len() == u32_na(log, p + 8) as int);
                        assert(p + vel <= duz);
                    }
                    self.indeks.postavi(kv.kljuc.as_slice(), pozicija as u64);
                    proof {
                        if old(self).dobro_oblikovana() {
                            assert forall|k: Seq<u8>|
                                #[trigger] self.indeks@.dom().contains(k) implies {
                                &&& ispravan_okvir(self.dnevnik@, self.indeks@[k] as int)
                                &&& kljuc_na(self.dnevnik@, self.indeks@[k] as int) == k
                            } by {
                                if k != kv.kljuc@ {
                                    assert(old(self).indeks@.dom().contains(k)
                                        || indeks_posle(log, 0, old(self).indeks@)
                                        =~= indeks_posle(log, 0, old(self).indeks@));
                                }
                            }
                        }
                    }
                    pozicija = pozicija + 12 + kv.kljuc.len() + kv.vrednost.len();
                },
            }
        }
        Ok(())
    }

    /// Looks the key up in the index; a hit reads the record at the
    /// stored offset and yields its value. Reflects the latest
    /// mutation for the key, never a superseded one.
    pub fn uzmi(&self, kljuc: &[u8]) -> (r: Option<Vec<u8>>)
        requires
            self.dobro_oblikovana(),
        ensures
            match r {
                Some(v) => self.indeks@.dom().contains(kljuc@) && v@ == vrednost_na(
                    self.dnevnik@,
                    self.indeks@[kljuc@] as int,
                ),
                None => !self.indeks@.dom().contains(kljuc@),
            },
    {
        let pozicija = match self.indeks.pronadji(kljuc) {
            None => {
                return None;
            },
            Some(pozicija) => pozicija,
        };
        match self.uzmi_na(pozicija) {
            Ok(kv) => Some(kv.vrednost),
            Err(_) => {
                proof {
                    assert(false);
                }
                None
            },
        }
    }

    /// Scans the whole log for `trazen`, remembering the last matching
    /// record; no in-memory index is consulted.
    pub fn nadji(&self, trazen: &[u8]) -> (r: Result<Option<(u64, Vec<u8>)>, Greska>)
        ensures
            dnevnik_ispravan_od(self.dnevnik@, 0) ==> match r {
                Ok(o) => match o {
                    None => nadji_od(self.dnevnik@, 0, trazen@, None) is None,
                    Some(par) => nadji_od(self.dnevnik@, 0, trazen@, None) == Some(
                        (par.0, par.1@),
                    ),
                },
                Err(_) => false,
            },
            !dnevnik_ispravan_od(self.dnevnik@, 0) ==> r == Err::<Option<(u64, Vec<u8>)>, Greska>(
                Greska::OsteceniPodaci,
            ),
    {
        let duz = self.dnevnik.len();
        let mut pozicija: usize = 0;
        let mut nadjen: Option<(u64, Vec<u8>)> = None;
        while pozicija < duz
            invariant
                pozicija <= duz,
                duz == self.dnevnik@.len(),
                nadji_od(self.dnevnik@, 0, trazen@, None) == nadji_od(
                    self.dnevnik@,
                    pozicija as int,
                    trazen@,
                    match nadjen {
                        None => None::<(u64, Seq<u8>)>,
                        Some(par) => Some((par.0, par.1@)),
                    },
                ),
                dnevnik_ispravan_od(self.dnevnik@, 0)
                    <==> dnevnik_ispravan_od(self.dnevnik@, pozicija as int),
            decreases duz - pozicija,
        {
            let ghost log = self.dnevnik@;
            let ghost p = pozicija as int;
            match Self::obradi_zapis(&self.dnevnik, pozicija) {
                Err(_) => {
                    return Err(Greska::OsteceniPodaci);
                },
                Ok(kv) => {
                    proof {
                        assert(kv.kljuc@.len() == u32_na(log, p + 4) as int);
                        assert(kv.vrednost@.len() == u32_na(log, p + 8) as int);
                        assert(p + velicina_okvira(log, p) <= duz);
                    }
                    let nova_pozicija = pozicija + 12 + kv.kljuc.len() + kv.vrednost.len();
                    if bajtovi_jednaki(kv.kljuc.as_slice(), trazen) {
                        nadjen = Some((pozicija as u64, kv.vrednost));
                    }
                    pozicija = nova_pozicija;
                },
            }
        }
        Ok(nadjen)
    }

    /// Appends one frame for the pair to the end of the log and
    /// returns the offset where the frame begins. The index is left
    /// alone.
    pub fn unesi_ali_zanemari_indeks(&mut self, kljuc: &[u8], vrednost: &[u8]) -> (r: u64)
        requires
            kljuc@.len() <= u32::MAX,
            vrednost@.len() <= u32::MAX,
        ensures
            final(self).dnevnik@ == old(self).dnevnik@ + okvir_bajtovi(kljuc@, vrednost@),
            r == old(self).dnevnik@.len(),
            final(self).indeks == old(self).indeks,
    {
        let pozicija = self.dnevnik.len() as u64;
        let mut podatak: Vec<u8> = Vec::new();
        dodaj_bajtove(&mut podatak, kljuc);
        dodaj_bajtove(&mut podatak, vrednost);
        let zbir = izracunaj_kontrolni_zbir(podatak.as_slice());
        upisi_le32(&mut self.dnevnik, zbir);
        upisi_le32(&mut self.dnevnik, kljuc.len() as u32);
        upisi_le32(&mut self.dnevnik, vrednost.len() as u32);
        dodaj_bajtove(&mut self.dnevnik, podatak.as_slice());
        proof {
            assert(self.dnevnik@ =~= old(self).dnevnik@ + okvir_bajtovi(kljuc@, vrednost@));
        }
        pozicija
    }

    /// Appends a record for the pair and points the index at it: the
    /// only mutation primitive. The value under `kljuc` is now
    /// `vrednost`; every other key is untouched.
    pub fn unesi(&mut self, kljuc: &[u8], vrednost: &[u8])
        requires
            kljuc@.len() <= u32::MAX,
            vrednost@.len() <= u32::MAX,
        ensures
            final(self).dnevnik@ == old(self).dnevnik@ + okvir_bajtovi(kljuc@, vrednost@),
            final(self).indeks@ == old(self).indeks@.insert(
                kljuc@,
                old(self).dnevnik@.len() as u64,
            ),
            old(self).dobro_oblikovana() ==> final(self).dobro_oblikovana(),
    {
        let pozicija = self.unesi_ali_zanemari_indeks(kljuc, vrednost);
        self.indeks.postavi(kljuc, pozicija);
        proof {
            lemma_dodat_okvir(old(self).dnevnik@, kljuc@, vrednost@);
            if old(self).dobro_oblikovana() {
                assert forall|k: Seq<u8>| #[trigger] self.indeks@.dom().contains(k) implies {
                    &&& ispravan_okvir(self.dnevnik@, self.indeks@[k] as int)
                    &&& kljuc_na(self.dnevnik@, self.indeks@[k] as int) == k
                } by {
                    if k == kljuc@ {
                    } else {
                        lemma_okvir_stabilan(
                            old(self).dnevnik@,
                            okvir_bajtovi(kljuc@, vrednost@),
                            old(self).indeks@[k] as int,
                        );
                    }
                }
            }
        }
    }

    /// Re-appending is the only way to change a key: `azuriraj` is
    /// `unesi` under another name.
    #[inline]
    pub fn azuriraj(&mut self, kljuc: &[u8], vrednost: &[u8])
        requires
            kljuc@.len() <= u32::MAX,
            vrednost@.len() <= u32::MAX,
        ensures
            final(self).dnevnik@ == old(self).dnevnik@ + okvir_bajtovi(kljuc@, vrednost@),
            final(self).indeks@ == old(self).indeks@.insert(
                kljuc@,
                old(self).dnevnik@.len() as u64,
            ),
            old(self).dobro_oblikovana() ==> final(self).dobro_oblikovana(),
    {
        self.unesi(kljuc, vrednost)
    }

    /// Deletion appends a record with an empty value; the key stays
    /// present and a later lookup yields the empty value, not an
    /// absent key.
    #[inline]
    pub fn obrisi(&mut self, kljuc: &[u8])
        requires
            kljuc@.len() <= u32::MAX,
        ensures
            final(self).dnevnik@ == old(self).dnevnik@ + okvir_bajtovi(
                kljuc@,
                Seq::<u8>::empty(),
            ),
            final(self).indeks@ == old(self).indeks@.insert(
                kljuc@,
                old(self).dnevnik@.len() as u64,
            ),
            old(self).dobro_oblikovana() ==> final(self).dobro_oblikovana(),
    {
        let prazno: Vec<u8> = Vec::new();
        self.unesi(kljuc, prazno.as_slice());
    }
}

} // verus!
