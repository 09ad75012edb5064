//! The in-memory index: a list of (key, offset) entries, read as a
//! mapping from each key to the offset of its latest entry.

use vstd::prelude::*;

verus! {

/// One entry of the index: a key and the log offset of a record.
pub struct StavkaIndeksa {
    pub kljuc: Vec<u8>,
    pub pozicija: u64,
}

/// The plain (key, offset) pairs that a list of entries carries.
pub open spec fn parovi_od(stavke: Seq<StavkaIndeksa>) -> Seq<(Seq<u8>, u64)> {
    Seq::new(stavke.len(), |i: int| (stavke[i].kljuc@, stavke[i].pozicija))
}

/// The mapping that a list of pairs denotes: each key maps to the
/// offset of its last pair in the list.
pub open spec fn mapa_parova(parovi: Seq<(Seq<u8>, u64)>) -> Map<Seq<u8>, u64>
    decreases parovi.len(),
{
    if parovi.len() == 0 {
        Map::empty()
    } else {
        mapa_parova(parovi.drop_last()).insert(parovi.last().0, parovi.last().1)
    }
}

/// The mapping that a list of entries denotes.
pub open spec fn mapa_od(stavke: Seq<StavkaIndeksa>) -> Map<Seq<u8>, u64> {
    mapa_parova(parovi_od(stavke))
}

/// The pairs that remain when every pair for `k` is dropped, in their
/// old order.
pub open spec fn bez_kljuca(parovi: Seq<(Seq<u8>, u64)>, k: Seq<u8>) -> Seq<(Seq<u8>, u64)>
    decreases parovi.len(),
{
    if parovi.len() == 0 {
        Seq::empty()
    } else {
        let pre = bez_kljuca(parovi.drop_last(), k);
        if parovi.last().0 == k {
            pre
        } else {
            pre.push(parovi.last())
        }
    }
}

/// Dropping every pair for `k` takes exactly that key out of the
/// mapping and cannot lengthen the list.
pub proof fn lemma_bez_kljuca(parovi: Seq<(Seq<u8>, u64)>, k: Seq<u8>)
    ensures
        mapa_parova(bez_kljuca(parovi, k)) == mapa_parova(parovi).remove(k),
        bez_kljuca(parovi, k).len() <= parovi.len(),
    decreases parovi.len(),
{
    if parovi.len() == 0 {
        assert(mapa_parova(bez_kljuca(parovi, k)) =~= mapa_parova(parovi).remove(k));
    } else {
        lemma_bez_kljuca(parovi.drop_last(), k);
        if parovi.last().0 == k {
            assert(mapa_parova(bez_kljuca(parovi, k)) =~= mapa_parova(parovi).remove(k));
        } else {
            assert(bez_kljuca(parovi, k).drop_last() =~= bez_kljuca(parovi.drop_last(), k));
            assert(bez_kljuca(parovi, k).last() == parovi.last());
            assert(mapa_parova(bez_kljuca(parovi, k)) =~= mapa_parova(parovi).remove(k));
        }
    }
}

/// A bound that holds of every key in a list of pairs still holds
/// after the pairs for one key are dropped.
pub proof fn lemma_bez_kljuca_kljucevi(parovi: Seq<(Seq<u8>, u64)>, k: Seq<u8>, granica: nat)
    requires
        forall|i: int| 0 <= i < parovi.len() ==> #[trigger] parovi[i].0.len() <= granica,
    ensures
        forall|i: int| 0 <= i < bez_kljuca(parovi, k).len()
            ==> #[trigger] bez_kljuca(parovi, k)[i].0.len() <= granica,
    decreases parovi.len(),
{
    if parovi.len() > 0 {
        assert(forall|i: int| 0 <= i < parovi.drop_last().len()
            ==> #[trigger] parovi.drop_last()[i].0.len() <= granica);
        lemma_bez_kljuca_kljucevi(parovi.drop_last(), k, granica);
        let bez = bez_kljuca(parovi, k);
        let pre = bez_kljuca(parovi.drop_last(), k);
        assert(parovi[parovi.len() - 1].0.len() <= granica);
        assert forall|i: int| 0 <= i < bez.len() implies #[trigger] bez[i].0.len() <= granica by {
            if parovi.last().0 != k && i == bez.len() - 1 {
                assert(bez[i] == parovi.last());
            } else {
                assert(bez[i] == pre[i]);
            }
        }
    }
}

/// The index over the log: a key maps to the byte offset of the most
/// recent record appended for it.
pub struct Indeks {
    pub stavke: Vec<StavkaIndeksa>,
}

impl View for Indeks {
    type V = Map<Seq<u8>, u64>;

    open spec fn view(&self) -> Map<Seq<u8>, u64> {
        mapa_od(self.stavke@)
    }
}

/// Two byte slices hold the same bytes.
pub fn bajtovi_jednaki(a: &[u8], b: &[u8]) -> (r: bool)
    ensures
        r == (a@ == b@),
{
    let duz = a.len();
    if duz != b.len() {
        proof {
            assert(a@.len() != b@.len());
        }
        return false;
    }
    let mut i: usize = 0;
    while i < duz
        invariant
            duz == a@.len(),
            duz == b@.len(),
            i <= duz,
            forall|j: int| 0 <= j < i ==> a@[j] == b@[j],
        decreases duz - i,
    {
        if a[i] != b[i] {
            return false;
        }
        i = i + 1;
    }
    proof {
        assert(a@ =~= b@);
    }
    true
}

impl Indeks {
    /// An empty index: no key is mapped.
    pub fn nova() -> (r: Indeks)
        ensures
            r@ == Map::<Seq<u8>, u64>::empty(),
            r.stavke@.len() == 0,
    {
        Indeks { stavke: Vec::new() }
    }

    /// Maps `kljuc` to `pozicija`, superseding any earlier entry.
    pub fn postavi(&mut self, kljuc: &[u8], pozicija: u64)
        ensures
            final(self)@ == old(self)@.insert(kljuc@, pozicija),
            parovi_od(final(self).stavke@) == parovi_od(old(self).stavke@).push(
                (kljuc@, pozicija),
            ),
    {
        self.stavke.push(StavkaIndeksa { kljuc: vstd::slice::slice_to_vec(kljuc), pozicija });
        proof {
            assert(parovi_od(self.stavke@)
                =~= parovi_od(old(self).stavke@).push((kljuc@, pozicija)));
            assert(parovi_od(self.stavke@).drop_last() =~= parovi_od(old(self).stavke@));
            assert(self@ =~= old(self)@.insert(kljuc@, pozicija));
        }
    }

    /// The offset mapped for `kljuc`, or `None` if the key is absent.
    pub fn pronadji(&self, kljuc: &[u8]) -> (r: Option<u64>)
        ensures
            r == (if self@.dom().contains(kljuc@) {
                Some(self@[kljuc@])
            } else {
                None::<u64>
            }),
    {
        let duz = self.stavke.len();
        let mut nadjeno: Option<u64> = None;
        let mut i: usize = 0;
        while i < duz
            invariant
                duz == self.stavke@.len(),
                i <= duz,
                nadjeno == (if mapa_od(self.stavke@.subrange(0, i as int)).dom().contains(kljuc@) {
                    Some(mapa_od(self.stavke@.subrange(0, i as int))[kljuc@])
                } else {
                    None::<u64>
                }),
            decreases duz - i,
        {
            proof {
                assert(parovi_od(self.stavke@.subrange(0, i + 1)).drop_last()
                    =~= parovi_od(self.stavke@.subrange(0, i as int)));
                assert(parovi_od(self.stavke@.subrange(0, i + 1)).last()
                    == (self.stavke@[i as int].kljuc@, self.stavke@[i as int].pozicija));
            }
            if bajtovi_jednaki(self.stavke[i].kljuc.as_slice(), kljuc) {
                nadjeno = Some(self.stavke[i].pozicija);
            }
            i = i + 1;
        }
        proof {
            assert(self.stavke@.subrange(0, duz as int) =~= self.stavke@);
        }
        nadjeno
    }

    /// Drops every entry for `kljuc`; the mapping loses that key and
    /// keeps every other.
    pub fn ukloni(&mut self, kljuc: &[u8])
        ensures
            parovi_od(final(self).stavke@) == bez_kljuca(parovi_od(old(self).stavke@), kljuc@),
            final(self)@ == old(self)@.remove(kljuc@),
    {
        let duz = self.stavke.len();
        let mut nove: Vec<StavkaIndeksa> = Vec::new();
        let mut i: usize = 0;
        while i < duz
            invariant
                duz == self.stavke@.len(),
                i <= duz,
                parovi_od(nove@) == bez_kljuca(parovi_od(self.stavke@.subrange(0, i as int)),
                    kljuc@),
            decreases duz - i,
        {
            proof {
                assert(parovi_od(self.stavke@.subrange(0, i + 1)).drop_last()
                    =~= parovi_od(self.stavke@.subrange(0, i as int)));
                assert(parovi_od(self.stavke@.subrange(0, i + 1)).last()
                    == (self.stavke@[i as int].kljuc@, self.stavke@[i as int].pozicija));
            }
            let ghost stare = parovi_od(nove@);
            if !bajtovi_jednaki(self.stavke[i].kljuc.as_slice(), kljuc) {
                let kopija = vstd::slice::slice_to_vec(self.stavke[i].kljuc.as_slice());
                let pozicija = self.stavke[i].pozicija;
                nove.push(StavkaIndeksa { kljuc: kopija, pozicija });
                proof {
                    assert(parovi_od(nove@) =~= stare.push(
                        (self.stavke@[i as int].kljuc@, self.stavke@[i as int].pozicija),
                    ));
                }
            }
            i = i + 1;
        }
        proof {
            assert(self.stavke@.subrange(0, duz as int) =~= self.stavke@);
            lemma_bez_kljuca(parovi_od(self.stavke@), kljuc@);
        }
        self.stavke = nove;
    }
}

} // verus!
