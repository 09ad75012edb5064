use libkvbaza::baza::{BazaKV, Greska};

fn prazna() -> BazaKV {
    BazaKV::otvori(Vec::new())
}

#[test]
fn prazan_dnevnik_nema_kljuca() {
    let mut a = prazna();
    assert_eq!(a.ucitaj(), Ok(()));
    assert_eq!(a.uzmi(b"x"), None);
}

#[test]
fn scenario_dva_unosa_istog_kljuca() {
    let mut a = prazna();
    assert_eq!(a.uzmi(b"x"), None);

    a.unesi(b"x", b"hello");
    assert_eq!(a.idi_na_kraj(), 12 + 1 + 5);
    assert_eq!(a.uzmi(b"x"), Some(b"hello".to_vec()));

    a.unesi(b"x", b"world");
    assert!(a.idi_na_kraj() > 12 + 1 + 5);
    assert_eq!(a.uzmi(b"x"), Some(b"world".to_vec()));

    // the first record is superseded but physically intact
    let kv = a.uzmi_na(0).unwrap();
    assert_eq!(kv.kljuc, b"x".to_vec());
    assert_eq!(kv.vrednost, b"hello".to_vec());
}

#[test]
fn poslednji_unos_pobedjuje() {
    let mut a = prazna();
    a.unesi(b"jedan", b"1");
    a.unesi(b"dva", b"2");
    a.unesi(b"jedan", b"111");
    a.unesi(b"tri", b"3");
    assert_eq!(a.uzmi(b"jedan"), Some(b"111".to_vec()));
    assert_eq!(a.uzmi(b"dva"), Some(b"2".to_vec()));
    assert_eq!(a.uzmi(b"tri"), Some(b"3".to_vec()));
    assert_eq!(a.uzmi(b"cetiri"), None);
}

#[test]
fn azuriraj_je_unesi() {
    let mut a = prazna();
    a.unesi(b"k", b"staro");
    a.azuriraj(b"k", b"novo");
    assert_eq!(a.uzmi(b"k"), Some(b"novo".to_vec()));
}

#[test]
fn obrisi_ostavlja_prazan_zapis() {
    let mut a = prazna();
    a.unesi(b"k", b"vrednost");
    a.obrisi(b"k");
    // present with an empty value, not absent
    assert_eq!(a.uzmi(b"k"), Some(Vec::new()));
}

#[test]
fn ponovno_otvaranje_vraca_stanje() {
    let mut a = prazna();
    a.unesi(b"a", b"1");
    a.unesi(b"b", b"2");
    a.obrisi(b"a");
    a.unesi(b"c", b"33");
    a.unesi(b"b", b"22");

    // "close" the store and reopen over the same bytes: a full replay
    // must answer every lookup as before
    let bajtovi = a.dnevnik.clone();
    let mut b = BazaKV::otvori(bajtovi);
    assert_eq!(b.ucitaj(), Ok(()));
    assert_eq!(b.uzmi(b"a"), Some(Vec::new()));
    assert_eq!(b.uzmi(b"b"), Some(b"22".to_vec()));
    assert_eq!(b.uzmi(b"c"), Some(b"33".to_vec()));
    assert_eq!(b.uzmi(b"d"), None);
}

#[test]
fn prazan_kljuc_i_prazna_vrednost_su_zakoniti() {
    let mut a = prazna();
    a.unesi(b"", b"");
    assert_eq!(a.uzmi(b""), Some(Vec::new()));
    let kv = a.uzmi_na(0).unwrap();
    assert_eq!(kv.kljuc, Vec::<u8>::new());
    assert_eq!(kv.vrednost, Vec::<u8>::new());
}

#[test]
fn rucno_sastavljen_okvir_sa_pravim_zbirom() {
    // a frame assembled by hand, its checksum taken straight from the
    // crc crate: the store must read it back
    let kljuc = b"kv";
    let vrednost = b"xyz";
    let mut teret = Vec::new();
    teret.extend_from_slice(kljuc);
    teret.extend_from_slice(vrednost);
    let zbir = crc::crc32::checksum_ieee(&teret);

    let mut bajtovi = Vec::new();
    bajtovi.extend_from_slice(&zbir.to_le_bytes());
    bajtovi.extend_from_slice(&(kljuc.len() as u32).to_le_bytes());
    bajtovi.extend_from_slice(&(vrednost.len() as u32).to_le_bytes());
    bajtovi.extend_from_slice(&teret);

    let mut a = BazaKV::otvori(bajtovi);
    assert_eq!(a.ucitaj(), Ok(()));
    assert_eq!(a.uzmi(b"kv"), Some(b"xyz".to_vec()));

    // and what the store itself writes is bit-exact the same frame
    let mut b = prazna();
    b.unesi(b"kv", b"xyz");
    let mut ocekivano = Vec::new();
    ocekivano.extend_from_slice(&zbir.to_le_bytes());
    ocekivano.extend_from_slice(&2u32.to_le_bytes());
    ocekivano.extend_from_slice(&3u32.to_le_bytes());
    ocekivano.extend_from_slice(&teret);
    assert_eq!(b.dnevnik, ocekivano);
}

#[test]
fn pogresan_zbir_je_ostecenje() {
    let mut a = prazna();
    a.unesi(b"k", b"v");
    let mut bajtovi = a.dnevnik.clone();
    bajtovi[0] ^= 0xff; // the stored checksum no longer matches
    let mut b = BazaKV::otvori(bajtovi);
    assert_eq!(b.ucitaj(), Err(Greska::OsteceniPodaci));
}

#[test]
fn svaki_izvrnut_bit_tereta_je_ostecenje() {
    let mut a = prazna();
    a.unesi(b"kljuc", b"vrednost");
    let duz = a.dnevnik.len();
    // flip every single bit of the key and value region in turn: the
    // replay must fail each time
    for bajt in 12..duz {
        for bit in 0..8 {
            let mut bajtovi = a.dnevnik.clone();
            bajtovi[bajt] ^= 1 << bit;
            let mut b = BazaKV::otvori(bajtovi);
            assert_eq!(b.ucitaj(), Err(Greska::OsteceniPodaci));
        }
    }
}

#[test]
fn zasecen_okvir_je_ostecenje() {
    let mut a = prazna();
    a.unesi(b"kljuc", b"vrednost");
    let duz = a.dnevnik.len();
    // every strict prefix that is not the empty log ends mid-frame
    for kraj in 1..duz {
        let bajtovi = a.dnevnik[..kraj].to_vec();
        let mut b = BazaKV::otvori(bajtovi);
        assert_eq!(b.ucitaj(), Err(Greska::OsteceniPodaci));
    }
}

#[test]
fn uzmi_na_pogresnom_pomaku_je_ostecenje() {
    let mut a = prazna();
    a.unesi(b"kljuc", b"vrednost");
    assert_eq!(a.uzmi_na(3).err(), Some(Greska::OsteceniPodaci));
    assert_eq!(a.uzmi_na(10_000).err(), Some(Greska::OsteceniPodaci));
}

#[test]
fn nadji_pamti_poslednje_pojavljivanje() {
    let mut a = prazna();
    a.unesi(b"a", b"1");
    a.unesi(b"b", b"2");
    let pomak = a.idi_na_kraj();
    a.unesi(b"a", b"3");

    assert_eq!(a.nadji(b"a"), Ok(Some((pomak, b"3".to_vec()))));
    assert_eq!(a.nadji(b"b"), Ok(Some((12 + 2, b"2".to_vec()))));
    assert_eq!(a.nadji(b"nema"), Ok(None));

    let mut osteceni = a.dnevnik.clone();
    osteceni.pop();
    let b = BazaKV::otvori(osteceni);
    assert_eq!(b.nadji(b"a"), Err(Greska::OsteceniPodaci));
}

#[test]
fn unesi_ali_zanemari_indeks_ne_dira_indeks() {
    let mut a = prazna();
    a.unesi(b"a", b"1");
    let pomak = a.unesi_ali_zanemari_indeks(b"b", b"2");
    assert_eq!(pomak, 12 + 1 + 1);
    // the index has not heard of the second record
    assert_eq!(a.uzmi(b"b"), None);
    // but the record is in the log
    let kv = a.uzmi_na(pomak).unwrap();
    assert_eq!(kv.kljuc, b"b".to_vec());
    assert_eq!(kv.vrednost, b"2".to_vec());
}
