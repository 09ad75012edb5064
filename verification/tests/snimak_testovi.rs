use libkvbaza::baza::{BazaKV, Greska};
use libkvbaza::snimak::{dekodiraj_snimak, kodiraj_snimak, sacuvaj_indeks_na_disku,
    uzmi_preko_snimka};

const INDEKS_KLJUC: &[u8] = b"+indeks";

#[test]
fn snimak_nosi_kljuc_bez_sentinela() {
    let mut a = BazaKV::otvori(Vec::new());
    a.unesi(b"a", b"1");
    sacuvaj_indeks_na_disku(&mut a, INDEKS_KLJUC);

    // the snapshot record sits under the sentinel key; its payload
    // decodes to a mapping that holds "a" -> 0 and no sentinel entry
    let teret = a.uzmi(INDEKS_KLJUC).unwrap();
    let dekodiran = dekodiraj_snimak(&teret).unwrap();
    assert_eq!(dekodiran.stavke.len(), 1);
    assert_eq!(dekodiran.stavke[0].kljuc, b"a".to_vec());
    assert_eq!(dekodiran.stavke[0].pozicija, 0);
}

#[test]
fn citanje_preko_snimka() {
    let mut a = BazaKV::otvori(Vec::new());
    a.unesi(b"a", b"1");
    a.unesi(b"b", b"22");
    a.unesi(b"a", b"111");
    sacuvaj_indeks_na_disku(&mut a, INDEKS_KLJUC);

    assert_eq!(uzmi_preko_snimka(&a, b"a", INDEKS_KLJUC), Ok(Some(b"111".to_vec())));
    assert_eq!(uzmi_preko_snimka(&a, b"b", INDEKS_KLJUC), Ok(Some(b"22".to_vec())));
    assert_eq!(uzmi_preko_snimka(&a, b"nema", INDEKS_KLJUC), Ok(None));
    // the sentinel's own entry is excluded from the snapshot
    assert_eq!(uzmi_preko_snimka(&a, INDEKS_KLJUC, INDEKS_KLJUC), Ok(None));
}

#[test]
fn snimak_nadzivljava_ponovno_otvaranje() {
    let mut a = BazaKV::otvori(Vec::new());
    a.unesi(b"x", b"hello");
    sacuvaj_indeks_na_disku(&mut a, INDEKS_KLJUC);

    // reopen: the replay finds the sentinel record like any other, and
    // the snapshot path answers from the decoded payload
    let bajtovi = a.dnevnik.clone();
    let mut b = BazaKV::otvori(bajtovi);
    assert_eq!(b.ucitaj(), Ok(()));
    assert_eq!(uzmi_preko_snimka(&b, b"x", INDEKS_KLJUC), Ok(Some(b"hello".to_vec())));
}

#[test]
fn bez_snimka_nema_odgovora() {
    let mut a = BazaKV::otvori(Vec::new());
    a.unesi(b"a", b"1");
    assert_eq!(uzmi_preko_snimka(&a, b"a", INDEKS_KLJUC), Err(Greska::NemaSnimka));
}

#[test]
fn neispravan_teret_snimka_je_ostecenje() {
    let mut a = BazaKV::otvori(Vec::new());
    // a record under the sentinel key whose payload is no snapshot
    a.unesi(INDEKS_KLJUC, b"xyz");
    assert_eq!(uzmi_preko_snimka(&a, b"a", INDEKS_KLJUC), Err(Greska::OsteceniPodaci));
}

#[test]
fn kodiranje_i_dekodiranje_su_obrtanje() {
    let mut a = BazaKV::otvori(Vec::new());
    a.unesi(b"", b"prazan kljuc");
    a.unesi(b"jedan", b"1");
    a.unesi(b"dva", b"2");

    let bajtovi = kodiraj_snimak(&a.indeks.stavke);
    let nazad = dekodiraj_snimak(&bajtovi).unwrap();
    assert_eq!(nazad.stavke.len(), a.indeks.stavke.len());
    for (staro, novo) in a.indeks.stavke.iter().zip(nazad.stavke.iter()) {
        assert_eq!(staro.kljuc, novo.kljuc);
        assert_eq!(staro.pozicija, novo.pozicija);
    }
}

#[test]
fn dekodiranje_odbija_lose_bajtove() {
    assert!(dekodiraj_snimak(b"").is_none());
    assert!(dekodiraj_snimak(b"xyz").is_none());
    // a count that promises more pairs than the bytes hold
    let mut bajtovi = Vec::new();
    bajtovi.extend_from_slice(&5u32.to_le_bytes());
    assert!(dekodiraj_snimak(&bajtovi).is_none());
    // trailing garbage after the promised pairs
    let mut a = BazaKV::otvori(Vec::new());
    a.unesi(b"k", b"v");
    let mut sa_repom = kodiraj_snimak(&a.indeks.stavke);
    sa_repom.push(0);
    assert!(dekodiraj_snimak(&sa_repom).is_none());
}

#[test]
fn svaka_mutacija_pise_nov_snimak() {
    let mut a = BazaKV::otvori(Vec::new());
    a.unesi(b"a", b"1");
    sacuvaj_indeks_na_disku(&mut a, INDEKS_KLJUC);
    let prvi_kraj = a.idi_na_kraj();

    // a full replay between mutations, as each run of the front end
    // performs one: the rebuilt index carries every key again
    let mut b = BazaKV::otvori(a.dnevnik.clone());
    assert_eq!(b.ucitaj(), Ok(()));
    b.unesi(b"b", b"2");
    sacuvaj_indeks_na_disku(&mut b, INDEKS_KLJUC);

    // the log grew by the record and one more snapshot; the newest
    // snapshot answers for both keys, the older one is still there
    assert!(b.idi_na_kraj() > prvi_kraj);
    assert_eq!(uzmi_preko_snimka(&b, b"a", INDEKS_KLJUC), Ok(Some(b"1".to_vec())));
    assert_eq!(uzmi_preko_snimka(&b, b"b", INDEKS_KLJUC), Ok(Some(b"2".to_vec())));
}
