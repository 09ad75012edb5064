//! A log-structured key-value store: every mutation appends a
//! checksummed record to a byte log, and an index maps each key to the
//! byte offset of its most recent record.

pub mod baza;
pub mod indeks;
pub mod okvir;
pub mod snimak;
pub mod zakoni;
pub mod zbir;

pub use baza::{BazaKV, Greska, KljucVrednostPar};
