//! Backups of the catalog: a snapshot sealed under a passphrase, opened
//! again from either container format, and committed to the catalog after
//! its entries were mapped to vaults that exist on this machine.

use crate::crypto::{
    attempt, default_cost, default_cost_of, derive_key, derived_key, first_opening, fits_base64,
    historical, historical_costs, open_first, Cipher, ErrorKind, KdfCost, Platform, SealedBytes,
    NONCE_LEN, SALT_LEN,
};
use crate::primitives::{
    argon2id_accepts, base64_decode_unpadded, base64_encodable, base64_encode_unpadded,
    base64_unpadded, base64_unpadded_bytes, chacha20_poly1305_encrypt, chacha20_poly1305_seal,
    random_bytes, wipe,
};
use crate::store::{
    clone_optional, ids_distinct, list_for_fingerprint, listing, max_custom_order, merge, merged,
    optional_chars, replace_all, EntriesFile, Entry, EntryView,
};
use crate::text::{
    append_str, ascending, ascending_with_same_members, decimal_of, from_chars, lines, lines_of, parse_decimal, parse_decimal_bounded,
    push_decimal, rank_chars, split, split_chars, text_less, text_less_asymmetric,
    text_less_transitive, to_chars, trim_chars, trimmed, views, views_push, Rank,
};
use vstd::prelude::*;
use vstd::utf8::encode_utf8;

verus! {

/// The version number of the current backup container.
pub const CONTAINER_VERSION: u32 = 2;

/// A backup container of the oldest format: it names no key derivation.
#[derive(Debug, PartialEq, Eq)]
pub struct EncFileV1 {
    pub version: u32,
    pub salt_b64: String,
    pub nonce_b64: String,
    pub ciphertext_b64: String,
}

/// A backup container of the current format, with its key derivation and
/// cipher written out.
#[derive(Debug, PartialEq, Eq)]
pub struct EncFileV2 {
    pub version: u32,
    pub kdf: String,
    pub mem_kib: u32,
    pub iterations: u32,
    pub parallelism: u32,
    pub cipher: String,
    pub salt_b64: String,
    pub nonce_b64: String,
    pub ciphertext_b64: String,
}

/// What a backup document was read as.
#[derive(Debug, PartialEq, Eq)]
pub enum BackupFile {
    /// A container of the current format.
    Current(EncFileV2),
    /// A container of the oldest format.
    Oldest(EncFileV1),
    /// No container: the document is the snapshot itself.
    Plain,
}

/// What an export produced.
#[derive(Debug, PartialEq, Eq)]
pub enum Exported {
    /// The snapshot sealed in a container of the current format.
    Encrypted(EncFileV2),
    /// No passphrase was given: the snapshot goes out as it is.
    Plain,
}

/// Why a backup could not be sealed or opened.
#[derive(Clone, Copy, Debug, PartialEq, Eq, Structural)]
pub enum BackupError {
    /// The salt of the container is no base64.
    BadSalt,
    /// The nonce of the container is no base64, or has the wrong length.
    BadNonce,
    /// The ciphertext of the container is no base64.
    BadCiphertext,
    /// The document is a container and no passphrase was given.
    PassphraseRequired,
    /// The container does not open: wrong passphrase or damaged container.
    DecryptionFailed,
    /// The snapshot cannot be sealed.
    EncryptionFailed,
    /// The system's random source failed.
    Entropy,
}

/// What a container of the oldest format holds, as plain values.
pub struct EncFileV1View {
    pub version: u32,
    pub salt_b64: Seq<char>,
    pub nonce_b64: Seq<char>,
    pub ciphertext_b64: Seq<char>,
}

/// What a container of the current format holds, as plain values.
pub struct EncFileV2View {
    pub version: u32,
    pub kdf: Seq<char>,
    pub mem_kib: u32,
    pub iterations: u32,
    pub parallelism: u32,
    pub cipher: Seq<char>,
    pub salt_b64: Seq<char>,
    pub nonce_b64: Seq<char>,
    pub ciphertext_b64: Seq<char>,
}

/// What a backup document was read as, as plain values.
pub enum BackupFileView {
    Current(EncFileV2View),
    Oldest(EncFileV1View),
    Plain,
}

impl View for EncFileV1 {
    type V = EncFileV1View;

    open spec fn view(&self) -> EncFileV1View {
        EncFileV1View {
            version: self.version,
            salt_b64: self.salt_b64@,
            nonce_b64: self.nonce_b64@,
            ciphertext_b64: self.ciphertext_b64@,
        }
    }
}

impl View for EncFileV2 {
    type V = EncFileV2View;

    open spec fn view(&self) -> EncFileV2View {
        EncFileV2View {
            version: self.version,
            kdf: self.kdf@,
            mem_kib: self.mem_kib,
            iterations: self.iterations,
            parallelism: self.parallelism,
            cipher: self.cipher@,
            salt_b64: self.salt_b64@,
            nonce_b64: self.nonce_b64@,
            ciphertext_b64: self.ciphertext_b64@,
        }
    }
}

impl View for BackupFile {
    type V = BackupFileView;

    open spec fn view(&self) -> BackupFileView {
        match self {
            BackupFile::Current(c) => BackupFileView::Current(c@),
            BackupFile::Oldest(o) => BackupFileView::Oldest(o@),
            BackupFile::Plain => BackupFileView::Plain,
        }
    }
}

/// The passphrase that counts: one that is given and not empty.
pub open spec fn effective_passphrase(passphrase: Option<Seq<char>>) -> Option<Seq<char>> {
    match passphrase {
        Some(p) => if p.len() > 0 {
            Some(p)
        } else {
            None
        },
        None => None,
    }
}

/// The cost that the numbers of a backup container stand for: at least
/// 1024 KiB, one pass and one lane.
pub open spec fn stored_cost(mem_kib: u32, iterations: u32, parallelism: u32) -> KdfCost {
    KdfCost {
        mem_kib: if mem_kib < 1024 {
            1024
        } else {
            mem_kib
        },
        iterations: if iterations < 1 {
            1
        } else {
            iterations
        },
        parallelism: if parallelism < 1 {
            1
        } else {
            parallelism
        },
    }
}

/// The decoded fields of a container, or the error for the first field
/// that does not decode. The nonce must be 12 bytes long.
pub open spec fn container_fields(
    salt_b64: Seq<char>,
    nonce_b64: Seq<char>,
    ciphertext_b64: Seq<char>,
) -> Result<SealedBytes, BackupError> {
    match base64_unpadded_bytes(salt_b64) {
        None => Err(BackupError::BadSalt),
        Some(salt) => match base64_unpadded_bytes(nonce_b64) {
            None => Err(BackupError::BadNonce),
            Some(nonce) => match base64_unpadded_bytes(ciphertext_b64) {
                None => Err(BackupError::BadCiphertext),
                Some(ciphertext) => if nonce.len() == NONCE_LEN {
                    Ok(SealedBytes { salt, nonce, ciphertext })
                } else {
                    Err(BackupError::BadNonce)
                },
            },
        },
    }
}

/// The snapshot that a backup document holds. A plain document is its own
/// snapshot. A container must decode, then needs a passphrase, then must
/// open: one of the current format under the cost it names, one of the
/// oldest format under the first historical cost that opens it.
pub open spec fn opened_backup(
    file: BackupFileView,
    data: Seq<u8>,
    passphrase: Option<Seq<char>>,
) -> Result<Seq<u8>, BackupError> {
    match file {
        BackupFileView::Plain => Ok(data),
        BackupFileView::Current(c) => match container_fields(
            c.salt_b64,
            c.nonce_b64,
            c.ciphertext_b64,
        ) {
            Err(e) => Err(e),
            Ok(sealed) => match effective_passphrase(passphrase) {
                None => Err(BackupError::PassphraseRequired),
                Some(p) => match attempt(
                    p,
                    sealed,
                    Cipher::ChaCha20Poly1305,
                    stored_cost(c.mem_kib, c.iterations, c.parallelism),
                ) {
                    Some(snapshot) => Ok(snapshot),
                    None => Err(BackupError::DecryptionFailed),
                },
            },
        },
        BackupFileView::Oldest(o) => match container_fields(
            o.salt_b64,
            o.nonce_b64,
            o.ciphertext_b64,
        ) {
            Err(e) => Err(e),
            Ok(sealed) => match effective_passphrase(passphrase) {
                None => Err(BackupError::PassphraseRequired),
                Some(p) => match first_opening(
                    p,
                    sealed,
                    Cipher::ChaCha20Poly1305,
                    historical_costs(),
                    0,
                ) {
                    Some((_, snapshot)) => Ok(snapshot),
                    None => Err(BackupError::DecryptionFailed),
                },
            },
        },
    }
}

/// Whether a snapshot of `n` bytes can be sealed and stored: the cipher
/// takes fewer than 2^32 - 1 blocks of 64 bytes, and the ciphertext, 16
/// bytes longer, must be encodable.
pub open spec fn snapshot_sealable(n: nat) -> bool {
    n / 64 < 0xFFFF_FFFF && base64_encodable(n + 16)
}

/// The container of the current format that seals `snapshot` under `key`.
pub open spec fn current_container(
    key: Seq<u8>,
    cost: KdfCost,
    salt: Seq<u8>,
    nonce: Seq<u8>,
    snapshot: Seq<u8>,
) -> EncFileV2View {
    EncFileV2View {
        version: CONTAINER_VERSION,
        kdf: "argon2id"@,
        mem_kib: cost.mem_kib,
        iterations: cost.iterations,
        parallelism: cost.parallelism,
        cipher: "chacha20poly1305"@,
        salt_b64: base64_unpadded(salt),
        nonce_b64: base64_unpadded(nonce),
        ciphertext_b64: base64_unpadded(chacha20_poly1305_seal(key, nonce, snapshot)),
    }
}

/// The container that seals `snapshot` under `passphrase` with the given
/// salt and nonce at the cost of `platform`, where that can be done.
pub open spec fn sealed_backup(
    passphrase: Seq<char>,
    snapshot: Seq<u8>,
    salt: Seq<u8>,
    nonce: Seq<u8>,
    platform: Platform,
) -> Option<EncFileV2View> {
    let cost = default_cost_of(platform);
    match derived_key(passphrase, salt, cost) {
        Some(key) => if nonce.len() == NONCE_LEN && base64_encodable(salt.len())
            && snapshot_sealable(snapshot.len()) {
            Some(current_container(key, cost, salt, nonce, snapshot))
        } else {
            None
        },
        None => None,
    }
}

/// Whether a snapshot can be sealed under `passphrase` on `platform`,
/// whatever the salt and nonce.
pub open spec fn can_seal_backup(passphrase: Seq<char>, snapshot: Seq<u8>, platform: Platform) -> bool {
    let cost = default_cost_of(platform);
    &&& argon2id_accepts(
        encode_utf8(passphrase).len(),
        SALT_LEN as nat,
        cost.mem_kib,
        cost.iterations,
        cost.parallelism,
    )
    &&& snapshot_sealable(snapshot.len())
}

impl BackupError {
    /// The message that goes with the error.
    pub open spec fn spec_message(self) -> Seq<char> {
        match self {
            BackupError::BadSalt => "bad salt"@,
            BackupError::BadNonce => "bad nonce"@,
            BackupError::BadCiphertext => "bad ciphertext"@,
            BackupError::PassphraseRequired => "passphrase required"@,
            BackupError::DecryptionFailed => "decryption failed"@,
            BackupError::EncryptionFailed => "encryption failed"@,
            BackupError::Entropy => "random source unavailable"@,
        }
    }

    /// The kind of the error.
    pub open spec fn spec_kind(self) -> ErrorKind {
        match self {
            BackupError::BadSalt => ErrorKind::Format,
            BackupError::BadNonce => ErrorKind::Format,
            BackupError::BadCiphertext => ErrorKind::Format,
            BackupError::PassphraseRequired => ErrorKind::Validation,
            BackupError::DecryptionFailed => ErrorKind::Auth,
            BackupError::EncryptionFailed => ErrorKind::Validation,
            BackupError::Entropy => ErrorKind::Io,
        }
    }

    /// The kind of the error.
    pub fn kind(&self) -> (kind: ErrorKind)
        ensures
            kind == self.spec_kind(),
    {
        match self {
            BackupError::BadSalt => ErrorKind::Format,
            BackupError::BadNonce => ErrorKind::Format,
            BackupError::BadCiphertext => ErrorKind::Format,
            BackupError::PassphraseRequired => ErrorKind::Validation,
            BackupError::DecryptionFailed => ErrorKind::Auth,
            BackupError::EncryptionFailed => ErrorKind::Validation,
            BackupError::Entropy => ErrorKind::Io,
        }
    }

    /// The message that goes with the error.
    pub fn message(&self) -> (text: String)
        ensures
            text@ == self.spec_message(),
    {
        match self {
            BackupError::BadSalt => "bad salt".to_owned(),
            BackupError::BadNonce => "bad nonce".to_owned(),
            BackupError::BadCiphertext => "bad ciphertext".to_owned(),
            BackupError::PassphraseRequired => "passphrase required".to_owned(),
            BackupError::DecryptionFailed => "decryption failed".to_owned(),
            BackupError::EncryptionFailed => "encryption failed".to_owned(),
            BackupError::Entropy => "random source unavailable".to_owned(),
        }
    }
}

/// Settles what a backup document is, from the readings that were tried on
/// it: the current container format comes first, then the oldest, and a
/// document that is neither is a plain snapshot.
pub fn classify(current: Option<EncFileV2>, oldest: Option<EncFileV1>) -> (file: BackupFile)
    ensures
        file@ == match (current, oldest) {
            (Some(c), _) => BackupFileView::Current(c@),
            (None, Some(o)) => BackupFileView::Oldest(o@),
            (None, None) => BackupFileView::Plain,
        },
{
    match current {
        Some(c) => BackupFile::Current(c),
        None => match oldest {
            Some(o) => BackupFile::Oldest(o),
            None => BackupFile::Plain,
        },
    }
}

/// Whether a snapshot of `n` bytes can be sealed and stored.
pub fn fits_snapshot(n: usize) -> (r: bool)
    ensures
        r == snapshot_sealable(n as nat),
{
    n <= usize::MAX - 16 && ((n / 64) as u64) < 0xFFFF_FFFF && fits_base64(n + 16)
}

/// The cost that the numbers of a backup container stand for.
pub fn cost_from_stored(mem_kib: u32, iterations: u32, parallelism: u32) -> (cost: KdfCost)
    ensures
        cost == stored_cost(mem_kib, iterations, parallelism),
{
    KdfCost {
        mem_kib: if mem_kib < 1024 {
            1024
        } else {
            mem_kib
        },
        iterations: if iterations < 1 {
            1
        } else {
            iterations
        },
        parallelism: if parallelism < 1 {
            1
        } else {
            parallelism
        },
    }
}

/// Decodes the fields of a container.
fn decode_container(salt_b64: &str, nonce_b64: &str, ciphertext_b64: &str) -> (r: Result<
    (Vec<u8>, Vec<u8>, Vec<u8>),
    BackupError,
>)
    ensures
        match r {
            Ok((salt, nonce, ciphertext)) => container_fields(salt_b64@, nonce_b64@, ciphertext_b64@)
                == Ok::<SealedBytes, BackupError>(
                SealedBytes { salt: salt@, nonce: nonce@, ciphertext: ciphertext@ },
            ) && nonce@.len() == NONCE_LEN,
            Err(e) => container_fields(salt_b64@, nonce_b64@, ciphertext_b64@) == Err::<
                SealedBytes,
                BackupError,
            >(e),
        },
{
    let salt = match base64_decode_unpadded(salt_b64) {
        Some(b) => b,
        None => {
            return Err(BackupError::BadSalt);
        },
    };
    let nonce = match base64_decode_unpadded(nonce_b64) {
        Some(b) => b,
        None => {
            return Err(BackupError::BadNonce);
        },
    };
    let ciphertext = match base64_decode_unpadded(ciphertext_b64) {
        Some(b) => b,
        None => {
            return Err(BackupError::BadCiphertext);
        },
    };
    if nonce.len() != NONCE_LEN {
        return Err(BackupError::BadNonce);
    }
    Ok((salt, nonce, ciphertext))
}

/// The passphrase that counts: one that is given and not empty.
fn effective(passphrase: Option<String>) -> (p: Option<String>)
    ensures
        match p {
            Some(s) => effective_passphrase(crate::store::optional_chars(passphrase)) == Some(s@),
            None => effective_passphrase(crate::store::optional_chars(passphrase)) is None,
        },
{
    match passphrase {
        Some(s) => if !s.as_str().is_empty() {
            Some(s)
        } else {
            None
        },
        None => None,
    }
}

/// Opens a backup document and returns the snapshot it holds. `data` is the
/// document itself, which is the snapshot where the document is plain.
pub fn decrypt_entries(file: &BackupFile, data: Vec<u8>, passphrase: Option<String>) -> (r: Result<
    Vec<u8>,
    BackupError,
>)
    ensures
        match r {
            Ok(snapshot) => opened_backup(file@, data@, crate::store::optional_chars(passphrase))
                == Ok::<Seq<u8>, BackupError>(snapshot@),
            Err(e) => opened_backup(file@, data@, crate::store::optional_chars(passphrase)) == Err::<
                Seq<u8>,
                BackupError,
            >(e),
        },
{
    match file {
        BackupFile::Plain => Ok(data),
        BackupFile::Current(c) => {
            let (salt, nonce, ciphertext) = match decode_container(
                c.salt_b64.as_str(),
                c.nonce_b64.as_str(),
                c.ciphertext_b64.as_str(),
            ) {
                Ok(fields) => fields,
                Err(e) => {
                    return Err(e);
                },
            };
            let pw = match effective(passphrase) {
                Some(p) => p,
                None => {
                    return Err(BackupError::PassphraseRequired);
                },
            };
            let mut costs: Vec<KdfCost> = Vec::new();
            costs.push(cost_from_stored(c.mem_kib, c.iterations, c.parallelism));
            match open_first(
                pw.as_str(),
                &salt,
                &nonce,
                &ciphertext,
                Cipher::ChaCha20Poly1305,
                &costs,
            ) {
                Some(found) => {
                    let mut found = found;
                    found.forget_key();
                    Ok(found.plaintext)
                },
                None => Err(BackupError::DecryptionFailed),
            }
        },
        BackupFile::Oldest(o) => {
            let (salt, nonce, ciphertext) = match decode_container(
                o.salt_b64.as_str(),
                o.nonce_b64.as_str(),
                o.ciphertext_b64.as_str(),
            ) {
                Ok(fields) => fields,
                Err(e) => {
                    return Err(e);
                },
            };
            let pw = match effective(passphrase) {
                Some(p) => p,
                None => {
                    return Err(BackupError::PassphraseRequired);
                },
            };
            let costs = historical();
            match open_first(
                pw.as_str(),
                &salt,
                &nonce,
                &ciphertext,
                Cipher::ChaCha20Poly1305,
                &costs,
            ) {
                Some(found) => {
                    let mut found = found;
                    found.forget_key();
                    Ok(found.plaintext)
                },
                None => Err(BackupError::DecryptionFailed),
            }
        },
    }
}

/// Seals a snapshot under a passphrase with the given salt and nonce, at
/// the cost of `platform`. The container returned opens to the snapshot
/// again under the same passphrase.
pub fn seal_entries(
    snapshot: &Vec<u8>,
    passphrase: &str,
    salt: &Vec<u8>,
    nonce: &Vec<u8>,
    platform: Platform,
) -> (r: Result<EncFileV2, BackupError>)
    ensures
        match r {
            Ok(container) => {
                &&& sealed_backup(passphrase@, snapshot@, salt@, nonce@, platform) == Some(
                    container@,
                )
                &&& passphrase@.len() > 0 ==> opened_backup(
                    BackupFileView::Current(container@),
                    snapshot@,
                    Some(passphrase@),
                ) == Ok::<Seq<u8>, BackupError>(snapshot@)
            },
            Err(e) => e == BackupError::EncryptionFailed && sealed_backup(
                passphrase@,
                snapshot@,
                salt@,
                nonce@,
                platform,
            ) is None,
        },
{
    if nonce.len() != NONCE_LEN || !fits_base64(salt.len()) || !fits_snapshot(snapshot.len()) {
        return Err(BackupError::EncryptionFailed);
    }
    let cost = default_cost(platform);
    let mut key = match derive_key(passphrase, salt.as_slice(), platform) {
        Some(k) => k,
        None => {
            return Err(BackupError::EncryptionFailed);
        },
    };
    let sealed = chacha20_poly1305_encrypt(key.as_slice(), nonce.as_slice(), snapshot.as_slice());
    wipe(&mut key);
    match sealed {
        Some(ciphertext) => {
            let container = EncFileV2 {
                version: CONTAINER_VERSION,
                kdf: "argon2id".to_owned(),
                mem_kib: cost.mem_kib,
                iterations: cost.iterations,
                parallelism: cost.parallelism,
                cipher: "chacha20poly1305".to_owned(),
                salt_b64: base64_encode_unpadded(salt.as_slice()),
                nonce_b64: base64_encode_unpadded(nonce.as_slice()),
                ciphertext_b64: base64_encode_unpadded(ciphertext.as_slice()),
            };
            proof {
                let sealed = SealedBytes { salt: salt@, nonce: nonce@, ciphertext: ciphertext@ };
                assert(container_fields(
                    container@.salt_b64,
                    container@.nonce_b64,
                    container@.ciphertext_b64,
                ) == Ok::<SealedBytes, BackupError>(sealed));
                assert(stored_cost(cost.mem_kib, cost.iterations, cost.parallelism) == cost);
                assert(attempt(passphrase@, sealed, Cipher::ChaCha20Poly1305, cost) == Some(
                    snapshot@,
                ));
            }
            Ok(container)
        },
        None => Err(BackupError::EncryptionFailed),
    }
}

/// Exports a snapshot. With a passphrase that is not empty the snapshot is
/// sealed under a fresh random salt and nonce, in a container that opens to
/// it again under the same passphrase; without one it goes out as it is.
pub fn encrypt_entries(snapshot: &Vec<u8>, passphrase: Option<String>, platform: Platform) -> (r:
    Result<Exported, BackupError>)
    ensures
        match effective_passphrase(crate::store::optional_chars(passphrase)) {
            None => r == Ok::<Exported, BackupError>(Exported::Plain),
            Some(p) => match r {
                Ok(Exported::Encrypted(container)) => {
                    &&& opened_backup(BackupFileView::Current(container@), snapshot@, Some(p))
                        == Ok::<Seq<u8>, BackupError>(snapshot@)
                    &&& can_seal_backup(p, snapshot@, platform)
                    &&& exists|salt: Seq<u8>, nonce: Seq<u8>|
                        salt.len() == SALT_LEN && nonce.len() == NONCE_LEN
                            && #[trigger] sealed_backup(p, snapshot@, salt, nonce, platform)
                            == Some(container@)
                },
                Ok(Exported::Plain) => false,
                Err(e) => e == BackupError::Entropy || (e == BackupError::EncryptionFailed
                    && !can_seal_backup(p, snapshot@, platform)),
            },
        },
{
    let pw = match effective(passphrase) {
        Some(p) => p,
        None => {
            return Ok(Exported::Plain);
        },
    };
    let salt = match random_bytes(SALT_LEN) {
        Some(b) => b,
        None => {
            return Err(BackupError::Entropy);
        },
    };
    let nonce = match random_bytes(NONCE_LEN) {
        Some(b) => b,
        None => {
            return Err(BackupError::Entropy);
        },
    };
    match seal_entries(snapshot, pw.as_str(), &salt, &nonce, platform) {
        Ok(container) => Ok(Exported::Encrypted(container)),
        Err(e) => Err(e),
    }
}

/// A count for each fingerprint that a backup holds entries of.
#[derive(Debug, PartialEq, Eq)]
pub struct CsvPreview {
    pub fingerprints: Vec<(String, usize)>,
}

/// One line of a mapping: the entries that came with fingerprint `from` go
/// to the vault `to`, or are dropped where `to` is absent.
#[derive(Debug, PartialEq, Eq)]
pub struct CsvMapping {
    pub from: String,
    pub to: Option<String>,
}

/// The fingerprint that an entry came with: empty for an unbound entry.
pub open spec fn source_fingerprint(e: EntryView) -> Seq<char> {
    match e.fingerprint {
        Some(f) => f,
        None => Seq::empty(),
    }
}

/// How often `key` occurs in `keys`.
pub open spec fn occurrences(keys: Seq<Seq<char>>, key: Seq<char>) -> nat
    decreases keys.len(),
{
    if keys.len() == 0 {
        0
    } else if keys.last() == key {
        occurrences(keys.drop_last(), key) + 1
    } else {
        occurrences(keys.drop_last(), key)
    }
}

/// The rows of a summary, as plain values.
pub open spec fn summary_rows(rows: Seq<(String, usize)>) -> Seq<(Seq<char>, usize)> {
    rows.map_values(|r: (String, usize)| (r.0@, r.1))
}

/// Whether `rows` is the summary of `keys`: one row for each different key,
/// with the number of its occurrences, the rows in the order of strings.
pub open spec fn is_summary(rows: Seq<(Seq<char>, usize)>, keys: Seq<Seq<char>>) -> bool {
    &&& forall|i: int, j: int|
        0 <= i < j < rows.len() ==> text_less((#[trigger] rows[i]).0, (#[trigger] rows[j]).0)
    &&& forall|i: int|
        0 <= i < rows.len() ==> (#[trigger] rows[i]).1 > 0 && rows[i].1 == occurrences(
            keys,
            rows[i].0,
        )
    &&& forall|k: int|
        0 <= k < keys.len() ==> exists|i: int|
            0 <= i < rows.len() && (#[trigger] rows[i]).0 == #[trigger] keys[k]
}

/// A key that is none of `keys` occurs zero times, and no key occurs more
/// often than there are keys.
pub proof fn occurrences_bounds(keys: Seq<Seq<char>>, key: Seq<char>)
    ensures
        occurrences(keys, key) <= keys.len(),
        (forall|k: int| 0 <= k < keys.len() ==> keys[k] != key) ==> occurrences(keys, key) == 0,
        occurrences(keys, key) > 0 ==> exists|k: int| 0 <= k < keys.len() && keys[k] == key,
    decreases keys.len(),
{
    if keys.len() > 0 {
        occurrences_bounds(keys.drop_last(), key);
        if keys.last() != key && occurrences(keys, key) > 0 {
            let k = choose|k: int| 0 <= k < keys.drop_last().len() && keys.drop_last()[k] == key;
            assert(keys[k] == key);
        }
        if keys.last() == key {
            assert(keys[keys.len() - 1] == key);
        }
        if forall|k: int| 0 <= k < keys.len() ==> keys[k] != key {
            assert forall|k: int| 0 <= k < keys.drop_last().len() implies keys.drop_last()[k]
                != key by {
                assert(keys[k] != key);
            }
        }
    }
}

/// Counts the occurrences of each key. The rows come in the order of
/// strings, one for each different key.
pub fn summarize(keys: &Vec<String>) -> (rows: Vec<(String, usize)>)
    ensures
        is_summary(summary_rows(rows@), views(keys@)),
{
    let mut rows: Vec<(String, usize)> = Vec::new();
    let mut k: usize = 0;
    while k < keys.len()
        invariant
            k <= keys.len(),
            is_summary(summary_rows(rows@), views(keys@).take(k as int)),
        decreases keys.len() - k,
    {
        let ghost done = views(keys@).take(k as int);
        let ghost now = views(keys@).take(k + 1);
        let ghost before = summary_rows(rows@);
        let key = keys[k].clone();
        let key_chars = to_chars(key.as_str());
        proof {
            assert(now.drop_last() == done);
            assert(now.last() == key@);
        }
        let mut p: usize = 0;
        let mut matched = false;
        while p < rows.len()
            invariant_except_break
                !matched,
            invariant
                p <= rows.len(),
                before == summary_rows(rows@),
                key_chars@ == key@,
                forall|i: int| 0 <= i < p ==> text_less((#[trigger] before[i]).0, key@),
            ensures
                p <= rows.len(),
                before == summary_rows(rows@),
                forall|i: int| 0 <= i < p ==> text_less((#[trigger] before[i]).0, key@),
                matched ==> p < rows.len() && before[p as int].0 == key@,
                !matched && p < rows.len() ==> text_less(key@, before[p as int].0),
            decreases rows.len() - p,
        {
            let row_chars = to_chars(rows[p].0.as_str());
            assert(before[p as int].0 == rows@[p as int].0@);
            match rank_chars(&row_chars, &key_chars) {
                Rank::Before => {
                    p += 1;
                },
                Rank::Same => {
                    matched = true;
                    break ;
                },
                Rank::After => {
                    break ;
                },
            }
        }
        if matched {
            let row = rows.remove(p);
            proof {
                occurrences_bounds(done, key@);
            }
            let count = row.1 + 1;
            rows.insert(p, (row.0, count));
            proof {
                let after = summary_rows(rows@);
                assert(after.len() == before.len());
                assert forall|i: int| 0 <= i < after.len() implies (#[trigger] after[i]).0
                    == before[i].0 && after[i].1 == if i == p {
                    before[i].1 + 1
                } else {
                    before[i].1 as int
                } by {}
                assert forall|i: int| 0 <= i < after.len() implies (#[trigger] after[i]).1 > 0
                    && after[i].1 == occurrences(now, after[i].0) by {
                    assert(before[i].1 == occurrences(done, before[i].0));
                    if i != p {
                        if i < p {
                            text_less_asymmetric(before[i].0, before[p as int].0);
                        } else {
                            text_less_asymmetric(before[p as int].0, before[i].0);
                        }
                    }
                }
                assert forall|i: int, j: int| 0 <= i < j < after.len() implies text_less(
                    (#[trigger] after[i]).0,
                    (#[trigger] after[j]).0,
                ) by {
                    assert(text_less(before[i].0, before[j].0));
                }
                assert forall|m: int| 0 <= m < now.len() implies exists|i: int|
                    0 <= i < after.len() && (#[trigger] after[i]).0 == #[trigger] now[m] by {
                    if m < done.len() {
                        assert(done[m] == now[m]);
                        let i = choose|i: int|
                            0 <= i < before.len() && (#[trigger] before[i]).0 == done[m];
                        assert(after[i].0 == now[m]);
                    } else {
                        assert(after[p as int].0 == now[m]);
                    }
                }
            }
        } else {
            proof {
                // no row has the key, so the key did not occur so far
                assert forall|m: int| 0 <= m < done.len() implies done[m] != key@ by {
                    let i = choose|i: int|
                        0 <= i < before.len() && (#[trigger] before[i]).0 == done[m];
                    if i < p {
                        text_less_asymmetric(before[i].0, key@);
                    } else {
                        if i > p {
                            text_less_transitive(key@, before[p as int].0, before[i].0);
                        }
                        text_less_asymmetric(key@, before[i].0);
                    }
                }
                occurrences_bounds(done, key@);
            }
            rows.insert(p, (key, 1));
            proof {
                let after = summary_rows(rows@);
                assert(after.len() == before.len() + 1);
                assert forall|i: int| 0 <= i < after.len() implies #[trigger] after[i] == if i < p {
                    before[i]
                } else if i == p {
                    (key@, 1usize)
                } else {
                    before[i - 1]
                } by {}
                assert forall|i: int| 0 <= i < after.len() implies (#[trigger] after[i]).1 > 0
                    && after[i].1 == occurrences(now, after[i].0) by {
                    if i < p {
                        assert(before[i].1 == occurrences(done, before[i].0));
                        text_less_asymmetric(before[i].0, key@);
                    } else if i > p {
                        assert(before[i - 1].1 == occurrences(done, before[i - 1].0));
                        if i - 1 > p {
                            text_less_transitive(key@, before[p as int].0, before[i - 1].0);
                        }
                        text_less_asymmetric(key@, before[i - 1].0);
                    }
                }
                assert forall|i: int, j: int| 0 <= i < j < after.len() implies text_less(
                    (#[trigger] after[i]).0,
                    (#[trigger] after[j]).0,
                ) by {
                    if j < p {
                        assert(text_less(before[i].0, before[j].0));
                    } else if j == p {
                    } else if i < p {
                        assert(text_less(before[i].0, before[j - 1].0));
                    } else if i == p {
                        if j - 1 > p {
                            text_less_transitive(key@, before[p as int].0, before[j - 1].0);
                        }
                    } else {
                        assert(text_less(before[i - 1].0, before[j - 1].0));
                    }
                }
                assert forall|m: int| 0 <= m < now.len() implies exists|i: int|
                    0 <= i < after.len() && (#[trigger] after[i]).0 == #[trigger] now[m] by {
                    if m < done.len() {
                        assert(done[m] == now[m]);
                        let i = choose|i: int|
                            0 <= i < before.len() && (#[trigger] before[i]).0 == done[m];
                        if i < p {
                            assert(after[i].0 == now[m]);
                        } else {
                            assert(after[i + 1].0 == now[m]);
                        }
                    } else {
                        assert(after[p as int].0 == now[m]);
                    }
                }
            }
        }
        k += 1;
    }
    assert(views(keys@).take(k as int) == views(keys@));
    rows
}

/// What a mapping line holds, as plain values.
pub struct CsvMappingView {
    pub from: Seq<char>,
    pub to: Option<Seq<char>>,
}

impl View for CsvMapping {
    type V = CsvMappingView;

    open spec fn view(&self) -> CsvMappingView {
        CsvMappingView { from: self.from@, to: optional_chars(self.to) }
    }
}

/// The target that `mapping` gives for the source fingerprint `from`: that
/// of the last line for `from`, and none where no line names it.
pub open spec fn target_of(mapping: Seq<CsvMappingView>, from: Seq<char>) -> Option<Seq<char>>
    decreases mapping.len(),
{
    if mapping.len() == 0 {
        None
    } else if mapping.last().from == from {
        mapping.last().to
    } else {
        target_of(mapping.drop_last(), from)
    }
}

/// The target for `from` where it is a vault known on this machine.
pub open spec fn accepted_target(
    mapping: Seq<CsvMappingView>,
    allowed: Seq<Seq<char>>,
    from: Seq<char>,
) -> Option<Seq<char>> {
    match target_of(mapping, from) {
        Some(t) => if allowed.contains(t) {
            Some(t)
        } else {
            None
        },
        None => None,
    }
}

/// The entry bound to the accepted target of its source fingerprint, or
/// `None` where it has none and is dropped.
pub open spec fn remapped(
    e: EntryView,
    mapping: Seq<CsvMappingView>,
    allowed: Seq<Seq<char>>,
) -> Option<EntryView> {
    match accepted_target(mapping, allowed, source_fingerprint(e)) {
        Some(t) => Some(EntryView { fingerprint: Some(t), ..e }),
        None => None,
    }
}

/// The entries that survive the mapping, each bound to its target, in the
/// order in which they came.
pub open spec fn mapped_entries(
    entries: Seq<EntryView>,
    mapping: Seq<CsvMappingView>,
    allowed: Seq<Seq<char>>,
) -> Seq<EntryView>
    decreases entries.len(),
{
    if entries.len() == 0 {
        Seq::empty()
    } else {
        let before = mapped_entries(entries.drop_last(), mapping, allowed);
        match remapped(entries.last(), mapping, allowed) {
            Some(e) => before.push(e),
            None => before,
        }
    }
}

/// Whether an entry is bound to a vault known on this machine.
pub open spec fn bound_to_known(e: EntryView, allowed: Seq<Seq<char>>) -> bool {
    match e.fingerprint {
        Some(f) => allowed.contains(f),
        None => false,
    }
}

/// The catalog after a commit: the incoming entries alone where the commit
/// overwrites, the catalog with the incoming entries merged in otherwise.
pub open spec fn committed(existing: Seq<EntryView>, incoming: Seq<EntryView>, overwrite: bool) -> Seq<
    EntryView,
> {
    if overwrite {
        incoming
    } else {
        merged(existing, incoming, max_custom_order(existing))
    }
}

/// Whether `list` holds the string `s`.
pub fn holds(list: &Vec<String>, s: &String) -> (r: bool)
    ensures
        r == views(list@).contains(s@),
{
    let mut i: usize = 0;
    while i < list.len()
        invariant
            i <= list.len(),
            forall|j: int| 0 <= j < i ==> views(list@)[j] != s@,
        decreases list.len() - i,
    {
        if list[i] == *s {
            assert(views(list@)[i as int] == s@);
            return true;
        }
        i += 1;
    }
    false
}

/// The target that `mapping` gives for the source fingerprint `from`.
pub fn find_target(mapping: &Vec<CsvMapping>, from: &String) -> (target: Option<String>)
    ensures
        optional_chars(target) == target_of(views(mapping@), from@),
{
    let mut n: usize = mapping.len();
    assert(views(mapping@).take(n as int) == views(mapping@));
    while n > 0
        invariant
            n <= mapping.len(),
            target_of(views(mapping@), from@) == target_of(views(mapping@).take(n as int), from@),
        decreases n,
    {
        assert(views(mapping@).take(n as int).drop_last() == views(mapping@).take(n - 1));
        assert(views(mapping@).take(n as int).last() == mapping@[n - 1]@);
        if mapping[n - 1].from == *from {
            return clone_optional(&mapping[n - 1].to);
        }
        n -= 1;
    }
    None
}

/// The fingerprint that an entry came with: empty for an unbound entry.
pub fn source_of(e: &Entry) -> (from: String)
    ensures
        from@ == source_fingerprint(e@),
{
    match &e.fingerprint {
        Some(f) => f.clone(),
        None => String::new(),
    }
}

/// Binds each entry to the target that the mapping gives for the
/// fingerprint it came with. An entry is dropped where the mapping has no
/// target for it, or where the target is no vault known on this machine.
pub fn map_entries(entries: Vec<Entry>, mapping: Vec<CsvMapping>, allowed: &Vec<String>) -> (out:
    Vec<Entry>)
    ensures
        views(out@) == mapped_entries(views(entries@), views(mapping@), views(allowed@)),
{
    let mut out: Vec<Entry> = Vec::new();
    let mut i: usize = 0;
    while i < entries.len()
        invariant
            i <= entries.len(),
            views(out@) == mapped_entries(
                views(entries@).take(i as int),
                views(mapping@),
                views(allowed@),
            ),
        decreases entries.len() - i,
    {
        assert(views(entries@).take(i + 1).drop_last() == views(entries@).take(i as int));
        assert(views(entries@).take(i + 1).last() == entries@[i as int]@);
        let from = source_of(&entries[i]);
        match find_target(&mapping, &from) {
            Some(target) => {
                if holds(allowed, &target) {
                    let mut e = entries[i].clone();
                    e.fingerprint = Some(target);
                    proof {
                        views_push(out@, e);
                    }
                    out.push(e);
                }
            },
            None => {},
        }
        i += 1;
    }
    assert(views(entries@).take(i as int) == views(entries@));
    out
}

/// Commits entries to the catalog and returns how many were taken:
/// replacing the catalog where `overwrite` is set, merging otherwise.
pub fn commit(all: &mut EntriesFile, entries: Vec<Entry>, overwrite: bool) -> (count: usize)
    ensures
        final(all)@ == committed(old(all)@, views(entries@), overwrite),
        overwrite ==> count == entries@.len(),
        !overwrite ==> count == final(all)@.len() - old(all)@.len(),
        !overwrite && ids_distinct(old(all)@) ==> ids_distinct(final(all)@),
{
    if overwrite {
        replace_all(all, entries)
    } else {
        merge(all, entries)
    }
}

/// Takes entries handed over directly. Only those bound to a vault known
/// on this machine are kept; they are committed as `commit` does.
pub fn import_entries_payload(
    all: &mut EntriesFile,
    entries: Vec<Entry>,
    overwrite: bool,
    allowed: &Vec<String>,
) -> (count: usize)
    ensures
        final(all)@ == committed(
            old(all)@,
            views(entries@).filter(|e: EntryView| bound_to_known(e, views(allowed@))),
            overwrite,
        ),
        overwrite ==> count == views(entries@).filter(
            |e: EntryView| bound_to_known(e, views(allowed@)),
        ).len(),
        !overwrite ==> count == final(all)@.len() - old(all)@.len(),
{
    let ghost known = |e: EntryView| bound_to_known(e, views(allowed@));
    let mut kept: Vec<Entry> = Vec::new();
    let mut i: usize = 0;
    while i < entries.len()
        invariant
            i <= entries.len(),
            known == |e: EntryView| bound_to_known(e, views(allowed@)),
            views(kept@) == views(entries@).take(i as int).filter(known),
        decreases entries.len() - i,
    {
        proof {
            assert(views(entries@).take(i + 1) == views(entries@).take(i as int).push(
                entries@[i as int]@,
            ));
            views(entries@).take(i as int).lemma_filter_push(entries@[i as int]@, known);
        }
        let keep = match &entries[i].fingerprint {
            Some(f) => holds(allowed, f),
            None => false,
        };
        if keep {
            let e = entries[i].clone();
            proof {
                views_push(kept@, e);
            }
            kept.push(e);
        }
        i += 1;
    }
    assert(views(entries@).take(i as int) == views(entries@));
    commit(all, kept, overwrite)
}

/// Takes the entries of an opened backup: maps them as `map_entries` does
/// and commits the survivors as `commit` does.
pub fn import_with_mapping(
    all: &mut EntriesFile,
    entries: Vec<Entry>,
    mapping: Vec<CsvMapping>,
    overwrite: bool,
    allowed: &Vec<String>,
) -> (count: usize)
    ensures
        final(all)@ == committed(
            old(all)@,
            mapped_entries(views(entries@), views(mapping@), views(allowed@)),
            overwrite,
        ),
        overwrite ==> count == mapped_entries(
            views(entries@),
            views(mapping@),
            views(allowed@),
        ).len(),
        !overwrite ==> count == final(all)@.len() - old(all)@.len(),
{
    let mapped = map_entries(entries, mapping, allowed);
    commit(all, mapped, overwrite)
}

/// A count for each fingerprint that `entries` came with, the empty
/// fingerprint standing for unbound entries, in the order of strings.
pub fn summarize_fingerprints(entries: &Vec<Entry>) -> (rows: Vec<(String, usize)>)
    ensures
        is_summary(
            summary_rows(rows@),
            views(entries@).map_values(|e: EntryView| source_fingerprint(e)),
        ),
{
    let ghost source = |e: EntryView| source_fingerprint(e);
    let mut keys: Vec<String> = Vec::new();
    let mut i: usize = 0;
    while i < entries.len()
        invariant
            i <= entries.len(),
            source == |e: EntryView| source_fingerprint(e),
            views(keys@) == views(entries@).take(i as int).map_values(source),
        decreases entries.len() - i,
    {
        let key = source_of(&entries[i]);
        proof {
            views_push(keys@, key);
            assert(views(entries@).take(i + 1).map_values(source) == views(entries@).take(
                i as int,
            ).map_values(source).push(key@));
        }
        keys.push(key);
        i += 1;
    }
    assert(views(entries@).take(i as int) == views(entries@));
    summarize(&keys)
}

/// The preview of an opened backup: a count for each fingerprint its
/// entries came with.
pub fn preview_backup(entries: &Vec<Entry>) -> (preview: CsvPreview)
    ensures
        is_summary(
            summary_rows(preview.fingerprints@),
            views(entries@).map_values(|e: EntryView| source_fingerprint(e)),
        ),
{
    CsvPreview { fingerprints: summarize_fingerprints(entries) }
}

/// The first line of a tabular export.
pub open spec fn csv_header() -> Seq<char> {
    "fingerprint,label,postfix,method_id,created_at,id"@
}

/// One row of a tabular export: the six fields of an entry joined by
/// commas, with a line feed at the end. Nothing is quoted or escaped.
pub open spec fn csv_row(e: EntryView) -> Seq<char> {
    source_fingerprint(e) + seq![','] + e.label + seq![','] + e.postfix + seq![','] + e.method_id
        + seq![','] + decimal_of(e.created_at as nat) + seq![','] + e.id + seq!['\n']
}

/// The rows of `entries`, one after the other.
pub open spec fn csv_rows(entries: Seq<EntryView>) -> Seq<char>
    decreases entries.len(),
{
    if entries.len() == 0 {
        Seq::empty()
    } else {
        csv_rows(entries.drop_last()) + csv_row(entries.last())
    }
}

/// The tabular export of a catalog: the header, then a row for every entry
/// in listing order.
pub open spec fn csv_text(all: Seq<EntryView>) -> Seq<char> {
    csv_header() + seq!['\n'] + csv_rows(listing(all, None))
}

/// The lines of a tabular document after its header line.
pub open spec fn data_lines(text: Seq<char>) -> Seq<Seq<char>> {
    if lines_of(text).len() == 0 {
        Seq::empty()
    } else {
        lines_of(text).skip(1)
    }
}

/// The source fingerprint of a row: its first field without surrounding
/// white space. A line with fewer than six fields is no row.
pub open spec fn csv_key(line: Seq<char>) -> Option<Seq<char>> {
    let fields = split(line, ',');
    if fields.len() < 6 {
        None
    } else {
        Some(trimmed(fields[0]))
    }
}

/// The source fingerprints of the rows among `lines`.
pub open spec fn csv_keys(lines: Seq<Seq<char>>) -> Seq<Seq<char>>
    decreases lines.len(),
{
    if lines.len() == 0 {
        Seq::empty()
    } else {
        match csv_key(lines.last()) {
            Some(key) => csv_keys(lines.drop_last()).push(key),
            None => csv_keys(lines.drop_last()),
        }
    }
}

/// The creation time that a field gives: its decimal value, or zero where
/// it is no number that fits.
pub open spec fn csv_created_at(field: Seq<char>) -> u64 {
    match parse_decimal(field, u64::MAX as nat) {
        Some(n) => n as u64,
        None => 0,
    }
}

/// The entry that a line gives under a mapping. A line with fewer than six
/// fields gives none, nor does one whose source fingerprint the mapping
/// gives no target that is a vault known on this machine. Fields after the
/// sixth are ignored.
pub open spec fn csv_entry(
    line: Seq<char>,
    mapping: Seq<CsvMappingView>,
    allowed: Seq<Seq<char>>,
) -> Option<EntryView> {
    let fields = split(line, ',');
    match csv_key(line) {
        None => None,
        Some(from) => match accepted_target(mapping, allowed, from) {
            None => None,
            Some(target) => Some(
                EntryView {
                    id: fields[5],
                    label: fields[1],
                    postfix: fields[2],
                    method_id: fields[3],
                    created_at: csv_created_at(fields[4]),
                    order: 0,
                    fingerprint: Some(target),
                },
            ),
        },
    }
}

/// The entries that `lines` give under a mapping, in the order of the
/// lines.
pub open spec fn csv_entries(
    lines: Seq<Seq<char>>,
    mapping: Seq<CsvMappingView>,
    allowed: Seq<Seq<char>>,
) -> Seq<EntryView>
    decreases lines.len(),
{
    if lines.len() == 0 {
        Seq::empty()
    } else {
        match csv_entry(lines.last(), mapping, allowed) {
            Some(e) => csv_entries(lines.drop_last(), mapping, allowed).push(e),
            None => csv_entries(lines.drop_last(), mapping, allowed),
        }
    }
}

/// A line gives an entry only if it has six fields and the mapping sends
/// its source fingerprint to a vault known on this machine; the entry is
/// then bound to that vault.
pub proof fn csv_entry_is_mapped_row(
    line: Seq<char>,
    mapping: Seq<CsvMappingView>,
    allowed: Seq<Seq<char>>,
)
    ensures
        split(line, ',').len() < 6 ==> csv_entry(line, mapping, allowed) is None,
        split(line, ',').len() >= 6 && target_of(mapping, trimmed(split(line, ',')[0])) is None
            ==> csv_entry(line, mapping, allowed) is None,
        split(line, ',').len() >= 6 && target_of(mapping, trimmed(split(line, ',')[0])) is Some
            && !allowed.contains(target_of(mapping, trimmed(split(line, ',')[0])).unwrap())
            ==> csv_entry(line, mapping, allowed) is None,
        csv_entry(line, mapping, allowed) is Some ==> {
            &&& split(line, ',').len() >= 6
            &&& csv_entry(line, mapping, allowed).unwrap().fingerprint == target_of(
                mapping,
                trimmed(split(line, ',')[0]),
            )
            &&& allowed.contains(csv_entry(line, mapping, allowed).unwrap().fingerprint.unwrap())
        },
{
}

/// Every imported entry is bound to a vault known on this machine, and no
/// more entries are imported than there are lines.
pub proof fn csv_entries_are_known(
    lines: Seq<Seq<char>>,
    mapping: Seq<CsvMappingView>,
    allowed: Seq<Seq<char>>,
)
    ensures
        csv_entries(lines, mapping, allowed).len() <= lines.len(),
        forall|i: int|
            0 <= i < csv_entries(lines, mapping, allowed).len() ==> bound_to_known(
                #[trigger] csv_entries(lines, mapping, allowed)[i],
                allowed,
            ),
    decreases lines.len(),
{
    if lines.len() > 0 {
        csv_entries_are_known(lines.drop_last(), mapping, allowed);
        csv_entry_is_mapped_row(lines.last(), mapping, allowed);
    }
}

/// Writes the catalog as a table: the header line, then one row for each
/// entry in listing order.
pub fn export_to_csv(all: &EntriesFile) -> (text: String)
    ensures
        text@ == csv_text(all@),
{
    let entries = list_for_fingerprint(all, &None);
    let mut out: Vec<char> = Vec::new();
    append_str(&mut out, "fingerprint,label,postfix,method_id,created_at,id");
    out.push('\n');
    let ghost head = out@;
    let mut i: usize = 0;
    assert(out@ == head + csv_rows(views(entries@).take(0)));
    while i < entries.len()
        invariant
            i <= entries.len(),
            out@ == head + csv_rows(views(entries@).take(i as int)),
        decreases entries.len() - i,
    {
        let e = &entries[i];
        let ghost before = out@;
        let from = source_of(e);
        append_str(&mut out, from.as_str());
        out.push(',');
        append_str(&mut out, e.label.as_str());
        out.push(',');
        append_str(&mut out, e.postfix.as_str());
        out.push(',');
        append_str(&mut out, e.method_id.as_str());
        out.push(',');
        push_decimal(&mut out, e.created_at);
        out.push(',');
        append_str(&mut out, e.id.as_str());
        out.push('\n');
        proof {
            assert(out@ == before + csv_row(e@));
            assert(views(entries@).take(i + 1).drop_last() == views(entries@).take(i as int));
            assert(views(entries@).take(i + 1).last() == e@);
        }
        i += 1;
    }
    assert(views(entries@).take(i as int) == views(entries@));
    from_chars(&out)
}

/// The lines of a tabular document after its header line.
fn read_data_lines(data: &str) -> (rows: Vec<Vec<char>>)
    ensures
        views(rows@) == data_lines(data@),
{
    let chars = to_chars(data);
    let mut all = lines(&chars);
    if all.len() == 0 {
        return all;
    }
    let ghost whole = views(all@);
    let _ = all.remove(0);
    assert(views(all@) == whole.skip(1));
    all
}

/// The preview of a tabular document: a count for each source fingerprint
/// of its rows, in the order of strings. The header line and lines with
/// fewer than six fields do not count.
pub fn preview_csv(data: &str) -> (preview: CsvPreview)
    ensures
        is_summary(summary_rows(preview.fingerprints@), csv_keys(data_lines(data@))),
{
    let rows = read_data_lines(data);
    let mut keys: Vec<String> = Vec::new();
    let mut i: usize = 0;
    while i < rows.len()
        invariant
            i <= rows.len(),
            views(keys@) == csv_keys(views(rows@).take(i as int)),
        decreases rows.len() - i,
    {
        assert(views(rows@).take(i + 1).drop_last() == views(rows@).take(i as int));
        assert(views(rows@).take(i + 1).last() == rows@[i as int]@);
        let fields = split_chars(&rows[i], ',');
        assert(views(fields@).len() == fields@.len());
        if fields.len() >= 6 {
            assert(views(fields@)[0] == fields@[0]@);
            let key = from_chars(&trim_chars(&fields[0]));
            proof {
                views_push(keys@, key);
            }
            keys.push(key);
        }
        i += 1;
    }
    assert(views(rows@).take(i as int) == views(rows@));
    CsvPreview { fingerprints: summarize(&keys) }
}

/// Takes the rows of a tabular document. A row is kept where the mapping
/// gives its source fingerprint a target that is a vault known on this
/// machine; the entry made from it is bound to that target and has no
/// place in the custom order. The survivors are committed as `commit` does.
pub fn import_csv_apply(
    all: &mut EntriesFile,
    data: &str,
    mapping: Vec<CsvMapping>,
    overwrite: bool,
    allowed: &Vec<String>,
) -> (count: usize)
    ensures
        final(all)@ == committed(
            old(all)@,
            csv_entries(data_lines(data@), views(mapping@), views(allowed@)),
            overwrite,
        ),
        overwrite ==> count == csv_entries(
            data_lines(data@),
            views(mapping@),
            views(allowed@),
        ).len(),
        !overwrite ==> count == final(all)@.len() - old(all)@.len(),
{
    let rows = read_data_lines(data);
    let mut list: Vec<Entry> = Vec::new();
    let mut i: usize = 0;
    while i < rows.len()
        invariant
            i <= rows.len(),
            views(list@) == csv_entries(
                views(rows@).take(i as int),
                views(mapping@),
                views(allowed@),
            ),
        decreases rows.len() - i,
    {
        assert(views(rows@).take(i + 1).drop_last() == views(rows@).take(i as int));
        assert(views(rows@).take(i + 1).last() == rows@[i as int]@);
        let fields = split_chars(&rows[i], ',');
        assert(views(fields@).len() == fields@.len());
        if fields.len() >= 6 {
            assert(views(fields@)[0] == fields@[0]@);
            assert(views(fields@)[1] == fields@[1]@);
            assert(views(fields@)[2] == fields@[2]@);
            assert(views(fields@)[3] == fields@[3]@);
            assert(views(fields@)[4] == fields@[4]@);
            assert(views(fields@)[5] == fields@[5]@);
            let from = from_chars(&trim_chars(&fields[0]));
            match find_target(&mapping, &from) {
                Some(target) => {
                    if holds(allowed, &target) {
                        let created_at = match parse_decimal_bounded(&fields[4], u64::MAX) {
                            Some(n) => n,
                            None => 0,
                        };
                        let e = Entry {
                            id: from_chars(&fields[5]),
                            label: from_chars(&fields[1]),
                            postfix: from_chars(&fields[2]),
                            method_id: from_chars(&fields[3]),
                            created_at,
                            order: 0,
                            fingerprint: Some(target),
                        };
                        proof {
                            views_push(list@, e);
                        }
                        list.push(e);
                    }
                },
                None => {},
            }
        }
        i += 1;
    }
    assert(views(rows@).take(i as int) == views(rows@));
    commit(all, list, overwrite)
}

/// The keys of the rows of a summary.
pub open spec fn row_keys(rows: Seq<(Seq<char>, usize)>) -> Seq<Seq<char>> {
    rows.map_values(|r: (Seq<char>, usize)| r.0)
}

/// The keys of a summary ascend, and are the keys that were counted.
pub proof fn summary_keys(rows: Seq<(Seq<char>, usize)>, keys: Seq<Seq<char>>)
    requires
        is_summary(rows, keys),
    ensures
        ascending(row_keys(rows)),
        forall|key: Seq<char>|
            #![trigger row_keys(rows).contains(key)]
            #![trigger keys.contains(key)]
            row_keys(rows).contains(key) <==> keys.contains(key),
{
    let own = row_keys(rows);
    assert forall|i: int, j: int| 0 <= i < j < own.len() implies text_less(own[i], own[j]) by {
        assert(text_less(rows[i].0, rows[j].0));
    }
    assert forall|key: Seq<char>| own.contains(key) <==> keys.contains(key) by {
        if own.contains(key) {
            let i = choose|i: int| 0 <= i < own.len() && own[i] == key;
            assert(rows[i].1 > 0 && rows[i].1 == occurrences(keys, rows[i].0));
            occurrences_bounds(keys, key);
        }
        if keys.contains(key) {
            let k = choose|k: int| 0 <= k < keys.len() && keys[k] == key;
            let i = choose|i: int| 0 <= i < rows.len() && (#[trigger] rows[i]).0 == keys[k];
            assert(own[i] == key);
        }
    }
}

/// A list of keys has one summary only.
pub proof fn summary_is_unique(
    first: Seq<(Seq<char>, usize)>,
    second: Seq<(Seq<char>, usize)>,
    keys: Seq<Seq<char>>,
)
    requires
        is_summary(first, keys),
        is_summary(second, keys),
    ensures
        first == second,
{
    summary_keys(first, keys);
    summary_keys(second, keys);
    assert forall|x: Seq<char>| row_keys(first).contains(x) <==> row_keys(second).contains(x) by {
        assert(row_keys(first).contains(x) <==> keys.contains(x));
        assert(row_keys(second).contains(x) <==> keys.contains(x));
    }
    ascending_with_same_members(row_keys(first), row_keys(second));
    assert forall|i: int| 0 <= i < first.len() implies first[i] == second[i] by {
        assert(row_keys(first)[i] == first[i].0);
        assert(row_keys(second)[i] == second[i].0);
        assert(first[i].1 == occurrences(keys, first[i].0));
        assert(second[i].1 == occurrences(keys, second[i].0));
    }
    assert(first.len() == row_keys(first).len());
    assert(second.len() == row_keys(second).len());
    assert(first =~= second);
}

} // verus!
