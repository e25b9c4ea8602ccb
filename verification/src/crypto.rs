//! Master secrets at rest: sealed under a key derived from a viewer
//! password, stored as a versioned record, and named by a fingerprint of the
//! secret itself.

use crate::paths::{file_stem, join, joined, masters_dir, stem_of};
use crate::primitives::{
    aes256_gcm_decrypt, aes256_gcm_encrypt, aes256_gcm_open, aes256_gcm_seal, argon2id,
    argon2id_accepts, argon2id_key, base64_decode_unpadded, base64_encodable,
    base64_encode_unpadded, base64_unpadded, base64_unpadded_bytes, chacha20_poly1305_decrypt,
    chacha20_poly1305_open, md5, md5_of, random_bytes, string_from_utf8, wipe,
};
use crate::store::optional_chars;
use crate::text::{
    append_str, from_chars, hex_of_bytes, hex_string, to_chars, views, views_push,
};
use vstd::prelude::*;
use vstd::utf8::{decode_utf8, encode_utf8, valid_utf8};

verus! {

/// Memory cost of key derivation on desktop systems, in KiB.
pub const ARGON_MEM_DESKTOP: u32 = 19456;

/// Memory cost of key derivation on constrained systems, in KiB.
pub const ARGON_MEM_MOBILE: u32 = 8192;

/// Number of passes of key derivation.
pub const ARGON_ITERATIONS: u32 = 2;

/// Number of lanes of key derivation.
pub const ARGON_PARALLELISM: u32 = 1;

/// Length of a fresh salt in bytes.
pub const SALT_LEN: usize = 16;

/// Length of a nonce in bytes.
pub const NONCE_LEN: usize = 12;

/// Length of a key in bytes.
pub const KEY_LEN: usize = 32;

/// The version number of the current master record format.
pub const MASTER_VERSION: u32 = 2;

/// The kind of system the vault runs on, which fixes the cost of deriving
/// new keys.
#[derive(Clone, Copy, Debug, PartialEq, Eq, Structural)]
pub enum Platform {
    Desktop,
    Mobile,
}

/// The cost parameters of one key derivation.
#[derive(Clone, Copy, Debug, PartialEq, Eq, Structural)]
pub struct KdfCost {
    pub mem_kib: u32,
    pub iterations: u32,
    pub parallelism: u32,
}

/// The two authenticated ciphers in use.
#[derive(Clone, Copy, Debug, PartialEq, Eq, Structural)]
pub enum Cipher {
    Aes256Gcm,
    ChaCha20Poly1305,
}

/// Why a master secret could not be sealed or opened.
#[derive(Clone, Copy, Debug, PartialEq, Eq, Structural)]
pub enum CryptoError {
    /// The record does not open: wrong password or damaged record. The two
    /// are not told apart.
    Decryption,
    /// There is no record for the fingerprint.
    NotFound,
    /// The system's random source failed.
    Entropy,
}

/// The key derivation and cipher that a record names.
#[derive(Debug, PartialEq, Eq)]
pub struct KdfSettings {
    pub kdf: String,
    pub mem_kib: u32,
    pub iterations: u32,
    pub parallelism: u32,
    pub cipher: String,
}

/// One sealed master secret as it is stored. A record of the current format
/// has version 2 and names its key derivation; older records name none.
#[derive(Debug, PartialEq, Eq)]
pub struct MasterFile {
    pub version: u32,
    pub settings: Option<KdfSettings>,
    pub salt_b64: String,
    pub nonce_b64: String,
    pub ciphertext_b64: String,
}

/// What key derivation settings hold, as plain values.
pub struct KdfSettingsView {
    pub kdf: Seq<char>,
    pub mem_kib: u32,
    pub iterations: u32,
    pub parallelism: u32,
    pub cipher: Seq<char>,
}

/// What a master record holds, as plain values.
pub struct MasterFileView {
    pub version: u32,
    pub settings: Option<KdfSettingsView>,
    pub salt_b64: Seq<char>,
    pub nonce_b64: Seq<char>,
    pub ciphertext_b64: Seq<char>,
}

impl View for KdfSettings {
    type V = KdfSettingsView;

    open spec fn view(&self) -> KdfSettingsView {
        KdfSettingsView {
            kdf: self.kdf@,
            mem_kib: self.mem_kib,
            iterations: self.iterations,
            parallelism: self.parallelism,
            cipher: self.cipher@,
        }
    }
}

impl View for MasterFile {
    type V = MasterFileView;

    open spec fn view(&self) -> MasterFileView {
        MasterFileView {
            version: self.version,
            settings: match self.settings {
                Some(s) => Some(s@),
                None => None,
            },
            salt_b64: self.salt_b64@,
            nonce_b64: self.nonce_b64@,
            ciphertext_b64: self.ciphertext_b64@,
        }
    }
}

/// Salt, nonce and ciphertext of a sealed payload, decoded.
pub struct SealedBytes {
    pub salt: Seq<u8>,
    pub nonce: Seq<u8>,
    pub ciphertext: Seq<u8>,
}

/// The memory cost for new keys on `platform`.
pub open spec fn default_mem_of(platform: Platform) -> u32 {
    match platform {
        Platform::Desktop => ARGON_MEM_DESKTOP,
        Platform::Mobile => ARGON_MEM_MOBILE,
    }
}

/// The cost for new keys on `platform`.
pub open spec fn default_cost_of(platform: Platform) -> KdfCost {
    KdfCost {
        mem_kib: default_mem_of(platform),
        iterations: ARGON_ITERATIONS,
        parallelism: ARGON_PARALLELISM,
    }
}

/// The costs that records without stored settings were sealed under, in the
/// order in which they are tried.
pub open spec fn historical_costs() -> Seq<KdfCost> {
    seq![default_cost_of(Platform::Desktop), default_cost_of(Platform::Mobile)]
}

/// The key for `password` and `salt` under `cost`, where key derivation
/// accepts them.
pub open spec fn derived_key(password: Seq<char>, salt: Seq<u8>, cost: KdfCost) -> Option<Seq<u8>> {
    if argon2id_accepts(
        encode_utf8(password).len(),
        salt.len(),
        cost.mem_kib,
        cost.iterations,
        cost.parallelism,
    ) {
        Some(
            argon2id_key(
                encode_utf8(password),
                salt,
                cost.mem_kib,
                cost.iterations,
                cost.parallelism,
            ),
        )
    } else {
        None
    }
}

/// What `cipher` recovers from a ciphertext under a key of 32 bytes and a
/// nonce of 12 bytes; with a key or nonce of another length, nothing.
pub open spec fn opened(cipher: Cipher, key: Seq<u8>, nonce: Seq<u8>, ciphertext: Seq<u8>) -> Option<
    Seq<u8>,
> {
    if key.len() != KEY_LEN || nonce.len() != NONCE_LEN {
        None
    } else {
        match cipher {
            Cipher::Aes256Gcm => aes256_gcm_open(key, nonce, ciphertext),
            Cipher::ChaCha20Poly1305 => chacha20_poly1305_open(key, nonce, ciphertext),
        }
    }
}

/// What one attempt recovers: the payload opened under the key that
/// `password` gives with `cost`.
pub open spec fn attempt(password: Seq<char>, sealed: SealedBytes, cipher: Cipher, cost: KdfCost) -> Option<
    Seq<u8>,
> {
    match derived_key(password, sealed.salt, cost) {
        Some(key) => opened(cipher, key, sealed.nonce, sealed.ciphertext),
        None => None,
    }
}

/// The first of `costs`, from index `from` on, under which the payload
/// opens, with the plaintext it gives.
pub open spec fn first_opening(
    password: Seq<char>,
    sealed: SealedBytes,
    cipher: Cipher,
    costs: Seq<KdfCost>,
    from: int,
) -> Option<(int, Seq<u8>)>
    decreases costs.len() - from,
{
    if from < 0 || from >= costs.len() {
        None
    } else {
        match attempt(password, sealed, cipher, costs[from]) {
            Some(plaintext) => Some((from, plaintext)),
            None => first_opening(password, sealed, cipher, costs, from + 1),
        }
    }
}

/// The fields of a stored payload decoded from base64, where all three
/// decode and the nonce has its length.
pub open spec fn decoded_fields(salt_b64: Seq<char>, nonce_b64: Seq<char>, ciphertext_b64: Seq<char>) -> Option<
    SealedBytes,
> {
    match (
        base64_unpadded_bytes(salt_b64),
        base64_unpadded_bytes(nonce_b64),
        base64_unpadded_bytes(ciphertext_b64),
    ) {
        (Some(salt), Some(nonce), Some(ciphertext)) => if nonce.len() == NONCE_LEN {
            Some(SealedBytes { salt, nonce, ciphertext })
        } else {
            None
        },
        _ => None,
    }
}

/// The fingerprint of a master secret: the MD5 digest of its UTF-8 bytes in
/// lower-case hexadecimal. It names the record and is no secret.
pub open spec fn fingerprint_of(secret: Seq<char>) -> Seq<char> {
    hex_of_bytes(md5_of(encode_utf8(secret)))
}

/// Whether a record is of the current format: version 2 with its key
/// derivation settings.
pub open spec fn is_current(record: MasterFileView) -> bool {
    record.version == MASTER_VERSION && record.settings is Some
}

/// The cipher of a record: AES-256-GCM for version 2, ChaCha20-Poly1305 for
/// every other.
pub open spec fn cipher_of(record: MasterFileView) -> Cipher {
    if record.version == MASTER_VERSION {
        Cipher::Aes256Gcm
    } else {
        Cipher::ChaCha20Poly1305
    }
}

/// The costs under which a record is tried: its own where it names them,
/// the historical ones otherwise.
pub open spec fn costs_of(record: MasterFileView) -> Seq<KdfCost> {
    match record.settings {
        Some(s) => seq![
            KdfCost { mem_kib: s.mem_kib, iterations: s.iterations, parallelism: s.parallelism },
        ],
        None => historical_costs(),
    }
}

/// The bytes that a record opens to under `password`, with the index of the
/// cost that opened it.
pub open spec fn opened_record(password: Seq<char>, record: MasterFileView) -> Option<
    (int, Seq<u8>),
> {
    match decoded_fields(record.salt_b64, record.nonce_b64, record.ciphertext_b64) {
        Some(sealed) => first_opening(password, sealed, cipher_of(record), costs_of(record), 0),
        None => None,
    }
}

/// The master secret that a record holds for `password`: what the record
/// opens to, where that is valid UTF-8.
pub open spec fn master_secret(password: Seq<char>, record: MasterFileView) -> Option<Seq<char>> {
    match opened_record(password, record) {
        Some((_, bytes)) => if valid_utf8(bytes) {
            Some(decode_utf8(bytes))
        } else {
            None
        },
        None => None,
    }
}

/// Whether a plaintext of `n` bytes can be sealed and stored: the cipher
/// takes at most 2^36 bytes, and the ciphertext, 16 bytes longer, must be
/// encodable.
pub open spec fn sealable(n: nat) -> bool {
    n <= 0x10_0000_0000 && base64_encodable(n + 16)
}

/// The settings that a record of the current format names for `cost`.
pub open spec fn current_settings(cost: KdfCost) -> KdfSettingsView {
    KdfSettingsView {
        kdf: "argon2id"@,
        mem_kib: cost.mem_kib,
        iterations: cost.iterations,
        parallelism: cost.parallelism,
        cipher: "aes256gcm"@,
    }
}

/// The record of the current format that seals `secret` under `key`.
pub open spec fn current_record(
    key: Seq<u8>,
    cost: KdfCost,
    salt: Seq<u8>,
    nonce: Seq<u8>,
    secret: Seq<char>,
) -> MasterFileView {
    MasterFileView {
        version: MASTER_VERSION,
        settings: Some(current_settings(cost)),
        salt_b64: base64_unpadded(salt),
        nonce_b64: base64_unpadded(nonce),
        ciphertext_b64: base64_unpadded(aes256_gcm_seal(key, nonce, encode_utf8(secret))),
    }
}

/// The record that seals `secret` under `password` with the given salt and
/// nonce at the cost of `platform`, where that can be done: the nonce has
/// its length, key derivation accepts password and salt, and salt and
/// secret are not too long.
pub open spec fn sealed_master(
    password: Seq<char>,
    secret: Seq<char>,
    salt: Seq<u8>,
    nonce: Seq<u8>,
    platform: Platform,
) -> Option<MasterFileView> {
    let cost = default_cost_of(platform);
    match derived_key(password, salt, cost) {
        Some(key) => if nonce.len() == NONCE_LEN && base64_encodable(salt.len()) && sealable(
            encode_utf8(secret).len(),
        ) {
            Some(current_record(key, cost, salt, nonce, secret))
        } else {
            None
        },
        None => None,
    }
}

/// The memory cost for new keys on `platform`, in KiB.
pub fn default_mem(platform: Platform) -> (mem_kib: u32)
    ensures
        mem_kib == default_mem_of(platform),
{
    match platform {
        Platform::Desktop => ARGON_MEM_DESKTOP,
        Platform::Mobile => ARGON_MEM_MOBILE,
    }
}

/// The cost for new keys on `platform`.
pub fn default_cost(platform: Platform) -> (cost: KdfCost)
    ensures
        cost == default_cost_of(platform),
{
    KdfCost {
        mem_kib: default_mem(platform),
        iterations: ARGON_ITERATIONS,
        parallelism: ARGON_PARALLELISM,
    }
}

/// Derives the 32-byte key for `passphrase` and `salt` under the given
/// cost, or `None` where key derivation does not accept them.
pub fn derive_key_with(
    passphrase: &str,
    salt: &[u8],
    mem_kib: u32,
    iterations: u32,
    parallelism: u32,
) -> (key: Option<Vec<u8>>)
    ensures
        match key {
            Some(k) => derived_key(passphrase@, salt@, KdfCost { mem_kib, iterations, parallelism })
                == Some(k@) && k@.len() == 32,
            None => derived_key(passphrase@, salt@, KdfCost { mem_kib, iterations, parallelism })
                is None,
        },
{
    if parallelism > 0xFF_FFFF {
        return None;
    }
    argon2id(passphrase.as_bytes(), salt, mem_kib, iterations, parallelism)
}

/// Derives the key for `passphrase` and `salt` at the cost of `platform`.
pub fn derive_key(passphrase: &str, salt: &[u8], platform: Platform) -> (key: Option<Vec<u8>>)
    ensures
        match key {
            Some(k) => derived_key(passphrase@, salt@, default_cost_of(platform)) == Some(k@)
                && k@.len() == 32,
            None => derived_key(passphrase@, salt@, default_cost_of(platform)) is None,
        },
{
    derive_key_with(passphrase, salt, default_mem(platform), ARGON_ITERATIONS, ARGON_PARALLELISM)
}

/// Whether a byte string of length `n` can be base64-encoded.
pub fn fits_base64(n: usize) -> (r: bool)
    ensures
        r == base64_encodable(n as nat),
{
    n / 3 <= (usize::MAX - 4) / 4
}

/// Whether a plaintext of `n` bytes can be sealed and stored.
pub fn fits_sealing(n: usize) -> (r: bool)
    ensures
        r == sealable(n as nat),
{
    n <= usize::MAX - 16 && (n as u64) <= 0x10_0000_0000 && fits_base64(n + 16)
}

/// The fingerprint of a master secret.
pub fn fingerprint(secret: &str) -> (fp: String)
    ensures
        fp@ == fingerprint_of(secret@),
{
    let digest = md5(secret.as_bytes());
    hex_string(digest.as_slice())
}

/// Seals `secret` under `key` as a record of the current format.
fn seal_current(
    key: &Vec<u8>,
    cost: KdfCost,
    salt: &Vec<u8>,
    nonce: &Vec<u8>,
    secret: &str,
) -> (record: Option<MasterFile>)
    requires
        key@.len() == 32,
        nonce@.len() == NONCE_LEN,
    ensures
        record is Some <==> base64_encodable(salt@.len()) && sealable(encode_utf8(secret@).len()),
        record is Some ==> record.unwrap()@ == current_record(
            key@,
            cost,
            salt@,
            nonce@,
            secret@,
        ),
        record is Some ==> decoded_fields(
            record.unwrap()@.salt_b64,
            record.unwrap()@.nonce_b64,
            record.unwrap()@.ciphertext_b64,
        ) == Some(
            SealedBytes {
                salt: salt@,
                nonce: nonce@,
                ciphertext: aes256_gcm_seal(key@, nonce@, encode_utf8(secret@)),
            },
        ),
        record is Some ==> aes256_gcm_open(
            key@,
            nonce@,
            aes256_gcm_seal(key@, nonce@, encode_utf8(secret@)),
        ) == Some(encode_utf8(secret@)),
{
    let plaintext = secret.as_bytes();
    if !fits_base64(salt.len()) || !fits_sealing(plaintext.len()) {
        return None;
    }
    match aes256_gcm_encrypt(key.as_slice(), nonce.as_slice(), plaintext) {
        Some(ciphertext) => {
            let settings = KdfSettings {
                kdf: "argon2id".to_owned(),
                mem_kib: cost.mem_kib,
                iterations: cost.iterations,
                parallelism: cost.parallelism,
                cipher: "aes256gcm".to_owned(),
            };
            Some(
                MasterFile {
                    version: MASTER_VERSION,
                    settings: Some(settings),
                    salt_b64: base64_encode_unpadded(salt.as_slice()),
                    nonce_b64: base64_encode_unpadded(nonce.as_slice()),
                    ciphertext_b64: base64_encode_unpadded(ciphertext.as_slice()),
                },
            )
        },
        None => None,
    }
}

/// Decodes the three base64 fields of a stored payload.
pub fn decode_fields(salt_b64: &str, nonce_b64: &str, ciphertext_b64: &str) -> (fields: Option<
    (Vec<u8>, Vec<u8>, Vec<u8>),
>)
    ensures
        match fields {
            Some((salt, nonce, ciphertext)) => decoded_fields(
                salt_b64@,
                nonce_b64@,
                ciphertext_b64@,
            ) == Some(SealedBytes { salt: salt@, nonce: nonce@, ciphertext: ciphertext@ }),
            None => decoded_fields(salt_b64@, nonce_b64@, ciphertext_b64@) is None,
        },
{
    let salt = match base64_decode_unpadded(salt_b64) {
        Some(b) => b,
        None => {
            return None;
        },
    };
    let nonce = match base64_decode_unpadded(nonce_b64) {
        Some(b) => b,
        None => {
            return None;
        },
    };
    let ciphertext = match base64_decode_unpadded(ciphertext_b64) {
        Some(b) => b,
        None => {
            return None;
        },
    };
    if nonce.len() != NONCE_LEN {
        return None;
    }
    Some((salt, nonce, ciphertext))
}

/// Opens a ciphertext with `cipher`.
pub fn open_with(cipher: Cipher, key: &[u8], nonce: &[u8], ciphertext: &[u8]) -> (plaintext: Option<
    Vec<u8>,
>)
    ensures
        match plaintext {
            Some(p) => opened(cipher, key@, nonce@, ciphertext@) == Some(p@),
            None => opened(cipher, key@, nonce@, ciphertext@) is None,
        },
{
    if key.len() != KEY_LEN || nonce.len() != NONCE_LEN {
        return None;
    }
    match cipher {
        Cipher::Aes256Gcm => aes256_gcm_decrypt(key, nonce, ciphertext),
        Cipher::ChaCha20Poly1305 => chacha20_poly1305_decrypt(key, nonce, ciphertext),
    }
}

/// What the first successful attempt gave: the index of its cost, the key
/// and the plaintext.
pub struct Opening {
    pub index: usize,
    pub key: Vec<u8>,
    pub plaintext: Vec<u8>,
}

impl Opening {
    /// Overwrites the key with zeros and leaves it empty.
    pub fn forget_key(&mut self)
        ensures
            final(self).key@ == Seq::<u8>::empty(),
            final(self).index == old(self).index,
            final(self).plaintext == old(self).plaintext,
    {
        wipe(&mut self.key);
    }
}

/// Tries the costs in order and returns the first opening.
pub fn open_first(
    password: &str,
    salt: &Vec<u8>,
    nonce: &Vec<u8>,
    ciphertext: &Vec<u8>,
    cipher: Cipher,
    costs: &Vec<KdfCost>,
) -> (found: Option<Opening>)
    ensures
        match found {
            Some(o) => {
                &&& first_opening(
                    password@,
                    SealedBytes { salt: salt@, nonce: nonce@, ciphertext: ciphertext@ },
                    cipher,
                    costs@,
                    0,
                ) == Some((o.index as int, o.plaintext@))
                &&& o.index < costs@.len()
                &&& derived_key(password@, salt@, costs@[o.index as int]) == Some(o.key@)
                &&& o.key@.len() == 32
                &&& opened(cipher, o.key@, nonce@, ciphertext@) == Some(o.plaintext@)
            },
            None => first_opening(
                password@,
                SealedBytes { salt: salt@, nonce: nonce@, ciphertext: ciphertext@ },
                cipher,
                costs@,
                0,
            ) is None,
        },
{
    let ghost sealed = SealedBytes { salt: salt@, nonce: nonce@, ciphertext: ciphertext@ };
    let mut i: usize = 0;
    while i < costs.len()
        invariant
            i <= costs.len(),
            sealed == (SealedBytes { salt: salt@, nonce: nonce@, ciphertext: ciphertext@ }),
            first_opening(password@, sealed, cipher, costs@, 0) == first_opening(
                password@,
                sealed,
                cipher,
                costs@,
                i as int,
            ),
        decreases costs.len() - i,
    {
        let cost = costs[i];
        match derive_key_with(
            password,
            salt.as_slice(),
            cost.mem_kib,
            cost.iterations,
            cost.parallelism,
        ) {
            Some(key) => {
                let mut key = key;
                match open_with(cipher, key.as_slice(), nonce.as_slice(), ciphertext.as_slice()) {
                    Some(plaintext) => {
                        return Some(Opening { index: i, key, plaintext });
                    },
                    None => {
                        wipe(&mut key);
                    },
                }
            },
            None => {},
        }
        i += 1;
    }
    None
}

/// The costs under which records without stored settings are tried.
pub fn historical() -> (costs: Vec<KdfCost>)
    ensures
        costs@ == historical_costs(),
{
    let mut costs: Vec<KdfCost> = Vec::new();
    costs.push(default_cost(Platform::Desktop));
    costs.push(default_cost(Platform::Mobile));
    assert(costs@ =~= historical_costs());
    costs
}

/// Whether a secret can be sealed under `password` on `platform`, whatever
/// the salt and nonce: key derivation accepts the password, and the secret
/// is not too long.
pub open spec fn can_seal(password: Seq<char>, secret: Seq<char>, platform: Platform) -> bool {
    let cost = default_cost_of(platform);
    &&& argon2id_accepts(
        encode_utf8(password).len(),
        SALT_LEN as nat,
        cost.mem_kib,
        cost.iterations,
        cost.parallelism,
    )
    &&& sealable(encode_utf8(secret).len())
}

/// A record of the current format opens to the secret it was sealed from.
proof fn current_record_opens(
    password: Seq<char>,
    key: Seq<u8>,
    cost: KdfCost,
    salt: Seq<u8>,
    nonce: Seq<u8>,
    secret: Seq<char>,
    record: MasterFileView,
)
    requires
        record == current_record(key, cost, salt, nonce, secret),
        key.len() == KEY_LEN,
        nonce.len() == NONCE_LEN,
        derived_key(password, salt, cost) == Some(key),
        decoded_fields(record.salt_b64, record.nonce_b64, record.ciphertext_b64) == Some(
            SealedBytes {
                salt,
                nonce,
                ciphertext: aes256_gcm_seal(key, nonce, encode_utf8(secret)),
            },
        ),
        aes256_gcm_open(key, nonce, aes256_gcm_seal(key, nonce, encode_utf8(secret))) == Some(
            encode_utf8(secret),
        ),
    ensures
        is_current(record),
        costs_of(record) == seq![cost],
        opened_record(password, record) == Some((0int, encode_utf8(secret))),
        master_secret(password, record) == Some(secret),
{
    broadcast use vstd::utf8::encode_utf8_valid_utf8, vstd::utf8::encode_utf8_decode_utf8;

    let sealed = SealedBytes {
        salt,
        nonce,
        ciphertext: aes256_gcm_seal(key, nonce, encode_utf8(secret)),
    };
    assert(costs_of(record) == seq![cost]);
    assert(cipher_of(record) == Cipher::Aes256Gcm);
    assert(attempt(password, sealed, Cipher::Aes256Gcm, cost) == Some(encode_utf8(secret)));
    assert(first_opening(password, sealed, Cipher::Aes256Gcm, seq![cost], 0) == Some(
        (0int, encode_utf8(secret)),
    ));
}

/// Seals `master_password` under `viewer_password` with the given salt and
/// nonce, at the cost of `platform`. The record returned opens to the
/// secret again under the same viewer password.
pub fn seal_master(
    viewer_password: &str,
    master_password: &str,
    salt: &Vec<u8>,
    nonce: &Vec<u8>,
    platform: Platform,
) -> (r: Result<MasterFile, CryptoError>)
    ensures
        match r {
            Ok(record) => {
                &&& sealed_master(viewer_password@, master_password@, salt@, nonce@, platform)
                    == Some(record@)
                &&& is_current(record@)
                &&& master_secret(viewer_password@, record@) == Some(master_password@)
            },
            Err(e) => e == CryptoError::Decryption && sealed_master(
                viewer_password@,
                master_password@,
                salt@,
                nonce@,
                platform,
            ) is None,
        },
{
    if nonce.len() != NONCE_LEN {
        return Err(CryptoError::Decryption);
    }
    let cost = default_cost(platform);
    let mut key = match derive_key(viewer_password, salt.as_slice(), platform) {
        Some(k) => k,
        None => {
            return Err(CryptoError::Decryption);
        },
    };
    let sealed = seal_current(&key, cost, salt, nonce, master_password);
    proof {
        if sealed is Some {
            current_record_opens(
                viewer_password@,
                key@,
                cost,
                salt@,
                nonce@,
                master_password@,
                sealed.unwrap()@,
            );
        }
    }
    wipe(&mut key);
    match sealed {
        Some(record) => Ok(record),
        None => Err(CryptoError::Decryption),
    }
}

/// Seals a master secret under a viewer password with a fresh random salt
/// and nonce, and returns the fingerprint of the secret with the record to
/// store under it. The record opens to the secret again under the same
/// viewer password.
pub fn save_master(viewer_password: &str, master_password: &str, platform: Platform) -> (r: Result<
    (String, MasterFile),
    CryptoError,
>)
    ensures
        match r {
            Ok((fp, record)) => {
                &&& fp@ == fingerprint_of(master_password@)
                &&& is_current(record@)
                &&& master_secret(viewer_password@, record@) == Some(master_password@)
                &&& can_seal(viewer_password@, master_password@, platform)
                &&& exists|salt: Seq<u8>, nonce: Seq<u8>|
                    salt.len() == SALT_LEN && nonce.len() == NONCE_LEN && #[trigger] sealed_master(
                        viewer_password@,
                        master_password@,
                        salt,
                        nonce,
                        platform,
                    ) == Some(record@)
            },
            Err(e) => e == CryptoError::Entropy || (e == CryptoError::Decryption && !can_seal(
                viewer_password@,
                master_password@,
                platform,
            )),
        },
{
    let salt = match random_bytes(SALT_LEN) {
        Some(b) => b,
        None => {
            return Err(CryptoError::Entropy);
        },
    };
    let nonce = match random_bytes(NONCE_LEN) {
        Some(b) => b,
        None => {
            return Err(CryptoError::Entropy);
        },
    };
    match seal_master(viewer_password, master_password, &salt, &nonce, platform) {
        Ok(record) => {
            let fp = fingerprint(master_password);
            Ok((fp, record))
        },
        Err(e) => Err(e),
    }
}

/// A master secret that was loaded, with the record of the current format
/// to store in place of an older one, where one was made.
#[derive(Debug, PartialEq, Eq)]
pub struct Loaded {
    pub secret: String,
    pub migrated: Option<MasterFile>,
}

/// Opens a stored record with a viewer password. A record that names its
/// key derivation is opened with it; any other is tried under each
/// historical cost. A record that is not of the current format and holds a
/// secret that is not empty is sealed again in the current format, with the
/// same salt and key and a fresh nonce, where the random source and the
/// sizes allow; the new record names the cost that opened the old one and
/// opens under it alone.
pub fn load_master(viewer_password: &str, record: Option<&MasterFile>) -> (r: Result<
    Loaded,
    CryptoError,
>)
    ensures
        match r {
            Ok(loaded) => {
                &&& record is Some
                &&& master_secret(viewer_password@, record.unwrap()@) == Some(loaded.secret@)
                &&& match loaded.migrated {
                    Some(m) => {
                        &&& !is_current(record.unwrap()@)
                        &&& loaded.secret@.len() > 0
                        &&& is_current(m@)
                        &&& costs_of(m@) == seq![
                            costs_of(record.unwrap()@)[opened_record(
                                viewer_password@,
                                record.unwrap()@,
                            ).unwrap().0],
                        ]
                        &&& base64_unpadded_bytes(m@.salt_b64) == base64_unpadded_bytes(
                            record.unwrap()@.salt_b64,
                        )
                        &&& master_secret(viewer_password@, m@) == Some(loaded.secret@)
                    },
                    None => true,
                }
            },
            Err(e) => match record {
                Some(stored) => e == CryptoError::Decryption && master_secret(
                    viewer_password@,
                    stored@,
                ) is None,
                None => e == CryptoError::NotFound,
            },
        },
{
    let stored = match record {
        Some(s) => s,
        None => {
            return Err(CryptoError::NotFound);
        },
    };
    let (salt, nonce, ciphertext) = match decode_fields(
        stored.salt_b64.as_str(),
        stored.nonce_b64.as_str(),
        stored.ciphertext_b64.as_str(),
    ) {
        Some(fields) => fields,
        None => {
            return Err(CryptoError::Decryption);
        },
    };
    let cipher = if stored.version == MASTER_VERSION {
        Cipher::Aes256Gcm
    } else {
        Cipher::ChaCha20Poly1305
    };
    let costs = match &stored.settings {
        Some(s) => {
            let mut own: Vec<KdfCost> = Vec::new();
            own.push(
                KdfCost {
                    mem_kib: s.mem_kib,
                    iterations: s.iterations,
                    parallelism: s.parallelism,
                },
            );
            assert(own@ =~= costs_of(stored@));
            own
        },
        None => historical(),
    };
    let current = stored.version == MASTER_VERSION && stored.settings.is_some();
    let opening = match open_first(viewer_password, &salt, &nonce, &ciphertext, cipher, &costs) {
        Some(o) => o,
        None => {
            return Err(CryptoError::Decryption);
        },
    };
    let Opening { index, key, plaintext } = opening;
    let mut key = key;
    let cost = costs[index];
    let ghost bytes = plaintext@;
    let secret = match string_from_utf8(plaintext) {
        Some(s) => s,
        None => {
            wipe(&mut key);
            return Err(CryptoError::Decryption);
        },
    };
    proof {
        vstd::utf8::decode_utf8_encode_utf8(bytes);
    }
    let mut migrated: Option<MasterFile> = None;
    if !current && !secret.as_str().is_empty() {
        match random_bytes(NONCE_LEN) {
            Some(fresh) => {
                match seal_current(&key, cost, &salt, &fresh, secret.as_str()) {
                    Some(m) => {
                        proof {
                            current_record_opens(
                                viewer_password@,
                                key@,
                                cost,
                                salt@,
                                fresh@,
                                secret@,
                                m@,
                            );
                        }
                        migrated = Some(m);
                    },
                    None => {},
                }
            },
            None => {},
        }
    }
    wipe(&mut key);
    Ok(Loaded { secret, migrated })
}

/// The fingerprint of the master secret that a record holds.
pub fn master_fingerprint(viewer_password: &str, record: Option<&MasterFile>) -> (r: Result<
    String,
    CryptoError,
>)
    ensures
        match r {
            Ok(fp) => record is Some && match master_secret(viewer_password@, record.unwrap()@) {
                Some(secret) => fp@ == fingerprint_of(secret),
                None => false,
            },
            Err(e) => match record {
                Some(stored) => e == CryptoError::Decryption && master_secret(
                    viewer_password@,
                    stored@,
                ) is None,
                None => e == CryptoError::NotFound,
            },
        },
{
    match load_master(viewer_password, record) {
        Ok(loaded) => Ok(fingerprint(loaded.secret.as_str())),
        Err(e) => Err(e),
    }
}

/// The stems of `names`, in order, without the names that have none.
pub open spec fn stems_of(names: Seq<Seq<char>>) -> Seq<Seq<char>>
    decreases names.len(),
{
    if names.len() == 0 {
        Seq::empty()
    } else {
        match stem_of(names.last()) {
            Some(stem) => stems_of(names.drop_last()).push(stem),
            None => stems_of(names.drop_last()),
        }
    }
}

/// The file that holds the master record with fingerprint `fp`.
pub fn master_file_path_for(data_dir: &str, fp: &str) -> (path: String)
    ensures
        path@ == joined(joined(data_dir@, "masters"@), fp@ + ".enc"@),
{
    let dir = masters_dir(data_dir);
    let mut name = to_chars(fp);
    append_str(&mut name, ".enc");
    let file = from_chars(&name);
    join(dir.as_str(), file.as_str())
}

/// The fingerprints of the master records among the files of the masters
/// directory: the stem of each file name.
pub fn list_master_fingerprints(file_names: &Vec<String>) -> (fingerprints: Vec<String>)
    ensures
        views(fingerprints@) == stems_of(views(file_names@)),
{
    let mut out: Vec<String> = Vec::new();
    let mut i: usize = 0;
    while i < file_names.len()
        invariant
            i <= file_names.len(),
            views(out@) == stems_of(views(file_names@).take(i as int)),
        decreases file_names.len() - i,
    {
        assert(views(file_names@).take(i + 1).drop_last() == views(file_names@).take(i as int));
        assert(views(file_names@).take(i + 1).last() == file_names@[i as int]@);
        match file_stem(file_names[i].as_str()) {
            Some(stem) => {
                proof {
                    views_push(out@, stem);
                }
                out.push(stem);
            },
            None => {},
        }
        i += 1;
    }
    assert(views(file_names@).take(i as int) == views(file_names@));
    out
}

/// Whether the masters directory holds any file.
pub fn has_master(file_names: &Vec<String>) -> (r: bool)
    ensures
        r == (file_names@.len() > 0),
{
    file_names.len() > 0
}

/// The vault that is active after the vault `deleted` was removed: the one
/// that was active, unless that was the deleted one; then the first that
/// remains, if any.
pub fn active_after_delete(active: Option<String>, deleted: &str, remaining: &Vec<String>) -> (next:
    Option<String>)
    ensures
        optional_chars(next) == match optional_chars(active) {
            Some(fp) => if fp == deleted@ {
                if remaining@.len() > 0 {
                    Some(remaining@[0]@)
                } else {
                    None
                }
            } else {
                Some(fp)
            },
            None => None,
        },
{
    let gone = deleted.to_owned();
    match active {
        Some(fp) => {
            if fp == gone {
                if remaining.len() > 0 {
                    Some(remaining[0].clone())
                } else {
                    None
                }
            } else {
                Some(fp)
            }
        },
        None => None,
    }
}

/// The kinds of failure that callers tell apart.
#[derive(Clone, Copy, Debug, PartialEq, Eq, Structural)]
pub enum ErrorKind {
    /// The local system did not provide what was needed.
    Io,
    /// A stored document is malformed.
    Format,
    /// A ciphertext did not authenticate: wrong password or damaged data.
    Auth,
    /// There is no such record.
    NotFound,
    /// A request cannot be served as it was made.
    Validation,
}

impl CryptoError {
    /// The kind of the error.
    pub open spec fn spec_kind(self) -> ErrorKind {
        match self {
            CryptoError::Decryption => ErrorKind::Auth,
            CryptoError::NotFound => ErrorKind::NotFound,
            CryptoError::Entropy => ErrorKind::Io,
        }
    }

    /// The kind of the error.
    pub fn kind(&self) -> (kind: ErrorKind)
        ensures
            kind == self.spec_kind(),
    {
        match self {
            CryptoError::Decryption => ErrorKind::Auth,
            CryptoError::NotFound => ErrorKind::NotFound,
            CryptoError::Entropy => ErrorKind::Io,
        }
    }

    /// The message that goes with the error.
    pub open spec fn spec_message(self) -> Seq<char> {
        match self {
            CryptoError::Decryption => "decryption failed"@,
            CryptoError::NotFound => "master not found"@,
            CryptoError::Entropy => "random source unavailable"@,
        }
    }

    /// The message that goes with the error.
    pub fn message(&self) -> (text: String)
        ensures
            text@ == self.spec_message(),
    {
        match self {
            CryptoError::Decryption => "decryption failed".to_owned(),
            CryptoError::NotFound => "master not found".to_owned(),
            CryptoError::Entropy => "random source unavailable".to_owned(),
        }
    }
}

} // verus!
