//! Deterministic derivation of a credential from a master secret, a postfix
//! and a method identifier. No credential is ever stored: the same three
//! inputs give the same characters every time.

use crate::primitives::{base64_encode_padded, base64_padded, md5, md5_of, sha256, sha256_of};
use crate::text::{
    from_chars, parse_decimal, parse_decimal_bounded, same_chars, split, split_chars, to_chars,
    views,
};
use vstd::prelude::*;
use vstd::utf8::encode_utf8;

verus! {

/// The derivation strategies. A method identifier that names none of the
/// first three is `Unknown` and is served by the default sized method.
#[derive(Clone, Copy, Debug, PartialEq, Eq, Structural)]
pub enum Method {
    /// MD5 of secret and postfix, as unpadded base64.
    LegacyV1,
    /// SHA-256 of secret and postfix, as base64 with `=`, `+`, `/` replaced.
    LegacyV2,
    /// `len` characters drawn from the alphanumeric or the strong alphabet.
    Sized { len: usize, strong: bool },
    /// Any other identifier.
    Unknown,
}

/// The 62 letters and digits.
pub open spec fn alnum_alphabet() -> Seq<char> {
    "abcdefghijklmnopqrstuvwxyzABCDEFGHIJKLMNOPQRSTUVWXYZ0123456789"@
}

/// The letters and digits followed by 27 punctuation characters.
pub open spec fn strong_alphabet() -> Seq<char> {
    "abcdefghijklmnopqrstuvwxyzABCDEFGHIJKLMNOPQRSTUVWXYZ0123456789!@#$%^&*()-_=+[]{};:,.?/<>~"@
}

/// The alphabet that a sized method draws from.
pub open spec fn alphabet_of(strong: bool) -> Seq<char> {
    if strong {
        strong_alphabet()
    } else {
        alnum_alphabet()
    }
}

/// Whether `s` begins with `p`.
pub open spec fn has_prefix(s: Seq<char>, p: Seq<char>) -> bool {
    p.len() <= s.len() && s.take(p.len() as int) == p
}

/// The length that the first piece of a sized method identifier asks for:
/// the decimal number after `len`, or 36 where there is none that fits.
pub open spec fn requested_len(head: Seq<char>) -> usize {
    if has_prefix(head, "len"@) {
        match parse_decimal(head.skip(3), usize::MAX as nat) {
            Some(n) => n as usize,
            None => 36,
        }
    } else {
        36
    }
}

/// The strategy that a method identifier selects. An identifier that begins
/// with `len` is cut at its underscores: the first piece gives the length,
/// and the second piece, where it is `strong`, selects the strong alphabet.
pub open spec fn method_of(id: Seq<char>) -> Method {
    if id == "legacy_v1"@ {
        Method::LegacyV1
    } else if id == "legacy_v2"@ {
        Method::LegacyV2
    } else if has_prefix(id, "len"@) {
        let parts = split(id, '_');
        Method::Sized {
            len: requested_len(parts[0]),
            strong: parts.len() > 1 && parts[1] == "strong"@,
        }
    } else {
        Method::Unknown
    }
}

/// The identifier of the method that serves unknown identifiers.
pub open spec fn default_method_id() -> Seq<char> {
    "len36_strong"@
}

/// The four bytes of `counter`, least significant first.
pub open spec fn counter_bytes(counter: u32) -> Seq<u8> {
    seq![
        (counter % 256) as u8,
        (counter / 256 % 256) as u8,
        (counter / 65536 % 256) as u8,
        (counter / 16777216) as u8,
    ]
}

/// The last 32 bytes of `stream`, or all of it where it is shorter.
pub open spec fn tail(stream: Seq<u8>) -> Seq<u8> {
    if stream.len() <= 32 {
        stream
    } else {
        stream.skip(stream.len() - 32)
    }
}

/// The block that extends `stream`: the digest of its tail and the counter.
pub open spec fn block_after(stream: Seq<u8>, counter: u32) -> Seq<u8> {
    sha256_of(tail(stream) + counter_bytes(counter))
}

/// The counter of the `k`-th block of one extension, which starts at 1 and
/// wraps around.
pub open spec fn counter_at(k: nat) -> u32 {
    (k % 0x1_0000_0000) as u32
}

/// `seed` extended by `k` blocks.
pub open spec fn grown(seed: Seq<u8>, k: nat) -> Seq<u8>
    decreases k,
{
    if k == 0 {
        seed
    } else {
        let before = grown(seed, (k - 1) as nat);
        before + block_after(before, counter_at(k))
    }
}

/// The number of 32-byte blocks that bring `have` bytes to at least `need`.
pub open spec fn blocks_needed(have: nat, need: nat) -> nat {
    if need <= have {
        0
    } else {
        ((need - have + 31) / 32) as nat
    }
}

/// `seed` extended block by block until it holds `need` bytes, and cut to
/// exactly `need`.
pub open spec fn extended(seed: Seq<u8>, need: nat) -> Seq<u8> {
    grown(seed, blocks_needed(seed.len(), need)).take(need as int)
}

/// The largest multiple of the alphabet size `m` that is at most 255: a
/// stream byte below it is accepted, any other is skipped.
pub open spec fn reject_limit(m: nat) -> nat {
    (255nat / m) * m
}

/// The characters sampled from `stream` from index `idx` on, until `want`
/// bytes have been accepted. An accepted byte `v` gives the character at
/// `v mod m` of the alphabet. A stream that runs out is extended by one
/// block; sampling ends early only where the stream can no longer grow
/// within `usize`.
pub open spec fn sample(stream: Seq<u8>, idx: nat, alphabet: Seq<char>, want: nat) -> Seq<char>
    decreases usize::MAX - idx,
{
    let full = if idx < stream.len() {
        stream
    } else {
        stream + block_after(stream, 1)
    };
    if want == 0 || idx >= usize::MAX || idx >= full.len() || (idx >= stream.len() && stream.len()
        + 32 > usize::MAX) {
        Seq::empty()
    } else if (full[idx as int] as nat) < reject_limit(alphabet.len()) {
        seq![alphabet[full[idx as int] as int % alphabet.len() as int]] + sample(
            full,
            idx + 1,
            alphabet,
            (want - 1) as nat,
        )
    } else {
        sample(full, idx + 1, alphabet, want)
    }
}

/// The bytes hashed into the seed of a sized method: secret, postfix and
/// method identifier in UTF-8, separated by `::`.
pub open spec fn seed_input(master: Seq<char>, postfix: Seq<char>, id: Seq<char>) -> Seq<u8> {
    encode_utf8(master) + seq![0x3Au8, 0x3Au8] + encode_utf8(postfix) + seq![0x3Au8, 0x3Au8]
        + encode_utf8(id)
}

/// The number of stream bytes prepared before sampling: twice the length,
/// held within `usize`.
pub open spec fn stream_need(len: nat) -> nat {
    if 2 * len <= usize::MAX {
        2 * len
    } else {
        usize::MAX as nat
    }
}

/// The credential of a sized method.
pub open spec fn sized_credential(
    master: Seq<char>,
    postfix: Seq<char>,
    id: Seq<char>,
    len: nat,
    strong: bool,
) -> Seq<char> {
    let seed = sha256_of(seed_input(master, postfix, id));
    sample(extended(seed, stream_need(len)), 0, alphabet_of(strong), len)
}

/// `s` without its trailing `=` characters.
pub open spec fn without_padding(s: Seq<char>) -> Seq<char>
    decreases s.len(),
{
    if s.len() > 0 && s.last() == '=' {
        without_padding(s.drop_last())
    } else {
        s
    }
}

/// The character that stands for `c` in the second legacy format.
pub open spec fn legacy_substitute(c: char) -> char {
    if c == '=' {
        '.'
    } else if c == '+' {
        '-'
    } else if c == '/' {
        '_'
    } else {
        c
    }
}

/// The credential that `method` derives. `id` is the identifier that goes
/// into the seed of a sized method; an unknown method is served as the
/// default identifier is: 36 characters of the strong alphabet.
pub open spec fn credential_by(
    method: Method,
    master: Seq<char>,
    postfix: Seq<char>,
    id: Seq<char>,
) -> Seq<char> {
    match method {
        Method::LegacyV1 => without_padding(
            base64_padded(md5_of(encode_utf8(master) + encode_utf8(postfix))),
        ),
        Method::LegacyV2 => base64_padded(
            sha256_of(encode_utf8(master) + encode_utf8(postfix)),
        ).map_values(|c: char| legacy_substitute(c)),
        Method::Sized { len, strong } => sized_credential(master, postfix, id, len as nat, strong),
        Method::Unknown => sized_credential(master, postfix, default_method_id(), 36, true),
    }
}

/// The credential for a master secret, a postfix and a method identifier.
pub open spec fn credential(master: Seq<char>, postfix: Seq<char>, id: Seq<char>) -> Seq<char> {
    credential_by(method_of(id), master, postfix, id)
}

/// Whether `s` begins with `p`.
fn starts_with(s: &Vec<char>, p: &Vec<char>) -> (r: bool)
    ensures
        r == has_prefix(s@, p@),
{
    if p.len() > s.len() {
        return false;
    }
    let mut i: usize = 0;
    while i < p.len()
        invariant
            i <= p.len() <= s.len(),
            s@.take(i as int) == p@.take(i as int),
        decreases p.len() - i,
    {
        if s[i] != p[i] {
            assert(s@.take(p.len() as int)[i as int] != p@[i as int]);
            return false;
        }
        i += 1;
        assert(s@.take(i as int) == s@.take(i - 1).push(s@[i - 1]));
        assert(p@.take(i as int) == p@.take(i - 1).push(p@[i - 1]));
    }
    assert(p@.take(p.len() as int) == p@);
    true
}

/// The length that the first piece of a sized method identifier asks for.
fn requested_len_of(head: &Vec<char>) -> (len: usize)
    ensures
        len == requested_len(head@),
{
    let prefix = to_chars("len");
    if !starts_with(head, &prefix) {
        return 36;
    }
    proof {
        reveal_strlit("len");
    }
    let mut digits: Vec<char> = Vec::new();
    let mut i: usize = 3;
    while i < head.len()
        invariant
            3 <= i <= head.len(),
            digits@ == head@.subrange(3, i as int),
        decreases head.len() - i,
    {
        digits.push(head[i]);
        i += 1;
    }
    assert(digits@ == head@.skip(3));
    match parse_decimal_bounded(&digits, usize::MAX as u64) {
        Some(n) => n as usize,
        None => 36,
    }
}

/// Reads a method identifier.
pub fn parse_method(method_id: &str) -> (method: Method)
    ensures
        method == method_of(method_id@),
{
    let id = to_chars(method_id);
    let v1 = to_chars("legacy_v1");
    let v2 = to_chars("legacy_v2");
    let prefix = to_chars("len");
    if same_chars(&id, &v1) {
        Method::LegacyV1
    } else if same_chars(&id, &v2) {
        Method::LegacyV2
    } else if starts_with(&id, &prefix) {
        let parts = split_chars(&id, '_');
        let strong_word = to_chars("strong");
        assert(views(parts@).len() == parts@.len());
        assert(parts@.len() >= 1);
        assert(views(parts@)[0] == parts@[0]@);
        let len = requested_len_of(&parts[0]);
        let strong = if parts.len() > 1 {
            assert(views(parts@)[1] == parts@[1]@);
            same_chars(&parts[1], &strong_word)
        } else {
            false
        };
        Method::Sized { len, strong }
    } else {
        Method::Unknown
    }
}

/// Appends the bytes of `more` to `bytes`.
fn append_bytes(bytes: &mut Vec<u8>, more: &[u8])
    ensures
        final(bytes)@ == old(bytes)@ + more@,
{
    let mut i: usize = 0;
    while i < more.len()
        invariant
            i <= more.len(),
            bytes@ == old(bytes)@ + more@.take(i as int),
        decreases more.len() - i,
    {
        bytes.push(more[i]);
        i += 1;
        assert(more@.take(i as int) == more@.take(i - 1).push(more@[i - 1]));
    }
    assert(more@.take(more.len() as int) == more@);
}

/// The block that extends `stream` under `counter`.
fn next_block(stream: &Vec<u8>, counter: u32) -> (block: Vec<u8>)
    ensures
        block@ == block_after(stream@, counter),
        block@.len() == 32,
{
    let start: usize = if stream.len() > 32 {
        stream.len() - 32
    } else {
        0
    };
    let mut input: Vec<u8> = Vec::new();
    let mut i: usize = start;
    while i < stream.len()
        invariant
            start <= i <= stream.len(),
            input@ == stream@.subrange(start as int, i as int),
        decreases stream.len() - i,
    {
        input.push(stream[i]);
        i += 1;
    }
    assert(input@ == tail(stream@));
    input.push((counter % 256) as u8);
    input.push((counter / 256 % 256) as u8);
    input.push((counter / 65536 % 256) as u8);
    input.push((counter / 16777216) as u8);
    assert(input@ == tail(stream@) + counter_bytes(counter));
    sha256(input.as_slice())
}

/// The counter moves up by one from block to block and wraps to zero.
proof fn counter_at_successor(k: nat)
    ensures
        counter_at(k + 1) == if counter_at(k) == u32::MAX {
            0u32
        } else {
            (counter_at(k) + 1) as u32
        },
{
}

/// Extends `seed` block by block until it holds `need` bytes, then cuts it
/// to exactly `need`. Each block is 32 bytes long.
pub fn extend_stream(seed: Vec<u8>, need: usize) -> (out: Vec<u8>)
    ensures
        out@ == extended(seed@, need as nat),
        out@.len() == need,
        grown(seed@, blocks_needed(seed@.len(), need as nat)).len() == seed@.len() + 32
            * blocks_needed(seed@.len(), need as nat),
{
    let mut out = seed;
    let mut counter: u32 = 1;
    let ghost mut k: nat = 0;
    while out.len() < need
        invariant
            out@ == grown(seed@, k),
            out@.len() == seed@.len() + 32 * k,
            counter == counter_at(k + 1),
            k == 0 || seed@.len() + 32 * (k - 1) < need,
        decreases
                if out@.len() < need {
                    need - out@.len()
                } else {
                    0
                },
    {
        let mut block = next_block(&out, counter);
        out.append(&mut block);
        proof {
            k = k + 1;
            counter_at_successor(k);
        }
        counter = if counter == u32::MAX {
            0
        } else {
            counter + 1
        };
    }
    assert(k == blocks_needed(seed@.len(), need as nat));
    out.truncate(need);
    out
}

/// Draws `size` characters of `alphabet` from `stream` by rejection
/// sampling, extending the stream by one block whenever it runs out.
pub fn map_to_alphabet(stream: Vec<u8>, alphabet: &[char], size: usize) -> (out: String)
    requires
        0 < alphabet@.len(),
    ensures
        out@ == sample(stream@, 0, alphabet@, size as nat),
        out@.len() == size || sample_end(stream@, 0, alphabet@, size as nat) + 32 > usize::MAX,
{
    let mut buffer = stream;
    let mut picked: Vec<char> = Vec::new();
    let m: usize = alphabet.len();
    assert((255int / (m as int)) * (m as int) <= 255) by (nonlinear_arith)
        requires
            m > 0,
    ;
    let limit: usize = (255 / m) * m;
    let mut idx: usize = 0;
    while picked.len() < size
        invariant
            idx <= buffer.len(),
            picked.len() <= size,
            m == alphabet@.len(),
            0 < m,
            limit == reject_limit(m as nat),
            sample(stream@, 0, alphabet@, size as nat) == picked@ + sample(
                buffer@,
                idx as nat,
                alphabet@,
                (size - picked.len()) as nat,
            ),
            sample_end(stream@, 0, alphabet@, size as nat) == sample_end(
                buffer@,
                idx as nat,
                alphabet@,
                (size - picked.len()) as nat,
            ),
        decreases usize::MAX - idx,
    {
        if idx >= buffer.len() {
            if buffer.len() > usize::MAX - 32 {
                assert(sample(buffer@, idx as nat, alphabet@, (size - picked.len()) as nat)
                    == Seq::<char>::empty());
                assert(picked@ + Seq::<char>::empty() == picked@);
                assert(sample_end(buffer@, idx as nat, alphabet@, (size - picked.len()) as nat)
                    == idx);
                return from_chars(&picked);
            }
            let ghost before = buffer@;
            let grow_to = buffer.len() + 32;
            buffer = extend_stream(buffer, grow_to);
            proof {
                assert(blocks_needed(before.len(), grow_to as nat) == 1);
                assert(grown(before, 0) == before);
                assert(grown(before, 1) == before + block_after(before, counter_at(1)));
                assert(counter_at(1) == 1u32);
                assert(buffer@ == before + block_after(before, 1));
            }
        }
        let v: usize = buffer[idx] as usize;
        idx += 1;
        if v < limit {
            picked.push(alphabet[v % m]);
        }
    }
    from_chars(&picked)
}

/// The padded base64 text of `data` without its trailing `=` characters.
fn b64_no_pad(data: &[u8]) -> (out: String)
    requires
        crate::primitives::base64_encodable(data@.len()),
    ensures
        out@ == without_padding(base64_padded(data@)),
{
    let text = base64_encode_padded(data);
    let chars = to_chars(text.as_str());
    let mut end: usize = chars.len();
    assert(chars@.take(end as int) == chars@);
    while end > 0 && chars[end - 1] == '='
        invariant
            end <= chars.len(),
            without_padding(chars@) == without_padding(chars@.take(end as int)),
        decreases end,
    {
        assert(chars@.take(end as int).drop_last() == chars@.take(end - 1));
        end -= 1;
    }
    let mut kept: Vec<char> = Vec::new();
    let mut i: usize = 0;
    while i < end
        invariant
            i <= end <= chars.len(),
            kept@ == chars@.take(i as int),
        decreases end - i,
    {
        kept.push(chars[i]);
        i += 1;
        assert(chars@.take(i as int) == chars@.take(i - 1).push(chars@[i - 1]));
    }
    from_chars(&kept)
}

/// `text` with `=`, `+` and `/` replaced by `.`, `-` and `_`.
fn substitute_legacy(text: &str) -> (out: String)
    ensures
        out@ == text@.map_values(|c: char| legacy_substitute(c)),
{
    let chars = to_chars(text);
    let mut mapped: Vec<char> = Vec::new();
    let mut i: usize = 0;
    while i < chars.len()
        invariant
            i <= chars.len(),
            mapped@ == chars@.take(i as int).map_values(|c: char| legacy_substitute(c)),
        decreases chars.len() - i,
    {
        let c = chars[i];
        let d = if c == '=' {
            '.'
        } else if c == '+' {
            '-'
        } else if c == '/' {
            '_'
        } else {
            c
        };
        mapped.push(d);
        i += 1;
        assert(chars@.take(i as int) == chars@.take(i - 1).push(c));
        assert(chars@.take(i as int).map_values(|c: char| legacy_substitute(c)) == chars@.take(
            i - 1,
        ).map_values(|c: char| legacy_substitute(c)).push(d));
    }
    assert(chars@.take(chars.len() as int) == chars@);
    from_chars(&mapped)
}

/// The characters of the alphabet that a sized method draws from.
fn alphabet_chars(strong: bool) -> (alphabet: Vec<char>)
    ensures
        alphabet@ == alphabet_of(strong),
        alphabet@.len() > 0,
{
    proof {
        reveal_strlit("abcdefghijklmnopqrstuvwxyzABCDEFGHIJKLMNOPQRSTUVWXYZ0123456789");
        reveal_strlit(
            "abcdefghijklmnopqrstuvwxyzABCDEFGHIJKLMNOPQRSTUVWXYZ0123456789!@#$%^&*()-_=+[]{};:,.?/<>~",
        );
    }
    if strong {
        to_chars(
            "abcdefghijklmnopqrstuvwxyzABCDEFGHIJKLMNOPQRSTUVWXYZ0123456789!@#$%^&*()-_=+[]{};:,.?/<>~",
        )
    } else {
        to_chars("abcdefghijklmnopqrstuvwxyzABCDEFGHIJKLMNOPQRSTUVWXYZ0123456789")
    }
}

/// Derives the credential of a sized method.
fn generate_sized(master: &str, postfix: &str, id: &str, len: usize, strong: bool) -> (out: String)
    ensures
        out@ == sized_credential(master@, postfix@, id@, len as nat, strong),
        out@.len() == len || sized_sampling_end(master@, postfix@, id@, len as nat, strong) + 32
            > usize::MAX,
{
    let alphabet = alphabet_chars(strong);
    let mut input: Vec<u8> = Vec::new();
    append_bytes(&mut input, master.as_bytes());
    input.push(0x3A);
    input.push(0x3A);
    append_bytes(&mut input, postfix.as_bytes());
    input.push(0x3A);
    input.push(0x3A);
    append_bytes(&mut input, id.as_bytes());
    assert(input@ == seed_input(master@, postfix@, id@));
    let seed = sha256(input.as_slice());
    let need: usize = if len <= usize::MAX / 2 {
        len * 2
    } else {
        usize::MAX
    };
    let stream = extend_stream(seed, need);
    map_to_alphabet(stream, alphabet.as_slice(), len)
}

/// Derives the credential for a master secret, a postfix and a method
/// identifier. The result depends on the characters of the three arguments
/// and on nothing else. A sized method, and with it every unknown
/// identifier, gives characters of its alphabet only, and exactly as many as
/// it asks for, unless sampling has read its stream to within 32 bytes of
/// the largest index there is.
pub fn generate(master: &str, postfix: &str, method_id: &str) -> (out: String)
    ensures
        out@ == credential(master@, postfix@, method_id@),
        match sizing_of(method_of(method_id@)) {
            Some((len, strong)) => {
                &&& out@.len() <= len
                &&& forall|i: int| 0 <= i < out@.len() ==> alphabet_of(strong).contains(out@[i])
                &&& out@.len() == len || sized_sampling_end(
                    master@,
                    postfix@,
                    seed_id_of(method_id@),
                    len,
                    strong,
                ) + 32 > usize::MAX
            },
            None => true,
        },
{
    proof {
        match method_of(method_id@) {
            Method::Sized { len, strong } => {
                sized_credential_shape(master@, postfix@, method_id@, len as nat, strong);
            },
            Method::Unknown => {
                sized_credential_shape(master@, postfix@, default_method_id(), 36, true);
            },
            _ => {},
        }
    }
    match parse_method(method_id) {
        Method::LegacyV1 => {
            let mut input: Vec<u8> = Vec::new();
            append_bytes(&mut input, master.as_bytes());
            append_bytes(&mut input, postfix.as_bytes());
            let digest = md5(input.as_slice());
            b64_no_pad(digest.as_slice())
        },
        Method::LegacyV2 => {
            let mut input: Vec<u8> = Vec::new();
            append_bytes(&mut input, master.as_bytes());
            append_bytes(&mut input, postfix.as_bytes());
            let digest = sha256(input.as_slice());
            let text = base64_encode_padded(digest.as_slice());
            substitute_legacy(text.as_str())
        },
        Method::Sized { len, strong } => generate_sized(master, postfix, method_id, len, strong),
        Method::Unknown => generate_sized(master, postfix, "len36_strong", 36, true),
    }
}

/// Sampling never gives more characters than asked for, and every character
/// it gives is one of the alphabet.
pub proof fn sample_stays_in_alphabet(stream: Seq<u8>, idx: nat, alphabet: Seq<char>, want: nat)
    requires
        alphabet.len() > 0,
    ensures
        sample(stream, idx, alphabet, want).len() <= want,
        forall|i: int|
            0 <= i < sample(stream, idx, alphabet, want).len() ==> alphabet.contains(
                #[trigger] sample(stream, idx, alphabet, want)[i],
            ),
    decreases usize::MAX - idx,
{
    let full = if idx < stream.len() {
        stream
    } else {
        stream + block_after(stream, 1)
    };
    if want == 0 || idx >= usize::MAX || idx >= full.len() || (idx >= stream.len() && stream.len()
        + 32 > usize::MAX) {
    } else if (full[idx as int] as nat) < reject_limit(alphabet.len()) {
        sample_stays_in_alphabet(full, idx + 1, alphabet, (want - 1) as nat);
        let pick = full[idx as int] as int % alphabet.len() as int;
        assert(alphabet.contains(alphabet[pick]));
    } else {
        sample_stays_in_alphabet(full, idx + 1, alphabet, want);
    }
}

/// The default identifier selects 36 characters of the strong alphabet.
pub proof fn default_method_is_sized()
    ensures
        method_of(default_method_id()) == (Method::Sized { len: 36, strong: true }),
{
    reveal_strlit("len36_strong");
    reveal_strlit("legacy_v1");
    reveal_strlit("legacy_v2");
    reveal_strlit("len");
    reveal_strlit("strong");
    let id = default_method_id();
    assert(id.len() == 12);
    assert(id != "legacy_v1"@);
    assert(id != "legacy_v2"@);
    assert(id.take(3) == "len"@);
    crate::text::first_position_is(id, '_', 5);
    let rest = id.skip(6);
    assert(rest == "strong"@);
    crate::text::first_position_is(rest, '_', 6);
    assert(split(rest, '_') == seq![rest]);
    let parts = split(id, '_');
    assert(parts == seq![id.take(5)] + seq![rest]);
    assert(parts[0] == id.take(5));
    assert(parts[1] == rest);
    let head = id.take(5);
    assert(head.take(3) == "len"@);
    let digits = head.skip(3);
    assert(digits == seq!['3', '6']);
    assert(crate::text::unsigned_body(digits) == digits);
    assert(digits.drop_last() == seq!['3']);
    assert(seq!['3'].drop_last() == Seq::<char>::empty());
    reveal_with_fuel(crate::text::digits_value, 3);
    assert(crate::text::digits_value(digits) == 36);
    assert(requested_len(head) == 36);
}

/// An identifier that names no method gives the credential that the default
/// identifier gives.
pub proof fn unknown_method_falls_back(master: Seq<char>, postfix: Seq<char>, id: Seq<char>)
    requires
        method_of(id) is Unknown,
    ensures
        credential(master, postfix, id) == credential(master, postfix, default_method_id()),
{
    default_method_is_sized();
}

/// The credential of a sized method has at most the length asked for, and
/// only characters of its alphabet.
pub proof fn sized_credential_shape(
    master: Seq<char>,
    postfix: Seq<char>,
    id: Seq<char>,
    len: nat,
    strong: bool,
)
    ensures
        sized_credential(master, postfix, id, len, strong).len() <= len,
        forall|i: int|
            0 <= i < sized_credential(master, postfix, id, len, strong).len() ==> alphabet_of(
                strong,
            ).contains(#[trigger] sized_credential(master, postfix, id, len, strong)[i]),
{
    reveal_strlit("abcdefghijklmnopqrstuvwxyzABCDEFGHIJKLMNOPQRSTUVWXYZ0123456789");
    reveal_strlit(
        "abcdefghijklmnopqrstuvwxyzABCDEFGHIJKLMNOPQRSTUVWXYZ0123456789!@#$%^&*()-_=+[]{};:,.?/<>~",
    );
    let seed = sha256_of(seed_input(master, postfix, id));
    sample_stays_in_alphabet(extended(seed, stream_need(len)), 0, alphabet_of(strong), len);
}

/// The default method, and with it every unknown identifier, gives at most
/// 36 characters, each one of the strong alphabet.
pub proof fn default_credential_shape(master: Seq<char>, postfix: Seq<char>, id: Seq<char>)
    requires
        id == default_method_id() || method_of(id) is Unknown,
    ensures
        credential(master, postfix, id).len() <= 36,
        forall|i: int|
            0 <= i < credential(master, postfix, id).len() ==> strong_alphabet().contains(
                #[trigger] credential(master, postfix, id)[i],
            ),
{
    default_method_is_sized();
    sized_credential_shape(master, postfix, default_method_id(), 36, true);
    if !(method_of(id) is Unknown) {
        sized_credential_shape(master, postfix, id, 36, true);
    }
}

/// Derivation is a function of the characters of its three inputs: equal
/// inputs give equal credentials.
pub proof fn credential_is_deterministic(
    master: Seq<char>,
    postfix: Seq<char>,
    id: Seq<char>,
    master2: Seq<char>,
    postfix2: Seq<char>,
    id2: Seq<char>,
)
    requires
        master == master2,
        postfix == postfix2,
        id == id2,
    ensures
        credential(master, postfix, id) == credential(master2, postfix2, id2),
{
}

/// The index at which sampling stops reading the stream.
pub open spec fn sample_end(stream: Seq<u8>, idx: nat, alphabet: Seq<char>, want: nat) -> nat
    decreases usize::MAX - idx,
{
    let full = if idx < stream.len() {
        stream
    } else {
        stream + block_after(stream, 1)
    };
    if want == 0 || idx >= usize::MAX || idx >= full.len() || (idx >= stream.len() && stream.len()
        + 32 > usize::MAX) {
        idx
    } else if (full[idx as int] as nat) < reject_limit(alphabet.len()) {
        sample_end(full, idx + 1, alphabet, (want - 1) as nat)
    } else {
        sample_end(full, idx + 1, alphabet, want)
    }
}

/// The index at which the sampling of a sized method stops reading.
pub open spec fn sized_sampling_end(
    master: Seq<char>,
    postfix: Seq<char>,
    id: Seq<char>,
    len: nat,
    strong: bool,
) -> nat {
    let seed = sha256_of(seed_input(master, postfix, id));
    sample_end(extended(seed, stream_need(len)), 0, alphabet_of(strong), len)
}

/// The length that `method` asks for, and whether it draws from the strong
/// alphabet; `None` for the legacy methods, which have no length of their
/// own.
pub open spec fn sizing_of(method: Method) -> Option<(nat, bool)> {
    match method {
        Method::Sized { len, strong } => Some((len as nat, strong)),
        Method::Unknown => Some((36, true)),
        _ => None,
    }
}

/// The identifier that goes into the seed for `id`: the default identifier
/// where `id` names no method.
pub open spec fn seed_id_of(id: Seq<char>) -> Seq<char> {
    if method_of(id) is Unknown {
        default_method_id()
    } else {
        id
    }
}

} // verus!
