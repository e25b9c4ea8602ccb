use base64::engine::general_purpose::STANDARD;
use base64::Engine;
use saforia::gen::{extend_stream, generate, map_to_alphabet, parse_method, Method};
use sha2::{Digest, Sha256};

const ALNUM: &str = "abcdefghijklmnopqrstuvwxyzABCDEFGHIJKLMNOPQRSTUVWXYZ0123456789";
const STRONG: &str =
    "abcdefghijklmnopqrstuvwxyzABCDEFGHIJKLMNOPQRSTUVWXYZ0123456789!@#$%^&*()-_=+[]{};:,.?/<>~";

#[test]
fn legacy_parity_examples() {
    let master = "test";
    let postfix = "example";

    let mut md5_ctx = md5::Context::new();
    md5_ctx.consume(master.as_bytes());
    md5_ctx.consume(postfix.as_bytes());
    let d = md5_ctx.compute();
    let v1 = STANDARD.encode(d.0).trim_end_matches('=').to_string();
    assert_eq!(v1, "4iV4/wEwuRpiIMU8wq4w1Q");

    let mut h = Sha256::new();
    h.update(master.as_bytes());
    h.update(postfix.as_bytes());
    let digest = h.finalize();
    let v2 = STANDARD
        .encode(digest)
        .replace('=', ".")
        .replace('+', "-")
        .replace('/', "_");
    assert_eq!(v2, "zPDy_Q9fcmjfyqASE-dmT74bRTokBz_MHoqZdX5owbk.");

    assert_eq!(generate(master, postfix, "legacy_v1"), v1);
    assert_eq!(generate(master, postfix, "legacy_v2"), v2);
}

#[test]
fn legacy_vectors_are_fixed() {
    assert_eq!(generate("test", "example", "legacy_v1"), "4iV4/wEwuRpiIMU8wq4w1Q");
    assert_eq!(
        generate("test", "example", "legacy_v2"),
        "zPDy_Q9fcmjfyqASE-dmT74bRTokBz_MHoqZdX5owbk."
    );
}

#[test]
fn generate_is_deterministic() {
    for method in ["legacy_v1", "legacy_v2", "len36_strong", "len12", "whatever"] {
        let a = generate("master secret", "site.example", method);
        let b = generate("master secret", "site.example", method);
        assert_eq!(a, b);
    }
}

#[test]
fn default_method_gives_36_strong_characters() {
    for postfix in ["a", "b", "example.org", "", "\u{00e9}t\u{00e9}"] {
        let out = generate("correct horse", postfix, "len36_strong");
        assert_eq!(out.chars().count(), 36);
        assert!(out.chars().all(|c| STRONG.contains(c)));
    }
}

#[test]
fn unknown_method_falls_back_to_default() {
    let expected = generate("m", "p", "len36_strong");
    assert_eq!(generate("m", "p", "no_such_method"), expected);
    assert_eq!(generate("m", "p", ""), expected);
    assert_eq!(generate("m", "p", "LEN36_strong"), expected);
}

#[test]
fn method_id_is_part_of_the_seed() {
    let a = generate("m", "p", "len20");
    let b = generate("m", "p", "len20_alnum");
    assert_eq!(a.len(), 20);
    assert_eq!(b.len(), 20);
    assert_ne!(a, b);
    assert_ne!(generate("m", "p", "len36_strong"), generate("m", "p", "len36_strong_x"));
}

#[test]
fn zero_length_gives_empty_string() {
    assert_eq!(generate("m", "p", "len0"), "");
    assert_eq!(generate("m", "p", "len0_strong"), "");
}

#[test]
fn alnum_methods_use_letters_and_digits_only() {
    for n in [1usize, 2, 5, 16, 64, 200] {
        let out = generate("master", "postfix", &format!("len{}", n));
        assert_eq!(out.len(), n);
        assert!(out.chars().all(|c| ALNUM.contains(c)));
    }
}

#[test]
fn parse_method_reads_identifiers() {
    assert_eq!(parse_method("legacy_v1"), Method::LegacyV1);
    assert_eq!(parse_method("legacy_v2"), Method::LegacyV2);
    assert_eq!(parse_method("len36_strong"), Method::Sized { len: 36, strong: true });
    assert_eq!(parse_method("len12"), Method::Sized { len: 12, strong: false });
    assert_eq!(parse_method("len"), Method::Sized { len: 36, strong: false });
    assert_eq!(parse_method("len_strong"), Method::Sized { len: 36, strong: true });
    assert_eq!(parse_method("len+7_strong_more"), Method::Sized { len: 7, strong: true });
    assert_eq!(parse_method("len8_strongx"), Method::Sized { len: 8, strong: false });
    assert_eq!(parse_method("lengthy"), Method::Sized { len: 36, strong: false });
    assert_eq!(parse_method("len-3"), Method::Sized { len: 36, strong: false });
    assert_eq!(
        parse_method("len99999999999999999999999999"),
        Method::Sized { len: 36, strong: false }
    );
    assert_eq!(parse_method("legacy_v3"), Method::Unknown);
    assert_eq!(parse_method(""), Method::Unknown);
}

fn reference_extend(seed: Vec<u8>, need: usize) -> Vec<u8> {
    let mut out = seed;
    let mut counter: u32 = 1;
    while out.len() < need {
        let mut h = Sha256::new();
        h.update(&out[out.len().saturating_sub(32)..]);
        h.update(counter.to_le_bytes());
        out.extend_from_slice(&h.finalize());
        counter = counter.wrapping_add(1);
    }
    out.truncate(need);
    out
}

fn reference_sized(master: &str, postfix: &str, id: &str, len: usize, alphabet: &str) -> String {
    let alphabet = alphabet.as_bytes();
    let mut seed = Vec::new();
    seed.extend_from_slice(master.as_bytes());
    seed.extend_from_slice(b"::");
    seed.extend_from_slice(postfix.as_bytes());
    seed.extend_from_slice(b"::");
    seed.extend_from_slice(id.as_bytes());
    let digest = Sha256::digest(&seed).to_vec();
    let mut stream = reference_extend(digest, len * 2);
    let m = alphabet.len() as u32;
    let limit = (255 / m) * m;
    let mut out = String::new();
    let mut idx = 0;
    while out.len() < len {
        if idx >= stream.len() {
            let grow = stream.len() + 32;
            stream = reference_extend(stream, grow);
        }
        let v = u32::from(stream[idx]);
        idx += 1;
        if v < limit {
            out.push(alphabet[(v % m) as usize] as char);
        }
    }
    out
}

#[test]
fn sized_methods_follow_the_stream_construction() {
    for (id, len, alphabet) in [
        ("len36_strong", 36usize, STRONG),
        ("len1", 1, ALNUM),
        ("len1_strong", 1, STRONG),
        ("len2_strong", 2, STRONG),
        ("len3_strong", 3, STRONG),
        ("len17", 17, ALNUM),
        ("len100_strong", 100, STRONG),
    ] {
        for postfix in ["a", "b", "c", "d", "e", "f", "g", "h", "i", "j", "k", "l"] {
            assert_eq!(
                generate("master", postfix, id),
                reference_sized("master", postfix, id, len, alphabet)
            );
        }
    }
}

#[test]
fn extend_stream_grows_and_cuts() {
    let seed: Vec<u8> = (0u8..32).collect();
    assert_eq!(extend_stream(seed.clone(), 0), Vec::<u8>::new());
    assert_eq!(extend_stream(seed.clone(), 10), seed[..10].to_vec());
    assert_eq!(extend_stream(seed.clone(), 32), seed);
    let grown = extend_stream(seed.clone(), 70);
    assert_eq!(grown.len(), 70);
    assert_eq!(grown, reference_extend(seed.clone(), 70));
    let mut h = Sha256::new();
    h.update(&seed);
    h.update([1u8, 0, 0, 0]);
    assert_eq!(&grown[32..64], h.finalize().as_slice());
}

#[test]
fn map_to_alphabet_skips_rejected_bytes() {
    let alphabet: Vec<char> = "abc".chars().collect();
    // limit is 255: every byte below 255 is accepted
    let out = map_to_alphabet(vec![0, 1, 2, 255, 3, 4], &alphabet, 5);
    assert_eq!(out, "abcab");
    let ten: Vec<char> = "0123456789".chars().collect();
    // limit is 250: 250..=255 are skipped
    let out = map_to_alphabet(vec![250, 251, 19, 255, 7, 249, 100], &ten, 3);
    assert_eq!(out, "979");
}

#[test]
fn map_to_alphabet_extends_an_exhausted_stream() {
    let ten: Vec<char> = "0123456789".chars().collect();
    let stream = vec![255u8, 254, 253];
    let out = map_to_alphabet(stream.clone(), &ten, 4);
    let mut h = Sha256::new();
    h.update(&stream);
    h.update([1u8, 0, 0, 0]);
    let block = h.finalize();
    let expected: String = block
        .iter()
        .filter(|b| **b < 250)
        .take(4)
        .map(|b| ten[(*b % 10) as usize])
        .collect();
    assert_eq!(out.len(), 4);
    assert_eq!(out, expected);
}

#[test]
fn first_legacy_method_drops_padding() {
    for (master, postfix) in [("", ""), ("a", "b"), ("master", "example.org")] {
        let mut input = master.as_bytes().to_vec();
        input.extend_from_slice(postfix.as_bytes());
        let padded = STANDARD.encode(md5::compute(&input).0);
        assert!(padded.ends_with("=="));
        let out = generate(master, postfix, "legacy_v1");
        assert_eq!(out.len(), 22);
        assert_eq!(out, padded[..22]);
    }
}

#[test]
fn long_credentials_are_derived_in_full() {
    let out = generate("master", "postfix", "len5000_strong");
    assert_eq!(out.len(), 5000);
    assert_eq!(out, reference_sized("master", "postfix", "len5000_strong", 5000, STRONG));
    assert!(out.chars().all(|c| STRONG.contains(c)));
}

#[test]
fn strong_alphabet_has_every_character_once() {
    let mut seen = std::collections::BTreeSet::new();
    for c in STRONG.chars() {
        assert!(seen.insert(c));
    }
    assert_eq!(seen.len(), 89);
    assert_eq!(ALNUM.len(), 62);
    assert!(STRONG.starts_with(ALNUM));
}
