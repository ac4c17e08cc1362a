use ed25519_dalek::{Signer, SigningKey};
use sha2::{Digest, Sha256};

use brxon::bloom::{hash_pair, BLOOM_K, BLOOM_M_BITS, BLOOM_M_BYTES};
use brxon::build_filter::{
    entry_of, filter_file, finish, is_blocked, load_list, message_to_sign, normalize, parse_args,
    sign_filter, BloomBuilder,
};
use brxon::delta::DeltaEngine;
use brxon::initial_filter::EmbeddedFilter;
use brxon::policy::{content_type, ContentPolicy, PolicyOutcome};
use brxon::signing::{public_key_of, verify_payload, SignedPayload};
use brxon::startup::start;

const SECRET: [u8; 32] = [7; 32];

fn strings(items: &[&str]) -> Vec<String> {
    items.iter().map(|s| s.to_string()).collect()
}

#[test]
fn added_domains_are_found() {
    let mut builder = BloomBuilder::new();
    assert_eq!(builder.bits().len(), BLOOM_M_BYTES);
    assert_eq!(builder.count_set_bits(), 0);
    assert!(!builder.contains("example.com"));
    builder.add("example.com");
    assert!(builder.contains("example.com"));
    assert!(!builder.contains("example.org"));
    assert!(builder.count_set_bits() <= 13);
    assert!(builder.count_set_bits() > 0);
    builder.add("example.org");
    assert!(builder.contains("example.com"));
    assert!(builder.contains("example.org"));
    assert!(is_blocked(&builder, "a.b.example.org"));
    assert!(!is_blocked(&builder, "example.net"));
}

#[test]
fn adding_sets_exactly_the_probed_bits() {
    let mut builder = BloomBuilder::new();
    builder.add("example.com");
    let (h1, h2) = hash_pair("example.com");
    let mut expected = vec![0u8; BLOOM_M_BYTES];
    for i in 0..BLOOM_K as u64 {
        let j = h1.wrapping_add(i.wrapping_mul(h2)) % BLOOM_M_BITS as u64;
        expected[(j / 8) as usize] |= 1 << (j % 8);
    }
    assert_eq!(builder.bits(), &expected[..]);

    let mut by_hash = BloomBuilder::new();
    by_hash.add_hashed(8, 1);
    assert_eq!(by_hash.bits()[0], 0);
    assert_eq!(by_hash.bits()[1], 0xff);
    assert_eq!(by_hash.bits()[2], 0b0001_1111);
    assert_eq!(by_hash.count_set_bits(), 13);
    assert!(by_hash.contains_hashed(8, 1));
    assert!(!by_hash.contains_hashed(9, 1));
}

#[test]
fn lines_add_domains_or_are_skipped() {
    assert_eq!(entry_of("Example.COM"), Some("example.com".to_string()));
    assert_eq!(entry_of("  *.example.com.  "), Some("example.com".to_string()));
    assert_eq!(entry_of("*.www.example.com"), Some("example.com".to_string()));
    assert_eq!(entry_of("xxx"), Some("xxx".to_string()));
    assert_eq!(entry_of("é"), Some("é".to_string()));
    assert_eq!(entry_of("x"), None);
    assert_eq!(entry_of(""), None);
    assert_eq!(entry_of("   "), None);
    assert_eq!(entry_of("# example.com"), None);
    assert_eq!(entry_of("/path"), None);
    assert_eq!(entry_of("*."), None);
    assert_eq!(normalize("https://www.Example.COM:80/x"), "example.com");
}

#[test]
fn lists_are_loaded_and_counted() {
    let mut builder = BloomBuilder::new();
    let lines = strings(&["# list", "", "pornhub.com", "*.xvideos.com", "sex", "x", "0-0.asia"]);
    assert_eq!(load_list(&lines, &mut builder), (4, 3));
    for d in ["pornhub.com", "xvideos.com", "sex", "0-0.asia"] {
        assert!(builder.contains(d), "{}", d);
    }
    for d in ["sub.pornhub.com", "video.xvideos.com"] {
        assert!(!builder.contains(d), "{}", d);
        assert!(is_blocked(&builder, d), "{}", d);
    }
    // A name without a dot does not stand for what is under it.
    assert!(!is_blocked(&builder, "education.sex"));
    for d in ["google.com", "github.com", "mozilla.org", "rust-lang.org"] {
        assert!(!builder.contains(d), "{}", d);
    }
    assert_eq!(load_list(&Vec::new(), &mut builder), (0, 0));
}

#[test]
fn signatures_are_those_of_ed25519() {
    let key = SigningKey::from_bytes(&SECRET);
    let bits = [1u8, 2, 3];
    let digest: [u8; 32] = Sha256::digest(bits).into();
    let mut message = digest.to_vec();
    message.extend_from_slice(&0x0102_0304_0506_0708u64.to_le_bytes());
    assert_eq!(message_to_sign(&digest, 0x0102_0304_0506_0708), message);
    let (sha, sig) = sign_filter(&bits, 0x0102_0304_0506_0708, &SECRET);
    assert_eq!(sha, hex::encode(digest));
    assert_eq!(sig, hex::encode(key.sign(&message).to_bytes()));
    assert_eq!(public_key_of(&SECRET), key.verifying_key().to_bytes());

    let payload = SignedPayload {
        payload_bytes: bits.to_vec(),
        sha256: sha,
        signature: sig,
        version: 0x0102_0304_0506_0708,
    };
    assert!(verify_payload(&payload, &public_key_of(&SECRET)).is_ok());
}

#[test]
fn files_are_laid_out_without_gaps() {
    let file = filter_file(0x0807_0605_0403_0201, 0x0c0b_0a09, &[0xaa; 2], &[0xbb; 3], &[0xcc; 4]);
    let mut expected = vec![1, 2, 3, 4, 5, 6, 7, 8, 9, 10, 11, 12, 4, 0, 0, 0, 0, 0, 0, 0];
    expected.extend_from_slice(&[0xaa, 0xaa, 0xbb, 0xbb, 0xbb, 0xcc, 0xcc, 0xcc, 0xcc]);
    assert_eq!(file, expected);
}

#[test]
fn a_built_file_is_taken_and_enforced() {
    let mut builder = BloomBuilder::new();
    let lines = strings(&["Tracker.Example", "*.ads.example.org"]);
    assert_eq!(load_list(&lines, &mut builder), (2, 0));
    let signed = finish(&builder, 1, &SECRET);
    assert_eq!(signed.file.len(), 116 + BLOOM_M_BYTES);

    let parsed = EmbeddedFilter::parse(&signed.file).unwrap();
    assert_eq!(parsed.version, 1);
    assert_eq!(parsed.k, 13);
    assert_eq!(parsed.m_bytes, BLOOM_M_BYTES);
    assert_eq!(hex::encode(parsed.sha256), signed.sha256_hex);
    assert_eq!(hex::encode(parsed.sig), signed.signature_hex);
    assert_eq!(parsed.bits, builder.bits());

    let (state, warning) = start(&public_key_of(&SECRET), "https://s", &signed.file).unwrap();
    assert_eq!(warning, None);
    assert!(state.is_ready());
    let policy = ContentPolicy::new(&state);
    let page = content_type::TYPE_DOCUMENT;
    assert_eq!(
        policy.should_load(page, "https://www.tracker.example/x"),
        PolicyOutcome::RejectWithBlockPage
    );
    assert_eq!(
        policy.should_load(content_type::TYPE_SCRIPT, "http://cdn.ADS.example.org:8080/a.js"),
        PolicyOutcome::RejectSilent
    );
    assert_eq!(policy.should_load(page, "https://example.org/"), PolicyOutcome::Accept);

    // A refused update takes the version back to 0, and the list stays in force.
    let mut engine = DeltaEngine::new(state);
    assert!(engine.load_full_filter(vec![1], 2, 13, "", "").is_err());
    assert_eq!(engine.state.filter.version, 0);
    assert_eq!(
        ContentPolicy::new(&engine.state).should_load(page, "https://www.tracker.example/x"),
        PolicyOutcome::RejectWithBlockPage
    );

    let (other, warning) = start(&public_key_of(&[8; 32]), "https://s", &signed.file).unwrap();
    assert!(!other.is_ready());
    assert!(warning.unwrap().starts_with("فشل التحقق من الفلتر المضمّن: توقيع Ed25519 غير صحيح: "));
}

#[test]
fn arguments_are_read() {
    let options = parse_args(&strings(&[
        "build_filter", "--nsfw", "n.txt", "stray", "--ads", "a.txt", "--tracking", "t", "--phishing",
        "p", "--list", "--output", "--output", "out.bin", "--ads",
    ]));
    let lists: Vec<(&str, &str)> =
        options.lists.iter().map(|l| (l.label.as_str(), l.path.as_str())).collect();
    assert_eq!(
        lists,
        [
            ("NSFW", "n.txt"),
            ("Ads", "a.txt"),
            ("Tracking", "t"),
            ("Phishing", "p"),
            ("Custom", "--output")
        ]
    );
    assert_eq!(options.output, "out.bin");

    let none = parse_args(&strings(&["build_filter"]));
    assert!(none.lists.is_empty());
    assert_eq!(none.output, "initial_filter.bin");
    assert!(parse_args(&Vec::new()).lists.is_empty());
}
