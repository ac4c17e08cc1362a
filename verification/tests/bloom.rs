use std::io::Cursor;

use brxon::bloom::{
    hash_pair, host_of, lookup_names, normalize_domain, probe_index, BloomFilter, BLOOM_K,
    BLOOM_M_BITS, BLOOM_M_BYTES, FIRST_SEED, SECOND_SEED,
};
use brxon::text::{decimal_text, is_white_space, trim};

#[test]
fn test_normalize_domain() {
    assert_eq!(normalize_domain("https://www.Example.Com/path?q=1"), "example.com");
    assert_eq!(normalize_domain("http://ads.google.com"), "ads.google.com");
    assert_eq!(normalize_domain("tracker.evil.net:443/js"), "tracker.evil.net");
    assert_eq!(normalize_domain("https://doubleclick.net/ads"), "doubleclick.net");
    assert_eq!(normalize_domain("https://www.doubleclick.net/ads"), "doubleclick.net");
    assert_eq!(normalize_domain("https://DOUBLECLICK.NET/"), "doubleclick.net");
    assert_eq!(normalize_domain("https://site.com:8443/path"), "site.com");
}

#[test]
fn test_suffix_matching_logic() {
    let bits = vec![0u8; BLOOM_M_BYTES];
    let bf = BloomFilter::from_slice(&bits, BLOOM_K);
    assert!(!bf.contains_or_parent("sub.example.com"));
    assert!(!bf.contains_or_parent("google.com"));
}

#[test]
fn test_bloom_empty() {
    let bits = vec![0u8; BLOOM_M_BYTES];
    let bf = BloomFilter::from_slice(&bits, BLOOM_K);
    assert!(!bf.contains("google.com"));
    assert!(!bf.contains("pornhub.com"));
}

#[test]
fn white_space_is_that_of_unicode() {
    for c in '\0'..=char::MAX {
        assert_eq!(is_white_space(c), c.is_whitespace(), "{:?}", c);
    }
}

#[test]
fn trimming_twice_is_trimming_once() {
    for s in ["", " ", "a", " \t a b\u{3000}\n", "\u{2003}x"] {
        let chars: Vec<char> = s.chars().collect();
        let once = trim(&chars);
        assert_eq!(once, s.trim().chars().collect::<Vec<char>>());
        assert_eq!(trim(once), once);
    }
}

#[test]
fn numerals_are_decimal() {
    for n in [0u64, 1, 9, 10, 11, 99, 100, 4_792_530, u64::MAX] {
        assert_eq!(decimal_text(n), n.to_string());
    }
}

#[test]
fn hosts_are_cut_out_of_uris() {
    assert_eq!(host_of(" \t http://www.Shop.Example/a#b \n"), "Shop.Example");
    assert_eq!(host_of("example.com#top"), "example.com");
    assert_eq!(host_of("example.com?x=/y"), "example.com");
    assert_eq!(host_of("example.com:80a"), "example.com:80a");
    assert_eq!(host_of("example.com:"), "example.com");
    assert_eq!(host_of("example.com:1:2"), "example.com:1");
    assert_eq!(host_of("example.com...:443"), "example.com");
    assert_eq!(host_of("HTTPS://example.com"), "HTTPS");
    assert_eq!(host_of("www.www.example.com"), "www.example.com");
    assert_eq!(host_of("..."), "");
    assert_eq!(host_of(""), "");
}

#[test]
fn domains_are_lower_case_beyond_ascii() {
    assert_eq!(normalize_domain("https://BÜCHER.example/"), "bücher.example");
    // A capital sigma ends in its final form only at the end of a word.
    assert_eq!(normalize_domain("ΟΔΟΣ.gr"), "οδοσ.gr");
    assert_eq!(normalize_domain("ΟΔΟΣ"), "οδος");
    assert_eq!(normalize_domain("İ.example"), "i\u{307}.example");
}

#[test]
fn hashes_are_the_lower_halves_of_murmur3() {
    for name in ["", "a", "google.com", "bücher.example", "a-name-of-more-than-sixteen-bytes.org"] {
        let first = murmur3::murmur3_x64_128(&mut Cursor::new(name.as_bytes()), 0xDEAD_BEEF);
        let second = murmur3::murmur3_x64_128(&mut Cursor::new(name.as_bytes()), 0xC0DE_CAFE);
        assert_eq!(hash_pair(name), (first.unwrap() as u64, second.unwrap() as u64));
    }
    assert_ne!(hash_pair("google.com").0, hash_pair("google.com").1);
    assert_eq!(FIRST_SEED, 0xDEAD_BEEF);
    assert_eq!(SECOND_SEED, 0xC0DE_CAFE);
}

#[test]
fn probes_wrap_at_the_machine_word() {
    assert_eq!(probe_index(5, 7, 0, 100), 5);
    assert_eq!(probe_index(5, 7, 3, 100), 26);
    assert_eq!(probe_index(95, 7, 3, 100), 16);
    assert_eq!(probe_index(u64::MAX, 1, 1, 100), 0);
    assert_eq!(probe_index(0, u64::MAX, 2, 1000), (u64::MAX - 1) % 1000);
    assert_eq!(
        probe_index(u64::MAX, u64::MAX, 12, BLOOM_M_BITS as u64),
        u64::MAX.wrapping_add(12u64.wrapping_mul(u64::MAX)) % 38_340_240
    );
}

#[test]
fn lookups_by_hash_test_exactly_the_probed_bits() {
    // 16 bits; hashes 1 and 4 probe bits 1, 5 and 9.
    let full = [0b0010_0010u8, 0b0000_0010];
    assert!(BloomFilter::from_slice(&full, 3).contains_hashed(1, 4));
    assert!(!BloomFilter::from_slice(&full, 4).contains_hashed(1, 4));
    for broken in [[0b0010_0000u8, 0b10], [0b0000_0010, 0b10], [0b0010_0010, 0]] {
        assert!(!BloomFilter::from_slice(&broken, 3).contains_hashed(1, 4));
    }
    assert!(BloomFilter::from_slice(&[0u8; 2], 0).contains_hashed(1, 4));
    assert!(BloomFilter::from_slice(&[], 0).contains("anything"));
}

#[test]
fn bits_past_the_end_are_clear() {
    let bits = [0b1000_0001u8, 0b0000_0100];
    let filter = BloomFilter::from_slice(&bits, 1);
    let set: Vec<usize> = (0..100).filter(|&i| filter.get_bit(i)).collect();
    assert_eq!(set, [0, 7, 10]);
    assert!(!filter.get_bit(usize::MAX));
}

#[test]
fn names_to_look_up_leave_out_top_level_domains() {
    assert_eq!(lookup_names("a.b.example.com"), ["a.b.example.com", "b.example.com", "example.com"]);
    assert_eq!(lookup_names("example.com"), ["example.com"]);
    assert_eq!(lookup_names("com"), ["com"]);
    assert_eq!(lookup_names(""), [""]);
    assert_eq!(lookup_names("ä..b.c"), ["ä..b.c", ".b.c", "b.c"]);
}

#[test]
fn a_parent_in_the_filter_blocks_its_subdomains() {
    let mut bits = vec![0u8; 1000];
    let (h1, h2) = hash_pair("xvideos.com");
    for i in 0..13u64 {
        let j = h1.wrapping_add(i.wrapping_mul(h2)) % 8000;
        bits[(j / 8) as usize] |= 1 << (j % 8);
    }
    let filter = BloomFilter::from_slice(&bits, 13);
    assert!(filter.contains("xvideos.com"));
    assert!(!filter.contains("video.xvideos.com"));
    assert!(filter.contains_or_parent("xvideos.com"));
    assert!(filter.contains_or_parent("video.xvideos.com"));
    assert!(filter.contains_or_parent("a.b.xvideos.com"));
    assert!(!filter.contains_or_parent("notxvideos.com"));
    assert!(!filter.contains_or_parent("xvideos.com.example.org"));
}
