use brxon::bloom::{normalize_domain, BLOOM_M_BYTES};
use brxon::build_filter::{entry_of, filter_file, sign_filter};
use brxon::delta::{DeltaEngine, DeltaError};
use brxon::initial_filter::{load_embedded_filter, EmbeddedFilter};
use brxon::signing::{
    check_payload, public_key_of, signature_verdict, verify_delta, verify_payload, SignedDelta,
    SignedPayload, VerifyError, EMBEDDED_PUBLIC_KEY,
};
use brxon::startup::{initial_state, start};
use brxon::state::{BrxonState, FilterState, SecurityGuard};

const SECRET: [u8; 32] = [9; 32];

fn signed(bytes: &[u8], version: u64) -> SignedPayload {
    let (sha256, signature) = sign_filter(bytes, version, &SECRET);
    SignedPayload { payload_bytes: bytes.to_vec(), sha256, signature, version }
}

fn delta(bytes: &[u8], from_version: u64, to_version: u64) -> SignedDelta {
    SignedDelta { inner: signed(bytes, to_version), from_version, to_version }
}

fn engine(bits: &[u8], version: u64) -> DeltaEngine {
    let key = public_key_of(&SECRET);
    let mut state = BrxonState::new(key, "https://s".to_string(), bits.len(), 3);
    state.filter.current = bits.to_vec();
    state.filter.version = version;
    DeltaEngine::new(state)
}

#[test]
fn payloads_are_verified() {
    let key = public_key_of(&SECRET);
    let good = signed(b"payload", 3);
    assert!(verify_payload(&good, &key).is_ok());
    assert!(verify_delta(&delta(b"payload", 2, 3), &key).is_ok());
    assert_eq!(
        good.sha256,
        "239f59ed55e737c77147cf55ad0c1b030b6d7ee748a7426952f9b852d5a935e5"
    );
}

#[test]
fn an_empty_payload_is_refused() {
    let e = verify_payload(&signed(b"", 1), &public_key_of(&SECRET)).unwrap_err();
    assert!(matches!(e, VerifyError::EmptyPayload));
    assert_eq!(e.message(), "بيانات الـ payload فارغة");
}

#[test]
fn a_wrong_digest_is_refused() {
    let mut p = signed(b"payload", 1);
    p.payload_bytes[0] ^= 1;
    let e = verify_payload(&p, &public_key_of(&SECRET)).unwrap_err();
    let message = e.message();
    match e {
        VerifyError::HashMismatch { expected, received } => {
            assert_eq!(expected, p.sha256);
            assert_ne!(received, p.sha256);
            assert_eq!(message, format!("SHA256 لا يتطابق: متوقع={} مستقبَل={}", expected, received));
        }
        other => panic!("{:?}", other),
    }
    // The digest is written in lower case.
    let mut p = signed(b"payload", 1);
    p.sha256 = p.sha256.to_uppercase();
    let e = verify_payload(&p, &public_key_of(&SECRET)).unwrap_err();
    assert!(matches!(e, VerifyError::HashMismatch { .. }));
}

#[test]
fn an_unreadable_signature_is_refused() {
    let mut p = signed(b"payload", 1);
    p.signature = "abc".to_string();
    let e = verify_payload(&p, &public_key_of(&SECRET)).unwrap_err();
    assert!(matches!(e, VerifyError::BadSignature(_)));
    assert_eq!(e.message(), "توقيع Ed25519 غير صحيح: Odd number of digits");
    p.signature = "zz".to_string();
    let e = verify_payload(&p, &public_key_of(&SECRET)).unwrap_err();
    assert_eq!(e.message(), "توقيع Ed25519 غير صحيح: Invalid character 'z' at position 0");
}

#[test]
fn a_signature_of_the_wrong_size_is_refused() {
    let mut p = signed(b"payload", 1);
    p.signature = "00Ff".to_string();
    let e = verify_payload(&p, &public_key_of(&SECRET)).unwrap_err();
    assert!(matches!(e, VerifyError::BadSignatureSize(2)));
    assert_eq!(e.message(), "حجم التوقيع خاطئ: 2 بايت");
}

#[test]
fn a_foreign_signature_is_refused() {
    let key = public_key_of(&SECRET);
    let e = verify_payload(&signed(b"payload", 1), &public_key_of(&[1; 32])).unwrap_err();
    assert!(matches!(e, VerifyError::BadSignature(_)));
    assert!(e.message().starts_with("توقيع Ed25519 غير صحيح: "));
    // The signature covers the version too.
    let mut p = signed(b"payload", 1);
    p.version = 2;
    let e = verify_payload(&p, &key).unwrap_err();
    assert!(matches!(e, VerifyError::BadSignature(_)));
    // Upper case does no harm to a signature.
    let mut p = signed(b"payload", 1);
    p.signature = p.signature.to_uppercase();
    assert!(verify_payload(&p, &key).is_ok());
}

#[test]
fn the_message_is_digest_and_version() {
    let mut p = signed(b"payload", 0x0201);
    let digest = [0xab; 32];
    assert!(matches!(check_payload(&p, &digest), Err(VerifyError::HashMismatch { .. })));
    p.sha256 = "ab".repeat(32);
    let m = check_payload(&p, &digest).unwrap();
    let mut expected = vec![0xab; 32];
    expected.extend_from_slice(&[1, 2, 0, 0, 0, 0, 0, 0]);
    assert_eq!(m.message, expected);
    assert_eq!(hex::encode(m.signature), p.signature);

    assert!(signature_verdict(Ok(())).is_ok());
    let e = signature_verdict(Err("no".to_string())).unwrap_err();
    assert_eq!(e.message(), "توقيع Ed25519 غير صحيح: no");
}

#[test]
fn a_delta_is_exclusive_ored() {
    let mut f = FilterState::empty(3, 7);
    assert_eq!((f.version, f.k, f.m_bytes), (0, 7, 3));
    assert!(f.apply_delta(&[1, 2, 4], 5).is_ok());
    assert_eq!((&f.current[..], &f.previous[..], f.version), (&[1, 2, 4][..], &[0; 3][..], 5));
    // Applied twice, a delta leaves things as they were.
    assert!(f.apply_delta(&[0xff, 0, 1], 6).is_ok());
    assert_eq!(f.current, [0xfe, 2, 5]);
    assert!(f.apply_delta(&[0xff, 0, 1], 7).is_ok());
    assert_eq!(f.current, [1, 2, 4]);
    assert_eq!(f.previous, [0xfe, 2, 5]);
    // The difference of two filters leads from one to the other.
    let (from, to) = ([0b1100u8, 7, 0], [0b1010u8, 0, 9]);
    let difference: Vec<u8> = from.iter().zip(to.iter()).map(|(a, b)| a ^ b).collect();
    f.current = from.to_vec();
    assert!(f.apply_delta(&difference, 8).is_ok());
    assert_eq!(f.current, to);
}

#[test]
fn a_delta_of_the_wrong_size_changes_nothing() {
    let mut f = FilterState::empty(3, 7);
    assert_eq!(
        f.apply_delta(&[1, 2], 5),
        Err("حجم delta (2) لا يتطابق مع حجم الفلتر (3)".to_string())
    );
    assert_eq!((&f.current[..], f.version), (&[0; 3][..], 0));
}

#[test]
fn a_rollback_undoes_a_delta() {
    let mut f = FilterState::empty(2, 1);
    assert!(f.apply_delta(&[1, 2], 1).is_ok());
    assert!(f.apply_delta(&[4, 8], 2).is_ok());
    f.rollback();
    assert_eq!((&f.current[..], f.version), (&[1, 2][..], 1));
    // Two rollbacks cancel out, but for the version.
    f.rollback();
    assert_eq!((&f.current[..], &f.previous[..], f.version), (&[5, 10][..], &[1, 2][..], 0));
    f.rollback();
    assert_eq!(f.version, 0);
}

#[test]
fn a_signed_delta_is_applied() {
    let mut e = engine(&[1, 2, 3], 4);
    assert!(e.apply(&delta(&[1, 1, 1], 4, 9)).is_ok());
    let f = &e.state.filter;
    assert_eq!((&f.current[..], &f.previous[..], f.version), (&[0, 3, 2][..], &[1, 2, 3][..], 9));
    assert_eq!(e.state.guard, SecurityGuard::Active);
}

#[test]
fn a_delta_that_does_not_fit_rolls_back_and_freezes() {
    let before = || {
        let mut e = engine(&[1, 2, 3], 4);
        e.state.filter.previous = vec![7, 8, 9];
        e
    };
    let went_back = |e: &DeltaEngine, reason: &str| {
        let f = &e.state.filter;
        assert_eq!((&f.current[..], &f.previous[..]), (&[7, 8, 9][..], &[1, 2, 3][..]));
        assert_eq!(f.version, 3);
        assert_eq!(e.state.guard, SecurityGuard::Frozen { reason: reason.to_string() });
    };

    let mut e = before();
    let error = e.apply(&delta(&[1, 1, 1], 3, 5)).unwrap_err();
    assert!(matches!(error, DeltaError::VersionMismatch { expected: 4, received: 3 }));
    assert_eq!(error.message(), "تسلسل الإصدار خاطئ: متوقع from=4 مستقبَل=3");
    went_back(&e, "تسلسل الإصدار خاطئ: متوقع from=4 مستقبَل=3");

    let mut e = before();
    let error = e.apply(&delta(&[1, 1], 4, 5)).unwrap_err();
    assert!(matches!(error, DeltaError::BadDeltaSize(2)));
    assert_eq!(error.message(), "حجم delta خاطئ: 2 بايت");
    went_back(&e, "حجم delta خاطئ: 2 بايت");

    // The version is looked at before the size, and looking changes nothing.
    let mut e = before();
    let error = e.precheck(&delta(&[1, 1], 5, 6)).unwrap_err();
    assert!(matches!(error, DeltaError::VersionMismatch { .. }));
    assert!(e.state.guard.is_active());
    assert!(e.apply(&delta(&[1, 1], 5, 6)).is_err());

    // Frozen, a further delta does not roll back again.
    let error = e.apply(&delta(&[1, 1, 1], 9, 10)).unwrap_err();
    assert!(matches!(error, DeltaError::EngineFrozen { .. }));
    went_back(&e, "تسلسل الإصدار خاطئ: متوقع from=4 مستقبَل=5");
}

#[test]
fn a_forged_delta_rolls_back_and_freezes() {
    let mut e = engine(&[1, 2, 3], 4);
    assert!(e.apply(&delta(&[1, 1, 1], 4, 5)).is_ok());
    let mut forged = delta(&[9, 9, 9], 5, 6);
    forged.inner.payload_bytes[0] = 8;
    let error = e.apply(&forged).unwrap_err();
    assert!(matches!(error, DeltaError::VerificationFailed(VerifyError::HashMismatch { .. })));
    assert!(error.message().starts_with("التحقق فشل: SHA256 لا يتطابق: متوقع="));
    assert_eq!((&e.state.filter.current[..], e.state.filter.version), (&[1, 2, 3][..], 4));
    assert!(!e.state.is_ready());

    // Frozen, not even a good delta is taken.
    let error = e.apply(&delta(&[1, 1, 1], 4, 5)).unwrap_err();
    let message = error.message();
    match error {
        DeltaError::EngineFrozen { reason } => {
            assert!(reason.starts_with("فشل التحقق: SHA256 لا يتطابق: "));
            assert_eq!(message, format!("المحرك مجمّد بسبب: {}", reason));
            assert_eq!(e.state.guard, SecurityGuard::Frozen { reason });
        }
        other => panic!("{:?}", other),
    }
    assert_eq!(e.state.filter.version, 4);

    // A complete filter with a good signature thaws it, whatever its size.
    let full = signed(&[7, 7], 20);
    assert!(e.load_full_filter(full.payload_bytes, 20, 5, &full.sha256, &full.signature).is_ok());
    let f = &e.state.filter;
    assert_eq!((&f.current[..], &f.previous[..]), (&[7, 7][..], &[1, 2, 3][..]));
    assert_eq!((f.version, f.k, f.m_bytes), (20, 5, 3));
    assert!(e.state.is_ready());
}

#[test]
fn a_forged_filter_rolls_back_and_freezes() {
    let mut e = engine(&[1, 2], 4);
    e.state.filter.previous = vec![5, 6];
    let full = signed(&[7, 7], 20);
    let error =
        e.load_full_filter(full.payload_bytes, 21, 5, &full.sha256, &full.signature).unwrap_err();
    assert!(matches!(error, DeltaError::VerificationFailed(VerifyError::BadSignature(_))));
    assert_eq!((&e.state.filter.current[..], e.state.filter.version), (&[5, 6][..], 3));
    match &e.state.guard {
        SecurityGuard::Frozen { reason } => {
            assert!(reason.starts_with("فشل التحقق من الفلتر الكامل: توقيع Ed25519 غير صحيح: "))
        }
        SecurityGuard::Active => panic!("active"),
    }
}

#[test]
fn updates_leave_key_address_and_delta_size_alone() {
    let mut e = engine(&[1, 2], 4);
    let key = e.state.public_key;
    let mut forged = delta(&[3, 3], 5, 6);
    forged.inner.version = 7;
    let full = signed(&[7, 7, 7], 20);
    assert!(e.apply(&delta(&[3, 3], 4, 5)).is_ok());
    assert!(e.apply(&forged).is_err());
    assert!(e.load_full_filter(full.payload_bytes, 20, 5, &full.sha256, &full.signature).is_ok());
    assert_eq!(e.state.public_key, key);
    assert_eq!(e.state.server_base, "https://s");
    assert_eq!(e.state.filter.m_bytes, 2);
}

#[test]
fn verdicts_are_acted_upon() {
    let mut e = engine(&[1, 2], 4);
    let d = delta(&[3, 3], 4, 5);
    assert!(e.precheck(&d).is_ok());
    assert!(e.conclude(&d, Ok(())).is_ok());
    assert_eq!(e.state.filter.current, [2, 1]);
    assert!(e.conclude_full_filter(vec![8], 6, 2, Ok(())).is_ok());
    assert_eq!((&e.state.filter.current[..], e.state.filter.k), (&[8][..], 2));
    let error = e.conclude_full_filter(vec![9], 7, 2, Err(VerifyError::EmptyPayload)).unwrap_err();
    assert_eq!(error.message(), "التحقق فشل: بيانات الـ payload فارغة");
    assert_eq!(e.state.filter.current, [2, 1]);
}

#[test]
fn filter_files_are_checked() {
    let refused = |d: &[u8]| EmbeddedFilter::parse(d).unwrap_err();
    assert_eq!(refused(&[]), "initial_filter.bin أصغر من المتوقع");
    assert_eq!(refused(&[0; 115]), "initial_filter.bin أصغر من المتوقع");
    assert_eq!(refused(&[0; 116]), "حجم الفلتر 0 لا يتطابق مع BLOOM_M_BYTES 4792530");
    let file = |m: u64, len: usize| {
        let mut d = vec![0u8; len];
        d[12..20].copy_from_slice(&m.to_le_bytes());
        d
    };
    assert_eq!(refused(&file(4_792_530, 4_792_645)), "initial_filter.bin ناقص — متوقع 4792530 بايت");
    assert_eq!(refused(&file(1, 116)), "initial_filter.bin ناقص — متوقع 1 بايت");
    assert_eq!(
        refused(&file(u64::MAX, 116)),
        "حجم الفلتر 18446744073709551615 لا يتطابق مع BLOOM_M_BYTES 4792530"
    );
    // Bytes that follow the bits are ignored.
    let d = file(4_792_530, 4_792_650);
    assert_eq!(EmbeddedFilter::parse(&d).unwrap().bits.len(), BLOOM_M_BYTES);
}

#[test]
fn an_embedded_filter_replaces_both_versions() {
    let bits = vec![3u8; BLOOM_M_BYTES];
    let p = signed(&bits, 12);
    let sha = hex::decode(&p.sha256).unwrap();
    let signature = hex::decode(&p.signature).unwrap();
    let mut file = filter_file(12, 11, &sha, &signature, &bits);
    let key = public_key_of(&SECRET);
    let mut state = BrxonState::new(key, String::new(), 5, 1);
    assert_eq!(load_embedded_filter(&mut state, &file), Ok(()));
    assert_eq!((state.filter.version, state.filter.k, state.filter.m_bytes), (12, 11, 5));
    assert!(state.filter.current == bits && state.filter.previous == bits);

    file[116] ^= 1;
    let mut state = BrxonState::new(key, String::new(), 5, 1);
    let text = load_embedded_filter(&mut state, &file).unwrap_err();
    assert!(text.starts_with("فشل التحقق من الفلتر المضمّن: SHA256 لا يتطابق: "));
    assert_eq!((&state.filter.current[..], state.filter.version), (&[0; 5][..], 0));
}

#[test]
fn starting_needs_a_key_but_no_filter() {
    let (state, warning) = initial_state(&public_key_of(&SECRET), "https://s", &[]);
    assert!(!state.is_ready());
    assert_eq!(warning.unwrap(), "initial_filter.bin أصغر من المتوقع");
    assert_eq!(state.filter.current.len(), BLOOM_M_BYTES);
    assert_eq!((state.filter.m_bytes, state.filter.k), (BLOOM_M_BYTES, 13));
    assert_eq!(state.server_base, "https://s");

    // 2 is the ordinate of no point of the curve.
    let mut bad = [0u8; 32];
    bad[0] = 2;
    let text = start(&bad, "https://s", &[]).unwrap_err();
    assert!(text.starts_with("مفتاح عام غير صالح: "));
    assert!(text.len() > "مفتاح عام غير صالح: ".len());
    assert!(start(&EMBEDDED_PUBLIC_KEY, "https://s", &[]).is_ok());
}

#[test]
fn lists_and_requests_reduce_domains_alike() {
    for line in ["Example.COM", " shop.example.com. ", "https://www.example.com/x"] {
        assert_eq!(entry_of(line), Some(normalize_domain(line)));
        let twice = normalize_domain(&normalize_domain(line));
        assert_eq!(normalize_domain(line), twice);
    }
}
