use brxon::bloom::hash_pair;
use brxon::delta::DeltaEngine;
use brxon::policy::{content_type, ContentPolicy, PolicyOutcome};
use brxon::state::{BrxonState, SecurityGuard};

fn is_navigation(content_type: u32) -> bool {
    let state = BrxonState::new([0; 32], String::new(), 1, 1);
    let policy = ContentPolicy::new(&state);
    let outcome = policy.determine_reject_type(content_type, "example.com");
    let navigation =
        matches!(content_type, content_type::TYPE_DOCUMENT | content_type::TYPE_SUBDOCUMENT);
    assert_eq!(outcome == PolicyOutcome::RejectWithBlockPage, navigation);
    assert_eq!(outcome == PolicyOutcome::RejectSilent, !navigation);
    navigation
}

#[test]
fn test_navigation_types_trigger_block_page() {
    assert!(is_navigation(content_type::TYPE_DOCUMENT));
    assert!(is_navigation(content_type::TYPE_SUBDOCUMENT));
}

#[test]
fn test_sub_resources_never_trigger_block_page() {
    let sub_resource_types = [
        content_type::TYPE_SCRIPT,
        content_type::TYPE_IMAGE,
        content_type::TYPE_STYLESHEET,
        content_type::TYPE_XMLHTTPREQUEST,
        content_type::TYPE_FETCH,
        content_type::TYPE_PING,
        content_type::TYPE_FONT,
        content_type::TYPE_MEDIA,
        content_type::TYPE_WEBSOCKET,
        content_type::TYPE_OTHER,
    ];
    for t in sub_resource_types {
        assert!(!is_navigation(t), "type={} لا يجب أن يُظهر صفحة الحجب", t);
    }
}

#[test]
fn test_policy_outcome_gecko_codes() {
    assert_eq!(PolicyOutcome::Accept.to_gecko_decision(), 1);
    assert_eq!(PolicyOutcome::RejectSilent.to_gecko_decision(), -1);
    assert_eq!(PolicyOutcome::RejectWithBlockPage.to_gecko_decision(), -2);
}

fn state_blocking(domain: &str) -> BrxonState {
    let mut state = BrxonState::new([0; 32], String::new(), 1000, 13);
    let (h1, h2) = hash_pair(domain);
    for i in 0..13u64 {
        let j = h1.wrapping_add(i.wrapping_mul(h2)) % 8000;
        state.filter.current[(j / 8) as usize] |= 1 << (j % 8);
    }
    state.filter.version = 1;
    state
}

#[test]
fn requests_to_blocked_domains_are_refused() {
    let state = state_blocking("blocked.example");
    let policy = ContentPolicy::new(&state);
    let page = content_type::TYPE_DOCUMENT;
    let frame = content_type::TYPE_SUBDOCUMENT;
    let image = content_type::TYPE_IMAGE;
    let uri = "https://www.BLOCKED.example:443/x";
    assert_eq!(policy.should_load(page, uri), PolicyOutcome::RejectWithBlockPage);
    assert_eq!(policy.should_load(frame, uri), PolicyOutcome::RejectWithBlockPage);
    assert_eq!(policy.should_load(image, uri), PolicyOutcome::RejectSilent);
    assert_eq!(
        policy.should_load_domain(page, "a.blocked.example"),
        PolicyOutcome::RejectWithBlockPage
    );
    assert_eq!(policy.should_load(page, "https://open.example/"), PolicyOutcome::Accept);
    assert_eq!(policy.should_load(page, "https:///"), PolicyOutcome::Accept);
    assert!(policy.is_domain_blocked("A.blocked.example/"));
    assert!(!policy.is_domain_blocked("open.example"));

    let answer = policy.decide(page, uri);
    assert_eq!((answer.decision, answer.show_block_page), (-2, true));
    let answer = policy.decide(image, uri);
    assert_eq!((answer.decision, answer.show_block_page), (-1, false));
    let answer = policy.decide(image, "open.example");
    assert_eq!((answer.decision, answer.show_block_page), (1, false));
}

#[test]
fn nothing_is_blocked_before_a_filter_is_loaded() {
    let mut state = state_blocking("blocked.example");
    state.filter.version = 0;
    assert!(!state.is_ready());
    let policy = ContentPolicy::new(&state);
    let page = content_type::TYPE_DOCUMENT;
    assert_eq!(policy.should_load(page, "blocked.example"), PolicyOutcome::Accept);
    assert_eq!(policy.should_load_domain(page, "blocked.example"), PolicyOutcome::Accept);
    assert!(!policy.is_domain_blocked("blocked.example"));
}

#[test]
fn a_frozen_engine_goes_on_blocking() {
    let mut state = state_blocking("blocked.example");
    state.guard = SecurityGuard::Frozen { reason: "r".to_string() };
    assert!(!state.is_ready());
    let policy = ContentPolicy::new(&state);
    let page = content_type::TYPE_DOCUMENT;
    assert_eq!(
        policy.should_load(page, "https://blocked.example/"),
        PolicyOutcome::RejectWithBlockPage
    );
    assert_eq!(
        policy.should_load(content_type::TYPE_IMAGE, "https://a.blocked.example/"),
        PolicyOutcome::RejectSilent
    );
    assert_eq!(policy.should_load(page, "https://open.example/"), PolicyOutcome::Accept);
    assert!(policy.is_domain_blocked("blocked.example"));
}

#[test]
fn a_forged_update_leaves_the_version_before_in_force() {
    let mut state = state_blocking("blocked.example");
    state.filter.previous = state.filter.current.clone();
    state.filter.current = vec![0; 1000];
    state.filter.version = 5;
    let mut engine = DeltaEngine::new(state);
    assert!(!ContentPolicy::new(&engine.state).is_domain_blocked("blocked.example"));
    assert!(engine.load_full_filter(vec![1], 6, 13, "", "").is_err());
    assert!(!engine.state.guard.is_active());
    assert_eq!(engine.state.filter.version, 4);
    assert!(ContentPolicy::new(&engine.state).is_domain_blocked("blocked.example"));
}

#[test]
fn a_refused_update_at_version_one_does_not_end_the_blocking() {
    // As after a start with an embedded filter: version 1, in both copies.
    let mut state = state_blocking("blocked.example");
    state.filter.previous = state.filter.current.clone();
    let mut engine = DeltaEngine::new(state);
    assert!(engine.load_full_filter(vec![1], 2, 13, "", "").is_err());
    assert_eq!(engine.state.filter.version, 0);
    let policy = ContentPolicy::new(&engine.state);
    let page = content_type::TYPE_DOCUMENT;
    assert_eq!(policy.should_load(page, "blocked.example"), PolicyOutcome::RejectWithBlockPage);
    assert_eq!(policy.should_load(page, "open.example"), PolicyOutcome::Accept);
    assert!(policy.is_domain_blocked("a.blocked.example"));
}

#[test]
fn a_refused_update_before_any_filter_blocks_nothing() {
    let mut engine = DeltaEngine::new(BrxonState::new([0; 32], String::new(), 1000, 13));
    assert!(engine.load_full_filter(vec![1], 2, 13, "", "").is_err());
    assert!(!engine.state.guard.is_active());
    let policy = ContentPolicy::new(&engine.state);
    let page = content_type::TYPE_DOCUMENT;
    assert_eq!(policy.should_load(page, "blocked.example"), PolicyOutcome::Accept);
    assert!(!policy.is_domain_blocked("blocked.example"));
}

#[test]
fn a_filter_without_bits_blocks_nothing() {
    let mut state = BrxonState::new([0; 32], String::new(), 0, 13);
    state.filter.version = 1;
    assert!(!ContentPolicy::new(&state).is_domain_blocked("any.example"));
    // One that tests no bits needs none.
    state.filter.k = 0;
    assert!(ContentPolicy::new(&state).is_domain_blocked("any.example"));
}

#[test]
fn a_filter_without_probes_blocks_every_named_domain() {
    let mut state = BrxonState::new([0; 32], String::new(), 10, 0);
    state.filter.version = 1;
    let policy = ContentPolicy::new(&state);
    assert_eq!(policy.should_load(content_type::TYPE_PING, "any.example"), PolicyOutcome::RejectSilent);
    assert_eq!(policy.should_load(content_type::TYPE_PING, ""), PolicyOutcome::Accept);
    assert!(policy.is_domain_blocked(""));
}
