use ultnote::auth::{
    require_auth, AuthError, AuthState, JwkKey, JwksCache, JwtValidator, ValidationStep,
};
use ultnote::error::AppError;
use ultnote::memo::{
    default_limit, CreateMemoRequest, Memo, MemoId, MemoType, SearchFilters, UpdateMemoRequest,
};
use ultnote::payload::{
    memo_to_payload, payload_to_memo, DecodeError, ListItem, Payload, PayloadEntry, PayloadValue,
};
use ultnote::search::{
    build_filter, collect_search_results, display_score, Condition, PointKey, ScoredHit,
};
use ultnote::store::{
    collection_name, managed_collections, memo_from_point, memo_point, not_found, storage_text,
    search_text, update_vector,
};
use ultnote::tags::{build_tag_tree, compare_text, split_tag, TagScan, TagNode};
use ultnote::time::{CalendarDate, Timestamp};

const ID_TEXT: &str = "67e55044-10b1-426f-9247-bb680e5fe0c8";

fn date(s: &str) -> CalendarDate {
    CalendarDate::parse_iso(s).unwrap()
}

fn sample_memo() -> Memo {
    Memo {
        id: MemoId::parse(ID_TEXT).unwrap(),
        content: "buy milk".to_string(),
        memo_type: MemoType::Flash,
        from: Some(date("2024-03-01")),
        until: Some(date("2024-03-05")),
        tags: vec!["errand".to_string(), "home/kitchen".to_string()],
        date_added: Timestamp::new(1709251200, 500).unwrap(),
        access_count: 3,
        last_accessed: Timestamp::new(1709337599, 0).unwrap(),
        completed: false,
    }
}

fn entry(key: &str, value: PayloadValue) -> PayloadEntry {
    PayloadEntry { key: key.to_string(), value }
}

fn text(s: &str) -> PayloadValue {
    PayloadValue::Text(s.to_string())
}

fn minimal_payload() -> Vec<PayloadEntry> {
    vec![
        entry("content", text("note")),
        entry("type", text("permanent")),
        entry("tags", PayloadValue::List(vec![ListItem::Text("a".to_string())])),
        entry("date_added", text("2024-03-01T00:00:00+00:00")),
        entry("access_count", PayloadValue::Integer(0)),
        entry("last_accessed", text("2024-03-01T00:00:00Z")),
        entry("completed", PayloadValue::Bool(true)),
    ]
}

fn assert_same_memo(a: &Memo, b: &Memo) {
    assert_eq!(a.id, b.id);
    assert_eq!(a.content, b.content);
    assert_eq!(a.memo_type, b.memo_type);
    assert_eq!(a.from, b.from);
    assert_eq!(a.until, b.until);
    assert_eq!(a.tags, b.tags);
    assert_eq!(a.date_added, b.date_added);
    assert_eq!(a.access_count, b.access_count);
    assert_eq!(a.last_accessed, b.last_accessed);
    assert_eq!(a.completed, b.completed);
}

#[test]
fn dates_read_and_print_as_iso() {
    let d = date("2024-03-01");
    assert_eq!(d.epoch_day, 19783);
    assert_eq!(d.to_iso(), "2024-03-01");
    assert_eq!(d.start_of_day(), 1709251200);
    assert_eq!(d.end_of_day(), 1709337599);
    assert!(CalendarDate::parse_iso("2024-13-01").is_none());
    assert!(CalendarDate::parse_iso("+10000-01-01").is_none());
    assert!(CalendarDate::from_epoch_day(2932897).is_none());
}

#[test]
fn timestamps_print_as_rfc3339() {
    let t = Timestamp::new(0, 0).unwrap();
    assert_eq!(t.to_rfc3339(), "1970-01-01T00:00:00+00:00");
    let u = Timestamp::parse_rfc3339("1970-01-01T01:00:00+01:00").unwrap();
    assert_eq!(u, t);
    assert!(Timestamp::new(0, 1_000_000_000).is_none());
}

#[test]
fn memo_ids_read_and_print_as_uuids() {
    let id = MemoId::parse(ID_TEXT).unwrap();
    assert_eq!(id.to_text(), ID_TEXT);
    assert!(MemoId::parse("not-a-uuid").is_none());
    assert_eq!(not_found(id).message(), format!("Memo {} not found", ID_TEXT));
}

#[test]
fn encoded_payload_holds_range_fields() {
    let m = sample_memo();
    let p = memo_to_payload(&m);
    let keys: Vec<&str> = p.entries.iter().map(|e| e.key.as_str()).collect();
    assert_eq!(
        keys,
        vec![
            "content", "type", "tags", "date_added", "access_count", "last_accessed", "completed",
            "from", "from_ts", "until", "until_ts"
        ]
    );
    assert!(matches!(&p.entries[1].value, PayloadValue::Text(s) if s == "flash"));
    assert!(matches!(&p.entries[7].value, PayloadValue::Text(s) if s == "2024-03-01"));
    assert!(matches!(p.entries[8].value, PayloadValue::Integer(1709251200)));
    assert!(matches!(p.entries[10].value, PayloadValue::Integer(1709683199)));
}

#[test]
fn decode_of_encode_gives_the_memo_back() {
    let m = sample_memo();
    let p = memo_to_payload(&m);
    let back = payload_to_memo(m.id, &p).unwrap();
    assert_same_memo(&back, &m);
    let mut bare = sample_memo();
    bare.from = None;
    bare.until = None;
    bare.tags = Vec::new();
    let p2 = memo_to_payload(&bare);
    assert_eq!(p2.entries.len(), 7);
    assert_same_memo(&payload_to_memo(bare.id, &p2).unwrap(), &bare);
}

#[test]
fn decode_reports_missing_field() {
    let mut entries = minimal_payload();
    entries.remove(0);
    let id = MemoId::from_u128(7);
    let err = payload_to_memo(id, &Payload { entries }).unwrap_err();
    assert!(matches!(err, DecodeError::MissingField(ref k) if k == "content"));
}

#[test]
fn decode_reports_type_mismatch() {
    let mut entries = minimal_payload();
    entries[6] = entry("completed", text("yes"));
    let err = payload_to_memo(MemoId::from_u128(7), &Payload { entries }).unwrap_err();
    assert!(matches!(err, DecodeError::TypeMismatch(ref k) if k == "completed"));
    let mut entries = minimal_payload();
    entries[4] = entry("access_count", text("3"));
    let err = payload_to_memo(MemoId::from_u128(7), &Payload { entries }).unwrap_err();
    assert!(matches!(err, DecodeError::TypeMismatch(ref k) if k == "access_count"));
}

#[test]
fn any_integer_count_decodes() {
    let mut entries = minimal_payload();
    entries[4] = entry("access_count", PayloadValue::Integer(-1));
    let m = payload_to_memo(MemoId::from_u128(7), &Payload { entries }).unwrap();
    assert_eq!(m.access_count, u32::MAX);
    let mut entries = minimal_payload();
    entries[4] = entry("access_count", PayloadValue::Integer((1i64 << 32) + 5));
    let m = payload_to_memo(MemoId::from_u128(7), &Payload { entries }).unwrap();
    assert_eq!(m.access_count, 5);
}

#[test]
fn any_rfc3339_instant_decodes() {
    let mut entries = minimal_payload();
    entries[3] = entry("date_added", text("0000-01-01T00:00:00+01:00"));
    let m = payload_to_memo(MemoId::from_u128(7), &Payload { entries }).unwrap();
    assert_eq!(m.date_added.secs, -62167219200 - 3600);
    let mut entries = minimal_payload();
    entries[5] = entry("last_accessed", text("yesterday"));
    let err = payload_to_memo(MemoId::from_u128(7), &Payload { entries }).unwrap_err();
    assert!(matches!(err, DecodeError::TypeMismatch(ref k) if k == "last_accessed"));
}

#[test]
fn decode_reports_unknown_memo_type() {
    let mut entries = minimal_payload();
    entries[1] = entry("type", text("daily"));
    let err = payload_to_memo(MemoId::from_u128(7), &Payload { entries }).unwrap_err();
    assert!(matches!(err, DecodeError::UnknownVariant(ref t) if t == "daily"));
    let app = err.into_app_error();
    assert_eq!(app.status_code(), 500);
    assert_eq!(app.message(), "Unknown memo type: daily");
}

#[test]
fn optional_dates_are_lenient() {
    let mut entries = minimal_payload();
    entries.push(entry("from", PayloadValue::Null));
    entries.push(entry("until", PayloadValue::Integer(5)));
    entries[2] = entry(
        "tags",
        PayloadValue::List(vec![ListItem::Other, ListItem::Text("b".to_string())]),
    );
    let m = payload_to_memo(MemoId::from_u128(7), &Payload { entries }).unwrap();
    assert_eq!(m.from, None);
    assert_eq!(m.until, None);
    assert_eq!(m.tags, vec!["b".to_string()]);
    assert_eq!(m.memo_type, MemoType::Permanent);
    let mut entries = minimal_payload();
    entries.push(entry("from", text("March")));
    let err = payload_to_memo(MemoId::from_u128(7), &Payload { entries }).unwrap_err();
    assert!(matches!(err, DecodeError::TypeMismatch(ref k) if k == "from"));
}

#[test]
fn display_score_rescales() {
    assert_eq!(display_score(770000), 0);
    assert_eq!(display_score(500000), 0);
    assert_eq!(display_score(1000000), 1000000);
    assert_eq!(display_score(885000), 707106);
    let mut last = 0;
    for raw in (770000..=1000000).step_by(5000) {
        let s = display_score(raw);
        assert!(s >= last);
        last = s;
    }
}

#[test]
fn empty_filters_match_everything() {
    assert!(build_filter(&SearchFilters::empty()).is_none());
}

#[test]
fn tag_filter_is_a_conjunction() {
    let mut f = SearchFilters::empty();
    f.tags = vec!["a".to_string(), "b".to_string()];
    let filter = build_filter(&f).unwrap();
    assert_eq!(filter.must.len(), 2);
    for (c, t) in filter.must.iter().zip(["a", "b"]) {
        assert!(matches!(c, Condition::Matches { key, value } if key == "tags" && value == t));
    }
}

#[test]
fn filter_conditions_follow_fields() {
    let f = SearchFilters {
        from_gte: Some(date("2024-03-01")),
        until_lte: Some(date("2024-03-01")),
        tags: vec!["x".to_string()],
        memo_type: Some(MemoType::Permanent),
    };
    let filter = build_filter(&f).unwrap();
    assert_eq!(filter.must.len(), 4);
    assert!(matches!(&filter.must[0], Condition::Matches { key, value } if key == "type" && value == "permanent"));
    assert!(matches!(&filter.must[1], Condition::Range { key, gte: Some(1709251200), lte: None } if key == "from_ts"));
    assert!(matches!(&filter.must[2], Condition::Range { key, gte: None, lte: Some(1709337599) } if key == "until_ts"));
}

#[test]
fn search_hits_decode_or_fail_whole() {
    let m = sample_memo();
    let hit = ScoredHit {
        id: Some(PointKey::Uuid(ID_TEXT.to_string())),
        payload: memo_to_payload(&m),
        score: 1000000,
    };
    let results = collect_search_results(&vec![hit]).unwrap();
    assert_eq!(results.len(), 1);
    assert_eq!(results[0].id, m.id);
    assert_eq!(results[0].content, "buy milk");
    assert_eq!(results[0].score, 1000000);
    assert_eq!(results[0].from, m.from);
    let good = ScoredHit {
        id: Some(PointKey::Uuid(ID_TEXT.to_string())),
        payload: memo_to_payload(&m),
        score: 900000,
    };
    let bad = ScoredHit { id: Some(PointKey::Num(4)), payload: memo_to_payload(&m), score: 1 };
    let err = collect_search_results(&vec![good, bad]).unwrap_err();
    assert!(matches!(err, AppError::Qdrant(_)));
}

fn names(nodes: &[TagNode]) -> Vec<&str> {
    nodes.iter().map(|n| n.name.as_str()).collect()
}

#[test]
fn tag_tree_merges_prefixes() {
    let tree = build_tag_tree(vec!["a/b".to_string(), "a/c".to_string(), "x".to_string()]);
    assert_eq!(names(&tree), vec!["a", "x"]);
    assert_eq!(names(&tree[0].children), vec!["b", "c"]);
    assert_eq!(tree[0].children[1].path, "a/c");
    assert!(tree[1].children.is_empty());
    assert_eq!(tree[1].path, "x");
}

#[test]
fn tag_tree_nests_paths() {
    let tree = build_tag_tree(vec![
        "p/q/r".to_string(),
        "p/q".to_string(),
        "p/q/r".to_string(),
        "p/a".to_string(),
    ]);
    assert_eq!(names(&tree), vec!["p"]);
    assert_eq!(names(&tree[0].children), vec!["a", "q"]);
    let q = &tree[0].children[1];
    assert_eq!(q.path, "p/q");
    assert_eq!(names(&q.children), vec!["r"]);
    assert_eq!(q.children[0].path, "p/q/r");
    assert!(q.children[0].children.is_empty());
}

#[test]
fn tag_tree_ignores_input_order() {
    let tree = build_tag_tree(vec!["x".to_string(), "a/c".to_string(), "a/b".to_string()]);
    assert_eq!(names(&tree), vec!["a", "x"]);
    assert_eq!(names(&tree[0].children), vec!["b", "c"]);
    assert!(build_tag_tree(Vec::new()).is_empty());
}

#[test]
fn tag_paths_split_on_slashes() {
    assert_eq!(split_tag("a/b/c"), vec!["a", "b", "c"]);
    assert_eq!(split_tag("solo"), vec!["solo"]);
    assert_eq!(split_tag("a//b"), vec!["a", "", "b"]);
    assert!(compare_text("ab", "b") < 0);
    assert_eq!(compare_text("ab", "ab"), 0);
    assert!(compare_text("abc", "ab") > 0);
}

#[test]
fn tag_scan_collects_sorted_unique_tags() {
    let mut scan = TagScan::new();
    let m = sample_memo();
    let mut other = sample_memo();
    other.tags = vec!["alpha".to_string(), "errand".to_string()];
    let page = vec![memo_to_payload(&m), memo_to_payload(&other)];
    let more = scan.absorb_page(&page, Some(PointKey::Num(9)), 2);
    assert!(more);
    let more = scan.absorb_page(&page, Some(PointKey::Num(10)), 100);
    assert!(!more);
    let more = scan.absorb_page(&Vec::new(), None, 100);
    assert!(!more);
    assert_eq!(scan.into_sorted(), vec!["alpha", "errand", "home/kitchen"]);
}

#[test]
fn update_keeps_or_replaces_the_vector() {
    let id = MemoId::from_u128(1);
    assert_eq!(update_vector(id, Some(vec![1u8]), None).unwrap(), vec![1u8]);
    assert_eq!(update_vector(id, Some(vec![1u8]), Some(vec![2u8])).unwrap(), vec![2u8]);
    let err = update_vector::<Vec<u8>>(id, None, Some(vec![2u8])).unwrap_err();
    assert_eq!(err.status_code(), 404);
}

#[test]
fn update_flags_a_content_change() {
    let now = Timestamp::new(1800000000, 0).unwrap();
    let same = UpdateMemoRequest {
        content: Some("buy milk".to_string()),
        memo_type: None,
        from: None,
        until: None,
        tags: None,
        completed: None,
    };
    let (_, changed) = sample_memo().apply_update(same, now);
    assert!(!changed);
    let other = UpdateMemoRequest {
        content: Some("buy bread".to_string()),
        memo_type: Some(MemoType::Permanent),
        from: None,
        until: None,
        tags: Some(vec![]),
        completed: None,
    };
    let (m, changed) = sample_memo().apply_update(other, now);
    assert!(changed);
    assert_eq!(m.content, "buy bread");
    assert_eq!(m.memo_type, MemoType::Permanent);
    assert!(m.tags.is_empty());
    assert_eq!(m.from, sample_memo().from);
}

#[test]
fn insert_get_update_round() {
    let t0 = Timestamp::new(1709251200, 0).unwrap();
    let req = CreateMemoRequest {
        content: "buy milk".to_string(),
        memo_type: MemoType::Flash,
        from: None,
        until: None,
        tags: vec!["errand".to_string()],
    };
    let memo = Memo::from_request(req, MemoId::parse(ID_TEXT).unwrap(), t0);
    let point = memo_point(&memo);
    assert_eq!(point.key, ID_TEXT);
    let got = memo_from_point(memo.id, Some(&point.payload)).unwrap().unwrap();
    assert_eq!(got.content, "buy milk");
    assert_eq!(got.memo_type, MemoType::Flash);
    assert_eq!(got.tags, vec!["errand".to_string()]);
    assert!(!got.completed);
    assert_eq!(got.access_count, 0);
    let t1 = Timestamp::new(1709251260, 0).unwrap();
    let req = UpdateMemoRequest {
        content: None,
        memo_type: None,
        from: None,
        until: None,
        tags: None,
        completed: Some(true),
    };
    let (updated, changed) = got.apply_update(req, t1);
    assert!(!changed);
    let point = memo_point(&updated);
    let again = memo_from_point(updated.id, Some(&point.payload)).unwrap().unwrap();
    assert!(again.completed);
    assert_eq!(again.content, "buy milk");
    assert!(again.last_accessed.secs > t0.secs);
    assert!(memo_from_point(updated.id, None).unwrap().is_none());
}

#[test]
fn collections_and_texts() {
    assert_eq!(collection_name(true), "memos_demo");
    assert_eq!(collection_name(false), "memos");
    let c = managed_collections();
    assert_eq!(c.len(), 3);
    assert_eq!(c[2].name, "memos_archive");
    assert_eq!(c[0].vector_size, 768);
    assert_eq!(storage_text("x"), "passage: x");
    assert_eq!(search_text("y"), "query: y");
    assert_eq!(default_limit(), 20);
}

#[test]
fn require_auth_gates() {
    let anon = AuthState::default();
    let err = require_auth(&anon).unwrap_err();
    assert_eq!(err.status_code(), 401);
    assert_eq!(err.message(), "Authentication required");
    let user = AuthState { is_authenticated: true, email: None };
    assert!(require_auth(&user).is_ok());
}

const TOKEN_WITH_KID: &str = "eyJhbGciOiJSUzI1NiIsImtpZCI6ImsxIn0.e30.c2ln";
const TOKEN_WITHOUT_KID: &str = "eyJhbGciOiJSUzI1NiJ9.e30.c2ln";

fn key(kid: &str) -> JwkKey {
    JwkKey { kid: kid.to_string(), kty: "RSA".to_string(), n: "AQAB".to_string(), e: "AQAB".to_string() }
}

#[test]
fn disabled_validator_never_fetches() {
    let v = JwtValidator::disabled();
    assert!(!v.is_enabled());
    match v.validate(TOKEN_WITH_KID, &None, 0) {
        ValidationStep::Done(Ok(s)) => assert!(!s.is_authenticated && s.email.is_none()),
        other => panic!("unexpected step {:?}", other),
    }
}

#[test]
fn validator_asks_for_keys_when_cold_or_stale() {
    let v = JwtValidator::new("team.example.com".to_string(), "aud".to_string());
    assert_eq!(v.certs_url(), "https://team.example.com/cdn-cgi/access/certs");
    assert!(matches!(v.validate(TOKEN_WITH_KID, &None, 10), ValidationStep::FetchKeys(ref k) if k == "k1"));
    let stale = Some(JwksCache::refreshed(vec![key("k1")], 0));
    assert!(matches!(v.validate(TOKEN_WITH_KID, &stale, 3600), ValidationStep::FetchKeys(_)));
    assert!(matches!(
        v.validate(TOKEN_WITHOUT_KID, &None, 10),
        ValidationStep::Done(Err(AuthError::InvalidToken))
    ));
    assert!(matches!(
        v.validate("garbage", &None, 10),
        ValidationStep::Done(Err(AuthError::InvalidToken))
    ));
}

#[test]
fn validator_uses_a_fresh_cache() {
    let v = JwtValidator::new("team.example.com".to_string(), "aud".to_string());
    let warm = Some(JwksCache::refreshed(vec![key("other")], 100));
    assert!(matches!(
        v.validate(TOKEN_WITH_KID, &warm, 3699),
        ValidationStep::Done(Err(AuthError::KeyNotFound))
    ));
    let warm = Some(JwksCache::refreshed(vec![key("k1")], 100));
    match v.validate(TOKEN_WITH_KID, &warm, 200) {
        ValidationStep::Done(Err(AuthError::Rejected)) => {}
        other => panic!("unexpected step {:?}", other),
    }
    let s = AuthState::from_outcome(Err(AuthError::Rejected));
    assert!(!s.is_authenticated);
}
