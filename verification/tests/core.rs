use urlshortener::generator::ALIAS_LEN;
use urlshortener::manager::CreateStep;
use urlshortener::manager::MAX_ATTEMPTS;
use urlshortener::manager::next_step;
use urlshortener::resolve_redirect;
use urlshortener::AliasGenerator;
use urlshortener::InsertOutcome;
use urlshortener::MemStore;
use urlshortener::UrlError;
use urlshortener::UrlManager;

fn fresh_manager(salt: u64) -> UrlManager {
    UrlManager::new(AliasGenerator::new(salt), MemStore::new())
}

fn is_alnum_ascii(s: &str) -> bool {
    !s.is_empty() && s.chars().all(|c| c.is_ascii_alphanumeric())
}

#[test]
fn create_rejects_empty_input() {
    let mut manager = fresh_manager(1);
    let r = manager.create("");
    assert!(matches!(r, Err(UrlError::InvalidInput)));
    assert!(manager.lookup("anything").is_none());
}

#[test]
fn create_then_lookup_round_trip() {
    let mut manager = fresh_manager(7);
    let m = manager.create("https://example.com/a").expect("create must succeed");
    assert_eq!(m.alias.len(), ALIAS_LEN);
    assert!(is_alnum_ascii(&m.alias));
    assert_eq!(m.long_url, "https://example.com/a");

    let found = manager.lookup(&m.alias).expect("lookup must find the new alias");
    assert_eq!(found.alias, m.alias);
    assert_eq!(found.long_url, "https://example.com/a");

    assert!(manager.lookup("doesnotexist").is_none());
}

#[test]
fn created_aliases_are_distinct() {
    let mut manager = fresh_manager(3);
    let m1 = manager.create("https://example.com/a").expect("first create");
    let m2 = manager.create("https://example.com/a").expect("second create");
    let m3 = manager.create("https://example.com/b").expect("third create");
    assert_ne!(m1.alias, m2.alias);
    assert_ne!(m1.alias, m3.alias);
    assert_ne!(m2.alias, m3.alias);
    assert_eq!(manager.lookup(&m1.alias).unwrap().long_url, "https://example.com/a");
    assert_eq!(manager.lookup(&m2.alias).unwrap().long_url, "https://example.com/a");
    assert_eq!(manager.lookup(&m3.alias).unwrap().long_url, "https://example.com/b");
}

#[test]
fn collision_retry_uses_next_free_candidate() {
    let url = "https://example.com/busy";
    let generator = AliasGenerator::new(11);
    let mut store = MemStore::new();
    for attempt in 0..3 {
        let taken = generator.candidate(url, attempt);
        assert_eq!(store.insert_if_absent(&taken, "https://elsewhere.example"), InsertOutcome::Inserted);
    }
    let expected = generator.candidate(url, 3);
    let mut manager = UrlManager::new(generator, store);
    let m = manager.create(url).expect("create must succeed within the budget");
    assert_eq!(m.alias, expected);
    assert_eq!(m.long_url, url);
}

#[test]
fn collision_budget_exhaustion_is_a_conflict() {
    let url = "https://example.com/full";
    let generator = AliasGenerator::new(11);
    let mut store = MemStore::new();
    for attempt in 0..MAX_ATTEMPTS {
        let taken = generator.candidate(url, attempt);
        assert_eq!(store.insert_if_absent(&taken, "https://elsewhere.example"), InsertOutcome::Inserted);
    }
    let mut manager = UrlManager::new(generator, store);
    let r = manager.create(url);
    assert!(matches!(r, Err(UrlError::AliasAlreadyExists)));
}

#[test]
fn store_insert_is_atomic_if_absent() {
    let mut store = MemStore::new();
    assert_eq!(store.insert_if_absent("abc123", "https://one.example"), InsertOutcome::Inserted);
    assert_eq!(store.insert_if_absent("abc123", "https://two.example"), InsertOutcome::AlreadyExists);
    let kept = store.get("abc123").expect("stored mapping must be found");
    assert_eq!(kept.alias, "abc123");
    assert_eq!(kept.long_url, "https://one.example");
}

#[test]
fn store_get_misses_on_absent_alias() {
    let store = MemStore::new();
    assert!(store.get("absent").is_none());
}

#[test]
fn generator_is_deterministic_per_attempt() {
    let g1 = AliasGenerator::new(42);
    let g2 = AliasGenerator::new(42);
    let a = g1.candidate("https://example.com/x", 0);
    let b = g2.candidate("https://example.com/x", 0);
    assert_eq!(a, b);
    assert_eq!(a.len(), ALIAS_LEN);
    assert!(is_alnum_ascii(&a));
    let c = g1.candidate("https://example.com/x", 1);
    assert_eq!(c.len(), ALIAS_LEN);
    assert!(is_alnum_ascii(&c));
}

#[test]
fn generator_matches_known_values() {
    let g = AliasGenerator::new(0);
    assert_eq!(g.candidate("a", 0), "oTEAte");
    let g7 = AliasGenerator::new(7);
    assert_eq!(g7.candidate("https://example.com/a", 0), "EobJV1");
    assert_eq!(g7.candidate("https://example.com/a", 1), "bUHfW1");
}

#[test]
fn next_step_classifies_every_outcome() {
    assert_eq!(next_step(InsertOutcome::Inserted, 0), CreateStep::Accept);
    assert_eq!(next_step(InsertOutcome::AlreadyExists, 0), CreateStep::Retry);
    assert_eq!(next_step(InsertOutcome::AlreadyExists, MAX_ATTEMPTS - 1), CreateStep::GiveUp);
    assert_eq!(next_step(InsertOutcome::StorageError, 2), CreateStep::Fail);
}

#[test]
fn resolve_keeps_absolute_urls() {
    let r = resolve_redirect("https://example.com/a");
    assert_eq!(r.as_deref(), Some("https://example.com/a"));
}

#[test]
fn resolve_prefixes_schemeless_urls() {
    let r = resolve_redirect("example.org/x");
    assert_eq!(r.as_deref(), Some("http://example.org/x"));
}

#[test]
fn resolve_gives_up_on_unparseable_urls() {
    assert_eq!(resolve_redirect(":"), None);
}
