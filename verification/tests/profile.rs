use airpcez::cluster::NodeEntry;
use airpcez::profile::{slugify, Profile, ProfileStore};

fn prof(id: &str, name: &str, model: &str) -> Profile {
    Profile { id: id.into(), name: name.into(), model: model.into(), ..Default::default() }
}

#[test]
fn slugify_cases() {
    assert_eq!(slugify("Best Networked"), "best-networked");
    assert_eq!(slugify("solo-2080!!"), "solo-2080");
    assert_eq!(slugify("  A  B  "), "a-b");
    assert_eq!(slugify(""), "");
}

#[test]
fn slugify_is_idempotent_on_examples() {
    for s in ["Best Networked", "solo-2080!!", "  A  B  ", "Ünïcode -- Mix 42", "---"] {
        let once = slugify(s);
        assert_eq!(slugify(&once), once);
    }
}

#[test]
fn slugify_keeps_only_lowercase_alnum_and_single_dashes() {
    let s = slugify("Qwen3.6 35B/A3B (Q4_K_M)");
    assert_eq!(s, "qwen3-6-35b-a3b-q4-k-m");
    assert!(!s.starts_with('-') && !s.ends_with('-') && !s.contains("--"));
}

#[test]
fn store_upsert_then_get_and_replace() {
    let mut st = ProfileStore::default();
    st.upsert(prof("a", "A", "m1"));
    st.upsert(prof("b", "B", "m2"));
    assert_eq!(st.get("a").map(|p| p.name.clone()), Some("A".to_string()));
    st.upsert(prof("a", "A2", "m1"));
    assert_eq!(st.profiles.len(), 2);
    assert_eq!(st.profiles[0].name, "A2");
    assert_eq!(st.get("b").map(|p| p.model.clone()), Some("m2".to_string()));
    assert!(st.get("zzz").is_none());
}

#[test]
fn store_list_filters_by_model() {
    let mut st = ProfileStore::default();
    st.upsert(prof("a", "A", "repo:Q4_K_M"));
    st.upsert(prof("b", "B", "other"));
    st.upsert(prof("c", "C", "repo:Q4_K_M"));
    let ids: Vec<String> = st.list(Some("repo:Q4_K_M")).iter().map(|p| p.id.clone()).collect();
    assert_eq!(ids, vec!["a".to_string(), "c".to_string()]);
    assert_eq!(st.list(None).len(), 3);
    assert!(st.list(Some("none")).is_empty());
}

#[test]
fn store_remove_then_get_is_none() {
    let mut st = ProfileStore::default();
    st.upsert(prof("a", "A", "m"));
    st.upsert(prof("b", "B", "m"));
    assert!(st.remove("a"));
    assert!(st.get("a").is_none());
    assert_eq!(st.profiles.len(), 1);
    assert!(!st.remove("a"));
}

#[test]
fn profile_default_is_empty() {
    let p = Profile::default();
    assert!(p.id.is_empty() && p.name.is_empty() && p.model.is_empty());
    assert!(!p.no_mmap && p.updated_at == 0 && p.nodes.is_empty() && p.tok_s_bits.is_none());
    let q = Profile { nodes: vec![NodeEntry { name: "n".into(), addr: "1.2.3.4:8675".into() }], ..p };
    assert_eq!(q.nodes.len(), 1);
}

#[test]
fn store_upsert_get_remove() {
    let mut s = ProfileStore::default();
    s.upsert(prof("a", "a", "m1"));
    s.upsert(prof("b", "b", "m2"));
    assert_eq!(s.profiles.len(), 2);
    let mut a2 = prof("a", "a", "m1");
    a2.name = "Renamed".into();
    s.upsert(a2);
    assert_eq!(s.profiles.len(), 2);
    assert_eq!(s.get("a").unwrap().name, "Renamed");
    assert!(s.get("missing").is_none());
    assert!(s.remove("a"));
    assert!(!s.remove("a"));
    assert_eq!(s.profiles.len(), 1);
}
