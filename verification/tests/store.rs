use oxstore::error::ConflictableTransactionError;
use oxstore::numeric_encoder::{StrContainer, StrLookup};
use oxstore::numeric_encoder::{EncodedQuad, EncodedTerm, StrHash};
use oxstore::small_string::SmallString;
use oxstore::storage::{ChainedDecodingQuadIterator, DecodingGraphIterator, Storage};

fn small(s: &str) -> SmallString {
    SmallString::new(s).expect("string fits the inline budget")
}

fn named(iri: &str) -> EncodedTerm {
    match SmallString::new(iri) {
        Some(s) => EncodedTerm::SmallNamedNode { iri: s },
        None => EncodedTerm::NamedNode {
            iri_id: StrHash::new(iri),
        },
    }
}

fn literal(value: &str) -> EncodedTerm {
    EncodedTerm::SmallStringLiteral {
        value: small(value),
    }
}

fn quad(s: &str, p: &str, o: EncodedTerm, g: Option<&str>) -> EncodedQuad {
    EncodedQuad::new(
        named(s),
        named(p),
        o,
        match g {
            Some(g) => named(g),
            None => EncodedTerm::DefaultGraph,
        },
    )
}

fn collect_quads(mut it: ChainedDecodingQuadIterator) -> Vec<EncodedQuad> {
    let mut out = Vec::new();
    while let Some(q) = it.next() {
        out.push(q);
    }
    out
}

fn collect_graphs(mut it: DecodingGraphIterator) -> Vec<EncodedTerm> {
    let mut out = Vec::new();
    while let Some(t) = it.next() {
        out.push(t);
    }
    out
}

fn pattern(
    store: &Storage,
    s: Option<&EncodedTerm>,
    p: Option<&EncodedTerm>,
    o: Option<&EncodedTerm>,
    g: Option<&EncodedTerm>,
) -> Vec<EncodedQuad> {
    collect_quads(store.quads_for_pattern(s, p, o, g).expect("scan works"))
}

#[test]
fn empty_store_round_trip() {
    let store = Storage::new().expect("temporary store opens");
    assert_eq!(store.len().expect("count works"), 0);
    assert!(store.is_empty().expect("count works"));
    assert!(pattern(&store, None, None, None, None).is_empty());
    assert!(collect_graphs(store.named_graphs().expect("registry scan works")).is_empty());
}

#[test]
fn default_graph_insert() {
    let mut store = Storage::new().expect("temporary store opens");
    let q = quad("ex:a", "ex:p", literal("v"), None);
    assert!(store.insert(&q).expect("insert works"));
    assert!(store.contains(&q).expect("contains works"));
    assert_eq!(store.len().expect("count works"), 1);
    assert!(!store.is_empty().expect("count works"));
    let s = named("ex:a");
    assert_eq!(pattern(&store, Some(&s), None, None, None), vec![q.clone()]);
    let g = EncodedTerm::DefaultGraph;
    assert_eq!(pattern(&store, None, None, None, Some(&g)), vec![q.clone()]);
    assert!(collect_graphs(store.named_graphs().expect("registry scan works")).is_empty());
}

#[test]
fn named_graph_insert() {
    let mut store = Storage::new().expect("temporary store opens");
    let q = quad("ex:a", "ex:p", named("ex:b"), Some("ex:G"));
    assert!(store.insert(&q).expect("insert works"));
    let graphs = collect_graphs(store.named_graphs().expect("registry scan works"));
    assert_eq!(graphs, vec![named("ex:G")]);
    assert!(store
        .contains_named_graph(&named("ex:G"))
        .expect("registry lookup works"));
    let g = named("ex:G");
    assert_eq!(pattern(&store, None, None, None, Some(&g)), vec![q.clone()]);
    let p = named("ex:p");
    assert_eq!(pattern(&store, None, Some(&p), None, None), vec![q.clone()]);
    let s = named("ex:a");
    let o = named("ex:b");
    assert_eq!(
        pattern(&store, Some(&s), None, Some(&o), None),
        vec![q.clone()]
    );
}

#[test]
fn insert_twice_reports_already_present() {
    let mut store = Storage::new().expect("temporary store opens");
    let q = quad("ex:a", "ex:p", literal("v"), Some("ex:G"));
    assert!(store.insert(&q).expect("first insert works"));
    assert!(!store.insert(&q).expect("second insert works"));
    assert_eq!(store.len().expect("count works"), 1);
}

#[test]
fn remove_absent_is_a_no_op() {
    let mut store = Storage::new().expect("temporary store opens");
    let q = quad("ex:a", "ex:p", literal("v"), None);
    assert!(!store.remove(&q).expect("remove works"));
    assert_eq!(store.len().expect("count works"), 0);
    assert!(store.insert(&q).expect("insert works"));
    assert!(store.remove(&q).expect("remove works"));
    assert!(!store.remove(&q).expect("remove works"));
    assert_eq!(store.len().expect("count works"), 0);
}

#[test]
fn remove_preserves_registry() {
    let mut store = Storage::new().expect("temporary store opens");
    let q = quad("ex:a", "ex:p", literal("v"), Some("ex:G"));
    store.insert(&q).expect("insert works");
    assert!(store.remove(&q).expect("remove works"));
    let graphs = collect_graphs(store.named_graphs().expect("registry scan works"));
    assert_eq!(graphs, vec![named("ex:G")]);
    let g = named("ex:G");
    assert!(pattern(&store, None, None, None, Some(&g)).is_empty());
}

fn sample_dataset() -> Vec<EncodedQuad> {
    vec![
        quad("ex:a", "ex:p", literal("v1"), None),
        quad("ex:a", "ex:q", literal("v2"), None),
        quad("ex:b", "ex:p", literal("v1"), None),
        quad("ex:a", "ex:p", literal("v1"), Some("ex:G")),
        quad("ex:a", "ex:p", literal("v3"), Some("ex:G")),
        quad("ex:b", "ex:q", literal("v1"), Some("ex:H")),
    ]
}

fn matches(
    q: &EncodedQuad,
    s: Option<&EncodedTerm>,
    p: Option<&EncodedTerm>,
    o: Option<&EncodedTerm>,
    g: Option<&EncodedTerm>,
) -> bool {
    s.map_or(true, |t| &q.subject == t)
        && p.map_or(true, |t| &q.predicate == t)
        && o.map_or(true, |t| &q.object == t)
        && g.map_or(true, |t| &q.graph_name == t)
}

#[test]
fn every_pattern_yields_exactly_the_matching_quads() {
    let mut store = Storage::new().expect("temporary store opens");
    let data = sample_dataset();
    for q in &data {
        assert!(store.insert(q).expect("insert works"));
    }
    let s = named("ex:a");
    let p = named("ex:p");
    let o = literal("v1");
    let named_g = named("ex:G");
    let default_g = EncodedTerm::DefaultGraph;
    let subjects = [None, Some(&s)];
    let predicates = [None, Some(&p)];
    let objects = [None, Some(&o)];
    let graphs = [None, Some(&named_g), Some(&default_g)];
    for s_opt in subjects {
        for p_opt in predicates {
            for o_opt in objects {
                for g_opt in graphs {
                    let got = pattern(&store, s_opt, p_opt, o_opt, g_opt);
                    let expected: Vec<EncodedQuad> = data
                        .iter()
                        .filter(|q| matches(q, s_opt, p_opt, o_opt, g_opt))
                        .cloned()
                        .collect();
                    assert_eq!(got.len(), expected.len());
                    for q in &expected {
                        assert!(got.contains(q));
                    }
                    for (i, q) in got.iter().enumerate() {
                        assert!(expected.contains(q));
                        assert!(!got[i + 1..].contains(q));
                    }
                }
            }
        }
    }
}

#[test]
fn clear_graph_keeps_the_registry_entry() {
    let mut store = Storage::new().expect("temporary store opens");
    let q1 = quad("ex:a", "ex:p", literal("v"), Some("ex:G"));
    let q2 = quad("ex:a", "ex:p", literal("v"), None);
    store.insert(&q1).expect("insert works");
    store.insert(&q2).expect("insert works");
    store.clear_graph(&named("ex:G")).expect("clear works");
    assert!(!store.contains(&q1).expect("contains works"));
    assert!(store.contains(&q2).expect("contains works"));
    let graphs = collect_graphs(store.named_graphs().expect("registry scan works"));
    assert_eq!(graphs, vec![named("ex:G")]);
}

#[test]
fn clear_graph_on_the_default_graph_truncates_it() {
    let mut store = Storage::new().expect("temporary store opens");
    let q1 = quad("ex:a", "ex:p", literal("v"), None);
    let q2 = quad("ex:a", "ex:p", literal("v"), Some("ex:G"));
    store.insert(&q1).expect("insert works");
    store.insert(&q2).expect("insert works");
    store
        .clear_graph(&EncodedTerm::DefaultGraph)
        .expect("clear works");
    assert!(!store.contains(&q1).expect("contains works"));
    assert!(store.contains(&q2).expect("contains works"));
}

#[test]
fn remove_named_graph_drops_quads_and_registry_entry() {
    let mut store = Storage::new().expect("temporary store opens");
    let q1 = quad("ex:a", "ex:p", literal("v"), Some("ex:G"));
    let q2 = quad("ex:b", "ex:p", literal("v"), Some("ex:H"));
    store.insert(&q1).expect("insert works");
    store.insert(&q2).expect("insert works");
    assert!(store
        .remove_named_graph(&named("ex:G"))
        .expect("removal works"));
    assert!(!store.contains(&q1).expect("contains works"));
    assert!(store.contains(&q2).expect("contains works"));
    let graphs = collect_graphs(store.named_graphs().expect("registry scan works"));
    assert_eq!(graphs, vec![named("ex:H")]);
    assert!(!store
        .remove_named_graph(&named("ex:G"))
        .expect("removal works"));
}

#[test]
fn insert_named_graph_registers_without_quads() {
    let mut store = Storage::new().expect("temporary store opens");
    assert!(store
        .insert_named_graph(&named("ex:G"))
        .expect("registration works"));
    assert!(!store
        .insert_named_graph(&named("ex:G"))
        .expect("registration works"));
    assert!(store
        .contains_named_graph(&named("ex:G"))
        .expect("lookup works"));
    assert_eq!(store.len().expect("count works"), 0);
}

#[test]
fn clear_empties_everything() {
    let mut store = Storage::new().expect("temporary store opens");
    store
        .insert(&quad("ex:a", "ex:p", literal("v"), Some("ex:G")))
        .expect("insert works");
    store
        .insert(&quad("ex:a", "ex:p", literal("v"), None))
        .expect("insert works");
    let h = StrHash::new("some wide string");
    store.insert_str(&h, "some wide string").expect("intern works");
    store.clear().expect("clear works");
    assert_eq!(store.len().expect("count works"), 0);
    assert!(store.is_empty().expect("count works"));
    assert!(collect_graphs(store.named_graphs().expect("registry scan works")).is_empty());
    assert!(!store.contains_str(&h).expect("lookup works"));
}

#[test]
fn interner_round_trip() {
    let mut store = Storage::new().expect("temporary store opens");
    let value = "a string wider than the inline budget";
    let h = StrHash::new(value);
    assert!(!store.contains_str(&h).expect("lookup works"));
    assert_eq!(store.get_str(&h).expect("lookup works"), None);
    assert!(store.insert_str(&h, value).expect("intern works"));
    assert!(!store.insert_str(&h, value).expect("intern works"));
    assert!(store.contains_str(&h).expect("lookup works"));
    assert_eq!(
        store.get_str(&h).expect("lookup works"),
        Some(value.to_string())
    );
    store.flush().expect("flush works");
}

#[test]
fn transaction_commits_atomically_visible_updates() {
    let mut store = Storage::new().expect("temporary store opens");
    let q1 = quad("ex:a", "ex:p", literal("v1"), None);
    let q2 = quad("ex:b", "ex:p", literal("v2"), Some("ex:G"));
    let h = StrHash::new("interned inside the transaction");
    let out = store
        .transaction(|mut txn| {
            assert!(txn.insert(&q1)?);
            assert!(txn.insert(&q2)?);
            assert!(txn.insert_str(&h, "interned inside the transaction")?);
            assert!(txn.contains_str(&h)?);
            assert_eq!(
                txn.get_str(&h)?,
                Some("interned inside the transaction".to_string())
            );
            assert!(!txn.insert_named_graph(&named("ex:G"))?);
            Ok::<u32, ConflictableTransactionError<()>>(7u32)
        })
        .expect("transaction commits");
    assert_eq!(out, 7);
    assert!(store.contains(&q1).expect("contains works"));
    assert!(store.contains(&q2).expect("contains works"));
    assert!(store.contains_str(&h).expect("lookup works"));
    assert_eq!(store.len().expect("count works"), 2);
    let graphs = collect_graphs(store.named_graphs().expect("registry scan works"));
    assert_eq!(graphs, vec![named("ex:G")]);
}

#[test]
fn transactional_abort_leaves_the_store_unchanged() {
    let mut store = Storage::new().expect("temporary store opens");
    let q0 = quad("ex:kept", "ex:p", literal("v"), None);
    store.insert(&q0).expect("insert works");
    let len_before = store.len().expect("count works");
    let q1 = quad("ex:a", "ex:p", literal("v1"), None);
    let q2 = quad("ex:b", "ex:p", literal("v2"), Some("ex:G"));
    let r: Result<(), _> = store.transaction(|mut txn| {
        txn.insert(&q1)?;
        txn.insert(&q2)?;
        Err(ConflictableTransactionError::Abort("rolled back"))
    });
    match r {
        Err(oxstore::error::TransactionError::Abort(msg)) => assert_eq!(msg, "rolled back"),
        _ => panic!("the transaction should abort"),
    }
    assert_eq!(store.len().expect("count works"), len_before);
    assert!(!store.contains(&q1).expect("contains works"));
    assert!(!store.contains(&q2).expect("contains works"));
    assert!(store.contains(&q0).expect("contains works"));
    let g = named("ex:G");
    assert!(!store.contains_named_graph(&g).expect("lookup works"));
}

#[test]
fn transaction_removals_commit() {
    let mut store = Storage::new().expect("temporary store opens");
    let q = quad("ex:a", "ex:p", literal("v"), Some("ex:G"));
    store.insert(&q).expect("insert works");
    store
        .transaction(|mut txn| {
            assert!(txn.remove(&q)?);
            assert!(!txn.remove(&q)?);
            Ok::<(), ConflictableTransactionError<()>>(())
        })
        .expect("transaction commits");
    assert!(!store.contains(&q).expect("contains works"));
}

fn load_quads<S: oxstore::storage::StorageLike>(
    handle: &mut S,
    quads: &[EncodedQuad],
) -> Result<usize, S::Error> {
    let mut fresh = 0;
    for q in quads {
        if handle.insert(q)? {
            fresh += 1;
        }
    }
    Ok(fresh)
}

#[test]
fn storage_like_code_runs_in_both_modes() {
    let mut store = Storage::new().expect("temporary store opens");
    let data = sample_dataset();
    let h = StrHash::new("shared string payload");

    // Once against the plain storage façade.
    assert_eq!(load_quads(&mut store, data.as_slice()).expect("load works"), 6);
    assert!(StrContainer::insert_str(&mut store, &h, "shared string payload").expect("works"));
    assert!(StrLookup::contains_str(&store, &h).expect("works"));
    store.clear().expect("clear works");

    // And once, unchanged, against a transaction handle.
    store
        .transaction(|mut txn| {
            assert_eq!(load_quads(&mut txn, data.as_slice())?, 6);
            assert!(StrContainer::insert_str(&mut txn, &h, "shared string payload")?);
            assert!(StrLookup::contains_str(&txn, &h)?);
            Ok::<(), ConflictableTransactionError<()>>(())
        })
        .expect("transaction commits");
    assert_eq!(store.len().expect("count works"), 6);
    assert!(store.contains_str(&h).expect("lookup works"));
}
