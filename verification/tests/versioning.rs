use oxstore::numeric_encoder::{EncodedQuad, EncodedTerm, StrHash};
use oxstore::small_string::SmallString;
use oxstore::storage::Storage;

fn named(iri: &str) -> EncodedTerm {
    match SmallString::new(iri) {
        Some(s) => EncodedTerm::SmallNamedNode { iri: s },
        None => EncodedTerm::NamedNode {
            iri_id: StrHash::new(iri),
        },
    }
}

fn sample_quad() -> EncodedQuad {
    EncodedQuad::new(
        named("ex:a"),
        named("ex:p"),
        named("ex:b"),
        named("ex:G"),
    )
}

#[test]
fn opening_a_fresh_path_writes_the_latest_version() {
    let dir = tempfile::tempdir().expect("temporary directory");
    let path = dir.path().join("store");
    let path = path.to_str().expect("utf-8 path");
    {
        let store = Storage::open(path).expect("fresh store opens");
        assert_eq!(store.len().expect("count works"), 0);
    }
    let db = sled::open(path).expect("raw reopen works");
    let version = db.get("oxversion").expect("read works").expect("tag exists");
    assert_eq!(version.as_ref(), 1u64.to_be_bytes().as_slice());
}

#[test]
fn a_store_persists_across_reopen() {
    let dir = tempfile::tempdir().expect("temporary directory");
    let path = dir.path().join("store");
    let path = path.to_str().expect("utf-8 path");
    let q = sample_quad();
    {
        let mut store = Storage::open(path).expect("fresh store opens");
        assert!(store.insert(&q).expect("insert works"));
        store.flush().expect("flush works");
    }
    {
        let store = Storage::open(path).expect("reopen works");
        assert!(store.contains(&q).expect("contains works"));
        assert_eq!(store.len().expect("count works"), 1);
    }
}

#[test]
fn opening_a_version_zero_store_migrates_the_registry() {
    let dir = tempfile::tempdir().expect("temporary directory");
    let path = dir.path().join("store");
    let path = path.to_str().expect("utf-8 path");
    let q = sample_quad();
    {
        let mut store = Storage::open(path).expect("fresh store opens");
        assert!(store.insert(&q).expect("insert works"));
        store.flush().expect("flush works");
    }
    {
        // Rewind the store to the shape a version-0 engine left behind: no
        // graph registry, version tag 0.
        let db = sled::open(path).expect("raw reopen works");
        db.open_tree("graphs")
            .expect("registry opens")
            .clear()
            .expect("registry clears");
        db.insert("oxversion", &0u64.to_be_bytes())
            .expect("tag write works");
        db.flush().expect("flush works");
    }
    {
        let store = Storage::open(path).expect("migration succeeds");
        assert!(store
            .contains_named_graph(&named("ex:G"))
            .expect("registry lookup works"));
        assert!(store.contains(&q).expect("contains works"));
    }
    let db = sled::open(path).expect("raw reopen works");
    let version = db.get("oxversion").expect("read works").expect("tag exists");
    assert_eq!(version.as_ref(), 1u64.to_be_bytes().as_slice());
}

#[test]
fn opening_a_too_recent_store_fails_without_changes() {
    let dir = tempfile::tempdir().expect("temporary directory");
    let path = dir.path().join("store");
    let path = path.to_str().expect("utf-8 path");
    let q = sample_quad();
    {
        let mut store = Storage::open(path).expect("fresh store opens");
        assert!(store.insert(&q).expect("insert works"));
        store.flush().expect("flush works");
    }
    {
        let db = sled::open(path).expect("raw reopen works");
        db.insert("oxversion", &2u64.to_be_bytes())
            .expect("tag write works");
        db.flush().expect("flush works");
    }
    let err = match Storage::open(path) {
        Ok(_) => panic!("a too recent store must be refused"),
        Err(e) => e,
    };
    assert!(err.to_string().contains("too recent"));
    // The store is not modified: the tag still reads 2 and the quad is kept.
    let db = sled::open(path).expect("raw reopen works");
    let version = db.get("oxversion").expect("read works").expect("tag exists");
    assert_eq!(version.as_ref(), 2u64.to_be_bytes().as_slice());
}

#[test]
fn a_malformed_version_tag_is_refused() {
    let dir = tempfile::tempdir().expect("temporary directory");
    let path = dir.path().join("store");
    let path = path.to_str().expect("utf-8 path");
    {
        Storage::open(path).expect("fresh store opens");
    }
    {
        let db = sled::open(path).expect("raw reopen works");
        db.insert("oxversion", &[1u8, 2u8])
            .expect("tag write works");
        db.flush().expect("flush works");
    }
    assert!(Storage::open(path).is_err());
}
