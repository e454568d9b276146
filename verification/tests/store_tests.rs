use binscope::gateway::resolve_download;
use binscope::intake::RequestError;
use binscope::store::BlobStore;

#[test]
fn round_trip_exact() {
    let mut store = BlobStore::new();
    let payload: Vec<u8> = vec![0x1f, 0x8b, 0x08, 0x00, 0xff, 0x00, 0x7f];
    let token = store.put(payload.clone());
    assert_eq!(store.get(&token), Some(payload));
}

#[test]
fn round_trip_empty_payload() {
    let mut store = BlobStore::new();
    let token = store.put(Vec::new());
    assert_eq!(store.get(&token), Some(Vec::new()));
}

#[test]
fn token_uniqueness_identical_payloads() {
    let mut store = BlobStore::new();
    let t1 = store.put(vec![1, 2, 3]);
    let t2 = store.put(vec![1, 2, 3]);
    assert_ne!(t1, t2);
    assert_eq!(store.len(), 2);
}

#[test]
fn unknown_token_reports_absence() {
    let store = BlobStore::new();
    assert_eq!(store.get(&String::from("no-such-token")), None);
}

#[test]
fn unknown_token_not_found_error() {
    let mut store = BlobStore::new();
    let token = store.put(vec![9]);
    let mut wrong = token.clone();
    wrong.push('x');
    assert_eq!(resolve_download(&store, &wrong), Err(RequestError::NotFound));
    assert_eq!(resolve_download(&store, &token), Ok(vec![9]));
}

#[test]
fn disjoint_payloads_no_cross_contamination() {
    let mut store = BlobStore::new();
    let a: Vec<u8> = b"first file".to_vec();
    let b: Vec<u8> = b"second file".to_vec();
    let ta = store.put(a.clone());
    let tb = store.put(b.clone());
    assert_ne!(ta, tb);
    assert_eq!(store.get(&ta), Some(a));
    assert_eq!(store.get(&tb), Some(b));
    assert_eq!(store.len(), 2);
}

#[test]
fn repeated_download_of_same_token() {
    let mut store = BlobStore::new();
    let token = store.put(vec![42; 1000]);
    for _ in 0..3 {
        assert_eq!(store.get(&token), Some(vec![42; 1000]));
    }
}
