use binscope::engine::{finish_analysis, run_engine, scan_upload};
use binscope::gateway::{build_response, resolve_download};
use binscope::harvest::harvest;
use binscope::intake::{scan_parts, Part, RequestError};
use binscope::options::{resolve_options, translate, AnalyzeOptions};
use binscope::start_server;
use binscope::store::BlobStore;

fn file_part(name: &str, filename: Option<&str>, data: &[u8]) -> Part {
    Part {
        name: String::from(name),
        filename: filename.map(String::from),
        data: data.to_vec(),
    }
}

#[test]
fn missing_file_part_is_refused() {
    let parts = vec![file_part("options", None, b"{}")];
    assert!(matches!(scan_parts(parts), Err(RequestError::MissingFile)));
    let empty: Vec<Part> = Vec::new();
    assert!(matches!(scan_parts(empty), Err(RequestError::MissingFile)));
}

#[test]
fn scan_picks_file_and_options() {
    let parts = vec![
        file_part("junk", None, b"ignored"),
        file_part("file", Some("fw.bin"), b"payload"),
        file_part("options", None, b"{\"extract\":true}"),
    ];
    let u = scan_parts(parts).unwrap();
    assert_eq!(u.file_bytes, b"payload".to_vec());
    assert_eq!(u.filename.as_deref(), Some("fw.bin"));
    assert_eq!(u.options_blob, Some(b"{\"extract\":true}".to_vec()));
}

#[test]
fn repeated_parts_last_wins() {
    let parts = vec![
        file_part("file", Some("a.bin"), b"first"),
        file_part("file", Some("b.bin"), b"second"),
    ];
    let u = scan_parts(parts).unwrap();
    assert_eq!(u.file_bytes, b"second".to_vec());
    assert_eq!(u.filename.as_deref(), Some("b.bin"));
    assert_eq!(u.options_blob, None);
}

#[test]
fn extract_false_yields_no_extractions() {
    let parts = vec![file_part("file", Some("ten.bin"), &[0u8; 10])];
    let u = scan_parts(parts).unwrap();
    let opts = resolve_options(None);
    assert!(!opts.extract);
    let config = translate(&opts, u.filename.clone());
    let session = scan_upload(config, &u.file_bytes).unwrap();
    let report = finish_analysis(session, &u.file_bytes, opts.extract);
    assert!(report.extraction_dirs.is_empty());
    let mut store = BlobStore::new();
    let batch: Vec<(String, Vec<Vec<u8>>)> = Vec::new();
    let urls = harvest(&mut store, &batch);
    assert!(urls.is_empty());
    assert_eq!(store.len(), 0);
    let resp = build_response(report.file_map, urls, opts.entropy);
    assert!(resp.extractions.is_empty());
    assert!(!resp.entropy_present);
}

#[test]
fn harvest_two_files_one_id_aliases_to_last() {
    let mut store = BlobStore::new();
    let batch = vec![(
        String::from("7"),
        vec![b"first artifact".to_vec(), b"second artifact".to_vec()],
    )];
    let urls = harvest(&mut store, &batch);
    assert_eq!(store.len(), 2);
    assert_eq!(urls.len(), 1);
    assert_eq!(urls[0].0, "7");
    let url = &urls[0].1;
    assert!(url.starts_with("/api/download/"));
    let token = String::from(&url["/api/download/".len()..]);
    assert_eq!(resolve_download(&store, &token), Ok(b"second artifact".to_vec()));
}

#[test]
fn harvest_skips_empty_extractions() {
    let mut store = BlobStore::new();
    let batch = vec![
        (String::from("0"), Vec::new()),
        (String::from("1"), vec![b"only".to_vec()]),
    ];
    let urls = harvest(&mut store, &batch);
    assert_eq!(store.len(), 1);
    assert_eq!(urls.len(), 1);
    assert_eq!(urls[0].0, "1");
}

#[test]
fn entropy_request_keeps_empty_series_flag() {
    let resp = build_response(Vec::new(), Vec::new(), true);
    assert!(resp.entropy_present);
}

#[test]
fn server_setup_fixed_endpoint_and_empty_store() {
    let s = start_server();
    assert_eq!(s.addr, (127, 0, 0, 1));
    assert_eq!(s.port, 8080);
    assert_eq!(s.store.len(), 0);
}

#[test]
fn harvest_keeps_batch_order_of_ids() {
    let mut store = BlobStore::new();
    let batch = vec![
        (String::from("a"), vec![b"a0".to_vec()]),
        (String::from("b"), Vec::new()),
        (String::from("c"), vec![b"c0".to_vec(), b"c1".to_vec()]),
    ];
    let urls = harvest(&mut store, &batch);
    let ids: Vec<&str> = urls.iter().map(|p| p.0.as_str()).collect();
    assert_eq!(ids, vec!["a", "c"]);
    assert_eq!(store.len(), 3);
}

#[test]
fn engine_failure_on_unresolvable_target() {
    let opts = resolve_options(None);
    let config = translate(&opts, Some(String::new()));
    let r = run_engine(config, &vec![0u8; 4]);
    assert!(matches!(r, Err(RequestError::EngineFailure)));
}

#[test]
fn engine_refuses_unsafe_target_with_directory() {
    for bad in ["/", "..", ".", "a/b", "", "x/.."] {
        let opts = AnalyzeOptions {
            extract: false,
            carve: false,
            entropy: false,
            matryoshka: false,
            filter_in: None,
            filter_out: None,
            threads: None,
            directory: Some(String::from("/tmp/binscope-out")),
            verbose: false,
            quiet: false,
        };
        let config = translate(&opts, Some(String::from(bad)));
        let r = run_engine(config, &vec![0u8; 4]);
        assert!(matches!(r, Err(RequestError::EngineFailure)));
    }
}

#[test]
fn harvest_identical_payloads_get_distinct_tokens() {
    let mut store = BlobStore::new();
    let batch = vec![(String::from("d"), vec![b"same".to_vec(), b"same".to_vec()])];
    let urls = harvest(&mut store, &batch);
    assert_eq!(store.len(), 2);
    assert_eq!(urls.len(), 1);
    let token = String::from(&urls[0].1["/api/download/".len()..]);
    assert_eq!(resolve_download(&store, &token), Ok(b"same".to_vec()));
}
