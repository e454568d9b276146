use binscope::options::{parse_filter, resolve_options, translate, AnalyzeOptions, RawOptions};
use binscope::text::u64_to_dec;

fn all_absent() -> RawOptions {
    RawOptions {
        extract: None,
        carve: None,
        entropy: None,
        matryoshka: None,
        filter_in: None,
        filter_out: None,
        threads: None,
        directory: None,
        verbose: None,
        quiet: None,
    }
}

#[test]
fn absent_blob_resolves_to_defaults() {
    let o = resolve_options(None);
    assert!(!o.extract && !o.carve && !o.entropy && !o.matryoshka && !o.verbose && !o.quiet);
    assert!(o.filter_in.is_none() && o.filter_out.is_none());
    assert!(o.threads.is_none() && o.directory.is_none());
}

#[test]
fn absent_fields_resolve_to_defaults() {
    let o = resolve_options(Some(all_absent()));
    assert!(!o.extract && !o.carve && !o.entropy && !o.matryoshka && !o.verbose && !o.quiet);
    assert!(o.filter_in.is_none() && o.filter_out.is_none());
    assert!(o.threads.is_none() && o.directory.is_none());
}

#[test]
fn present_fields_pass_through() {
    let mut raw = all_absent();
    raw.extract = Some(true);
    raw.entropy = Some(false);
    raw.threads = Some(4);
    raw.filter_in = Some(String::from("zip,gzip"));
    raw.directory = Some(String::from("/tmp/out"));
    let o = resolve_options(Some(raw));
    assert!(o.extract);
    assert!(!o.entropy);
    assert_eq!(o.threads, Some(4));
    assert_eq!(o.filter_in.as_deref(), Some("zip,gzip"));
    assert_eq!(o.directory.as_deref(), Some("/tmp/out"));
}

#[test]
fn filter_split_trim_drop_empty() {
    assert_eq!(parse_filter("zip, gzip ,, png"), vec!["zip", "gzip", "png"]);
}

#[test]
fn filter_empty_string_is_no_names() {
    assert_eq!(parse_filter(""), Vec::<String>::new());
    assert_eq!(parse_filter(" , "), Vec::<String>::new());
    assert_eq!(parse_filter(","), Vec::<String>::new());
}

#[test]
fn filter_single_name() {
    assert_eq!(parse_filter("squashfs"), vec!["squashfs"]);
    assert_eq!(parse_filter("  squashfs  "), vec!["squashfs"]);
}

#[test]
fn filter_keeps_inner_spaces() {
    assert_eq!(parse_filter("a b, c"), vec!["a b", "c"]);
}

#[test]
fn translate_splits_filters() {
    let opts = AnalyzeOptions {
        extract: true,
        carve: false,
        entropy: false,
        matryoshka: true,
        filter_in: Some(String::from(" zip , png ")),
        filter_out: None,
        threads: Some(2),
        directory: Some(String::from("/tmp/x")),
        verbose: false,
        quiet: false,
    };
    let c = translate(&opts, Some(String::from("fw.bin")));
    assert_eq!(c.target_name.as_deref(), Some("fw.bin"));
    assert_eq!(c.directory.as_deref(), Some("/tmp/x"));
    assert_eq!(c.filter_in, Some(vec![String::from("zip"), String::from("png")]));
    assert_eq!(c.filter_out, None);
    assert!(c.do_extract);
    assert!(c.recursive);
    assert_eq!(c.threads, Some(2));
}

#[test]
fn translate_absent_filter_stays_absent() {
    let o = resolve_options(None);
    let c = translate(&o, None);
    assert_eq!(c.filter_in, None);
    assert_eq!(c.filter_out, None);
    assert!(!c.do_extract);
    assert_eq!(c.target_name, None);
}

#[test]
fn decimal_rendering_exact() {
    assert_eq!(u64_to_dec(0), "0");
    assert_eq!(u64_to_dec(9), "9");
    assert_eq!(u64_to_dec(10), "10");
    assert_eq!(u64_to_dec(1234567890), "1234567890");
    assert_eq!(u64_to_dec(u64::MAX), "18446744073709551615");
}
