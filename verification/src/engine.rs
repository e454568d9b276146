//! The engine adapter: the analysis engine is an outside collaborator, used
//! through a handful of trusted declarations.  Everything decided around the
//! calls — which target shapes are refused so the engine's path handling
//! cannot abort, when extraction runs at all, what an absent filename
//! defaults to, how a failure surfaces — is verified here.

use crate::intake::RequestError;
use crate::options::EngineConfig;
use crate::text::str_to_chars;
use vstd::prelude::*;

verus! {

#[verifier::external_type_specification]
#[verifier::external_body]
pub struct ExBinwalk(binwalk::Binwalk);

#[verifier::external_type_specification]
#[verifier::external_body]
pub struct ExBinwalkError(binwalk::BinwalkError);

#[verifier::external_type_specification]
#[verifier::external_body]
pub struct ExSignatureResult(binwalk::signatures::common::SignatureResult);

/// One signature match as the engine reports it: a byte offset into the
/// input, a human-readable description, and a size (zero if unknown).
pub struct SigMatch {
    pub offset: usize,
    pub description: String,
    pub size: usize,
}

/// What one engine run reports: the matches in the order the engine returned
/// them, and for each extraction identifier the directory the engine wrote
/// artifacts into.
pub struct EngineReport {
    pub file_map: Vec<SigMatch>,
    pub extraction_dirs: Vec<(String, String)>,
}

/// A name that stays a single normal path component: non-empty, free of
/// path separators, and not a dot component.  The
/// engine resolves its target name to an absolute path and takes that path's
/// final component without checking for one; only these shapes are handed to
/// it when an output directory is set.
pub open spec fn plain_file_name(s: Seq<char>) -> bool {
    &&& s.len() > 0
    &&& forall|i: int| 0 <= i < s.len() ==> s[i] != '/' && s[i] != '\\'
    &&& s != "."@
    &&& s != ".."@
}

/// Whether a target name is a single normal path component.
pub fn is_plain_file_name(s: &String) -> (r: bool)
    ensures
        r == plain_file_name(s@),
{
    let dot: String = ".".to_owned();
    let dotdot: String = "..".to_owned();
    if s.eq(&dot) || s.eq(&dotdot) {
        return false;
    }
    let chars = str_to_chars(s.as_str());
    if chars.len() == 0 {
        return false;
    }
    let n = chars.len();
    let mut i: usize = 0;
    while i < n
        invariant
            n == chars@.len(),
            chars@ == s@,
            0 <= i <= n,
            forall|j: int| 0 <= j < i ==> chars@[j] != '/' && chars@[j] != '\\',
        decreases n - i,
    {
        if chars[i] == '/' || chars[i] == '\\' {
            return false;
        }
        i = i + 1;
    }
    true
}

/// The name an upload is analyzed under: the declared filename, or the fixed
/// fallback for an upload that declared none.
pub open spec fn effective_name(t: Option<Seq<char>>) -> Seq<char> {
    match t {
        Some(f) => f,
        None => "upload.bin"@,
    }
}

/// Resolves the name an upload is analyzed under.
pub fn effective_target_name(filename: Option<String>) -> (n: String)
    ensures
        n@ == effective_name(filename.deep_view()),
{
    match filename {
        Some(f) => f,
        None => "upload.bin".to_owned(),
    }
}

/// A configured engine instance, carrying the filters it was configured
/// with, recorded where the instance is made.
pub struct Engine {
    bw: binwalk::Binwalk,
    names_in: Option<Vec<String>>,
    names_out: Option<Vec<String>>,
}

/// One scan's outcome, inseparable from the instance that produced it: the
/// engine's own match values (as its extractor needs them) together with
/// their converted projection.  Extraction can only ever see matches that
/// this same instance's scan returned.
pub struct EngineSession {
    bw: binwalk::Binwalk,
    found: Vec<binwalk::signatures::common::SignatureResult>,
    matches: Vec<SigMatch>,
}

impl EngineSession {
    /// The scan's outcome, projected to plain values, in the engine's order.
    pub closed spec fn matches_view(&self) -> Seq<SigMatch> {
        self.matches@
    }
}

/// Relies on `binwalk::Binwalk::configure`: builds an engine instance for the
/// given target name, extraction output directory and signature-name filters
/// (no custom signature set, no full search), or reports that it could not.
/// When both a target and a directory are given, the engine takes the final
/// component of the target's absolute path without checking for one, so a
/// target that is not a plain file name is not admitted here.
#[verifier::external_body]
fn engine_configure(
    target: Option<String>,
    directory: Option<String>,
    names_in: Option<Vec<String>>,
    names_out: Option<Vec<String>>,
) -> (r: Result<Engine, binwalk::BinwalkError>)
    requires
        match target {
            Some(t) => directory is Some ==> plain_file_name(t@),
            None => true,
        },
    ensures
        r matches Ok(e) ==> {
            &&& e.names_in.deep_view() == names_in.deep_view()
            &&& e.names_out.deep_view() == names_out.deep_view()
        },
{
    match binwalk::Binwalk::configure(
        target,
        directory,
        names_in.clone(),
        names_out.clone(),
        None,
        false,
    ) {
        Ok(bw) => Ok(Engine { bw, names_in, names_out }),
        Err(e) => Err(e),
    }
}

/// Relies on `binwalk::Binwalk::scan`: the engine's signature matches for a
/// byte buffer, projected one for one to their offsets, descriptions and
/// sizes.  Two scans of the same bytes need not agree — the engine breaks
/// same-offset ties through each match's randomly drawn identifier — so the
/// outcome carries no name; what holds of every outcome is stated: the
/// projection is one to one with the raw matches, and the engine hands the
/// list back sorted by offset.  The engine's own parsers run over untrusted
/// bytes here; their arithmetic is the engine's ground, not delimitable from
/// outside.
#[verifier::external_body]
fn engine_scan(engine: Engine, data: &Vec<u8>) -> (s: EngineSession)
    ensures
        s.matches@.len() == s.found@.len(),
        forall|a: int, b: int|
            0 <= a <= b < s.matches@.len() ==> s.matches@[a].offset <= s.matches@[b].offset,
{
    let found = engine.bw.scan(data);
    let matches = found
        .iter()
        .map(|m| SigMatch { offset: m.offset, description: m.description.clone(), size: m.size })
        .collect();
    EngineSession { bw: engine.bw, found, matches }
}

/// Relies on `binwalk::Binwalk::base_target_file`: the absolute path the
/// engine resolved for the target name it was configured with.
#[verifier::external_body]
fn engine_target(s: &EngineSession) -> (p: String) {
    s.bw.base_target_file.clone()
}

/// Relies on `binwalk::Binwalk::extract`: runs the engine's extractors over
/// the session's matches and reports, per extraction identifier, the
/// directory the extractor dropped files into.  The matches are the ones
/// this same instance's scan returned, so every match name has an entry in
/// the instance's extractor table (the engine indexes it unchecked).  The
/// engine hands the pairs back as a hash map, so they come in no promised
/// order.
#[verifier::external_body]
fn engine_extract(s: &EngineSession, data: &Vec<u8>, path: &String) -> (r: Vec<(String, String)>) {
    s.bw
        .extract(data, path, &s.found)
        .into_iter()
        .map(|e: (String, _)| (e.0, e.1.output_directory))
        .collect()
}

/// Configures the engine for a request and scans the uploaded buffer: at
/// most one scan per request.  A target name the engine would choke on
/// (anything but a plain file name, when an output directory is set) is
/// refused up front; a configuration the engine itself refuses surfaces as
/// `EngineFailure`.
pub fn scan_upload(config: EngineConfig, data: &Vec<u8>) -> (r: Result<EngineSession, RequestError>)
    ensures
        r matches Err(e) ==> e == RequestError::EngineFailure,
        config.directory is Some && !plain_file_name(
            effective_name(config.target_name.deep_view()),
        ) ==> r is Err,
        r matches Ok(s) ==> forall|a: int, b: int|
            0 <= a <= b < s.matches_view().len() ==> s.matches_view()[a].offset
                <= s.matches_view()[b].offset,
{
    let name = effective_target_name(config.target_name);
    if config.directory.is_some() && !is_plain_file_name(&name) {
        return Err(RequestError::EngineFailure);
    }
    let engine = match engine_configure(
        Some(name),
        config.directory,
        config.filter_in,
        config.filter_out,
    ) {
        Ok(e) => e,
        Err(_) => {
            return Err(RequestError::EngineFailure);
        },
    };
    Ok(engine_scan(engine, data))
}

/// Completes one engine run from a scan's outcome: the session's matches
/// reach the report unmodified and in the engine's order, and extraction
/// runs only when asked for and only when something matched, so a request
/// that does not ask for extraction — or whose scan found nothing — never
/// reports an extraction directory.
pub fn finish_analysis(session: EngineSession, data: &Vec<u8>, do_extract: bool) -> (rep:
    EngineReport)
    ensures
        rep.file_map@ == session.matches_view(),
        !do_extract ==> rep.extraction_dirs@.len() == 0,
        rep.file_map@.len() == 0 ==> rep.extraction_dirs@.len() == 0,
{
    let extraction_dirs: Vec<(String, String)> = if do_extract && session.matches.len() > 0 {
        let path = engine_target(&session);
        engine_extract(&session, data, &path)
    } else {
        Vec::new()
    };
    EngineReport { file_map: session.matches, extraction_dirs }
}

/// One engine run over an uploaded buffer: scan, then completion.  The
/// stage contracts carry the exact statements (`scan_upload` for refusal and
/// order, `finish_analysis` for the pass-through of the matches); this
/// composition restates what survives it.
pub fn run_engine(config: EngineConfig, data: &Vec<u8>) -> (r: Result<EngineReport, RequestError>)
    ensures
        r matches Err(e) ==> e == RequestError::EngineFailure,
        config.directory is Some && !plain_file_name(
            effective_name(config.target_name.deep_view()),
        ) ==> r is Err,
        r matches Ok(rep) ==> {
            &&& (!config.do_extract ==> rep.extraction_dirs@.len() == 0)
            &&& (rep.file_map@.len() == 0 ==> rep.extraction_dirs@.len() == 0)
            &&& forall|a: int, b: int|
                0 <= a <= b < rep.file_map@.len() ==> rep.file_map@[a].offset
                    <= rep.file_map@[b].offset
        },
{
    let do_extract = config.do_extract;
    match scan_upload(config, data) {
        Ok(session) => Ok(finish_analysis(session, data, do_extract)),
        Err(e) => Err(e),
    }
}

} // verus!
