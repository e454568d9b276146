//! The download gateway and the response shape: resolving a token to its
//! payload (or a clean not-found), and assembling what an analysis request
//! answers with.

use crate::engine::SigMatch;
use crate::intake::RequestError;
use crate::store::BlobStore;
use vstd::prelude::*;

verus! {

/// What an analysis request answers with: the engine's matches, the download
/// URL per extraction identifier, and whether an entropy series is present.
/// Entropy computation is an outside responsibility and unimplemented, so a
/// present series is always empty; the flag alone decides whether the wire
/// carries an empty series or none at all.
pub struct AnalyzeResponse {
    pub file_map: Vec<SigMatch>,
    pub extractions: Vec<(String, String)>,
    pub entropy_present: bool,
}

/// Assembles the response: the matches and URLs exactly as produced, the
/// entropy series present exactly when the client asked for one.
pub fn build_response(
    file_map: Vec<SigMatch>,
    extractions: Vec<(String, String)>,
    want_entropy: bool,
) -> (r: AnalyzeResponse)
    ensures
        r.file_map == file_map,
        r.extractions == extractions,
        r.entropy_present == want_entropy,
{
    AnalyzeResponse { file_map, extractions, entropy_present: want_entropy }
}

/// Resolves a download token: the exact stored payload on a hit, `NotFound`
/// for a token the store never issued, and nothing else.  Reading deletes
/// nothing, so a token can be downloaded any number of times.
pub fn resolve_download(store: &BlobStore, token: &String) -> (r: Result<Vec<u8>, RequestError>)
    requires
        store.wf(),
    ensures
        r is Ok <==> store@.contains_key(token@),
        r matches Ok(d) ==> d@ == store@[token@],
        r matches Err(e) ==> e == RequestError::NotFound,
{
    match store.get(token) {
        Some(d) => Ok(d),
        None => Err(RequestError::NotFound),
    }
}

} // verus!
