//! Request intake: deciding what a multipart upload contains.  The transport
//! hands over the decoded parts as plain values; this module picks the file
//! payload and the raw option blob out of them, and rejects an upload with no
//! file part before any engine work happens.

use crate::options::clone_opt_string;
use crate::store::copy_bytes;
use vstd::prelude::*;

verus! {

/// One decoded part of a multipart body: its field name, its declared
/// filename if any, and its raw bytes.
pub struct Part {
    pub name: String,
    pub filename: Option<String>,
    pub data: Vec<u8>,
}

/// The error kinds the pipeline surfaces to a client.  A malformed option
/// blob and an unreadable extraction directory are absorbed where they arise
/// (defaults used, extraction skipped) and so never appear here.
#[derive(Clone, Copy, Debug, PartialEq, Eq, Structural)]
pub enum RequestError {
    /// The upload carried no `file` part.
    MissingFile,
    /// The engine could not be configured for the request.
    EngineFailure,
    /// A download token that was never issued.
    NotFound,
}

/// Whether some part carries this field name.
pub open spec fn has_part(parts: Seq<Part>, name: Seq<char>) -> bool {
    exists|i: int| 0 <= i < parts.len() && #[trigger] parts[i].name@ == name
}

/// The part a repeated field name resolves to: the last one, as an
/// overwrite-on-repeat reading of the body.
pub open spec fn last_part(parts: Seq<Part>, name: Seq<char>) -> Part
    decreases parts.len(),
{
    if parts.len() == 0 {
        arbitrary()
    } else if parts.last().name@ == name {
        parts.last()
    } else {
        last_part(parts.drop_last(), name)
    }
}

/// What intake extracts from an upload.
pub struct Upload {
    pub file_bytes: Vec<u8>,
    pub filename: Option<String>,
    pub options_blob: Option<Vec<u8>>,
}

/// Scans the decoded parts of a multipart body.  A part named `file` yields
/// the payload and declared filename, a part named `options` the raw option
/// blob; unrecognized names are ignored, repeats overwrite.  An upload with
/// no `file` part is refused outright, never analyzed as zero bytes.
pub fn scan_parts(parts: Vec<Part>) -> (r: Result<Upload, RequestError>)
    ensures
        r is Err <==> !has_part(parts@, "file"@),
        r matches Err(e) ==> e == RequestError::MissingFile,
        r matches Ok(u) ==> {
            &&& u.file_bytes@ == last_part(parts@, "file"@).data@
            &&& u.filename == last_part(parts@, "file"@).filename
            &&& has_part(parts@, "options"@) ==> (u.options_blob matches Some(b) && b@
                == last_part(parts@, "options"@).data@)
            &&& !has_part(parts@, "options"@) ==> u.options_blob is None
        },
{
    let file_tag: String = "file".to_owned();
    let options_tag: String = "options".to_owned();
    let n = parts.len();
    let mut file_bytes: Option<Vec<u8>> = None;
    let mut filename: Option<String> = None;
    let mut options_blob: Option<Vec<u8>> = None;
    let mut i: usize = 0;
    while i < n
        invariant
            0 <= i <= n,
            n == parts@.len(),
            file_tag@ == "file"@,
            options_tag@ == "options"@,
            has_part(parts@.take(i as int), "file"@) <==> file_bytes is Some,
            file_bytes matches Some(b) ==> {
                &&& b@ == last_part(parts@.take(i as int), "file"@).data@
                &&& filename == last_part(parts@.take(i as int), "file"@).filename
            },
            has_part(parts@.take(i as int), "options"@) <==> options_blob is Some,
            options_blob matches Some(b) ==> b@ == last_part(
                parts@.take(i as int),
                "options"@,
            ).data@,
        decreases n - i,
    {
        let ghost prefix = parts@.take(i as int);
        let part = &parts[i];
        if part.name.eq(&file_tag) {
            file_bytes = Some(copy_bytes(&part.data));
            filename = clone_opt_string(&part.filename);
        } else if part.name.eq(&options_tag) {
            options_blob = Some(copy_bytes(&part.data));
        }
        i = i + 1;
        proof {
            reveal_strlit("file");
            reveal_strlit("options");
            assert("file"@.len() != "options"@.len());
            let now = parts@.take(i as int);
            assert(now.drop_last() =~= prefix);
            assert(now.last() == parts@[i - 1]);
            if has_part(prefix, "file"@) {
                let w = choose|j: int|
                    0 <= j < prefix.len() && #[trigger] prefix[j].name@ == "file"@;
                assert(now[w].name@ == "file"@);
            }
            if has_part(prefix, "options"@) {
                let w = choose|j: int|
                    0 <= j < prefix.len() && #[trigger] prefix[j].name@ == "options"@;
                assert(now[w].name@ == "options"@);
            }
            if parts@[i - 1].name@ == "file"@ {
                assert(now[i - 1].name@ == "file"@);
            }
            if parts@[i - 1].name@ == "options"@ {
                assert(now[i - 1].name@ == "options"@);
            }
            if has_part(now, "file"@) && !has_part(prefix, "file"@) && parts@[i - 1].name@
                != "file"@ {
                let w = choose|j: int| 0 <= j < now.len() && #[trigger] now[j].name@ == "file"@;
                assert(prefix[w].name@ == "file"@);
            }
            if has_part(now, "options"@) && !has_part(prefix, "options"@) && parts@[i - 1].name@
                != "options"@ {
                let w = choose|j: int|
                    0 <= j < now.len() && #[trigger] now[j].name@ == "options"@;
                assert(prefix[w].name@ == "options"@);
            }
        }
    }
    proof {
        assert(parts@.take(n as int) =~= parts@);
    }
    match file_bytes {
        None => Err(RequestError::MissingFile),
        Some(b) => Ok(Upload { file_bytes: b, filename, options_blob }),
    }
}

} // verus!
