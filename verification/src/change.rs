//! File changes: a path with its contents before and after.
use vstd::prelude::*;
use vstd::utf8::{decode_utf8, valid_utf8};
use crate::git::utf8_text;
use crate::text::{chars_of, text_with};

verus! {

/// The largest source file or encoded change record, in bytes (64 KiB).
pub const MAX_FILE_BYTES: usize = 65536;

/// A full check of the current contents, or a check of a change against a
/// base assumed to comply.
#[derive(Clone, Copy, Debug, PartialEq, Eq, Structural)]
pub enum Mode {
    Full,
    Diff,
}

#[derive(Clone, Copy, Debug, PartialEq, Eq, Structural)]
pub enum ChangeKind {
    Added,
    Modified,
    Deleted,
    Renamed,
}

/// A change record. `None` contents mean that the file does not exist on
/// that side.
#[derive(Clone, Debug)]
pub struct Change {
    pub path: String,
    pub previous_path: Option<String>,
    pub kind: ChangeKind,
    pub before: Option<String>,
    pub after: Option<String>,
}

/// The kind of a change with the given sides: added when there was no
/// file before, deleted when there is none after, modified otherwise.
pub open spec fn kind_of(before: bool, after: bool) -> ChangeKind {
    if !before {
        ChangeKind::Added
    } else if !after {
        ChangeKind::Deleted
    } else {
        ChangeKind::Modified
    }
}

impl Change {
    pub fn new(path: String, before: Option<String>, after: Option<String>) -> (r: Self)
        ensures
            r.path == path,
            r.previous_path is None,
            r.before == before,
            r.after == after,
            r.kind == kind_of(before is Some, after is Some),
    {
        let kind = match (&before, &after) {
            (None, _) => ChangeKind::Added,
            (_, None) => ChangeKind::Deleted,
            _ => ChangeKind::Modified,
        };
        Change { path, previous_path: None, kind, before, after }
    }

    /// The change of a path that was renamed from `previous`.
    pub fn renamed_from(self, previous: String) -> (r: Self)
        ensures
            r.path == self.path,
            r.previous_path == Some(previous),
            r.before == self.before,
            r.after == self.after,
            r.kind == ChangeKind::Renamed,
    {
        Change { previous_path: Some(previous), kind: ChangeKind::Renamed, ..self }
    }
}

/// The text of a source file read as `bytes`: at most `MAX_FILE_BYTES`
/// bytes, no NUL byte, and UTF-8; otherwise the problem, naming `path`.
pub fn file_text(bytes: &[u8], path: &str) -> (r: Result<String, String>)
    ensures
        match r {
            Ok(s) => bytes@.len() <= MAX_FILE_BYTES && !bytes@.contains(0u8) && valid_utf8(bytes@)
                && s@ == decode_utf8(bytes@),
            Err(e) => if bytes@.len() > MAX_FILE_BYTES {
                e@ == "source file exceeds 64 KiB: "@ + path@
            } else if bytes@.contains(0u8) {
                e@ == "binary input cannot establish contract compliance: "@ + path@
            } else {
                !valid_utf8(bytes@) && e@ == "source file is not UTF-8: "@ + path@
            },
        },
{
    if bytes.len() > MAX_FILE_BYTES {
        return Err(text_with("source file exceeds 64 KiB: ", &chars_of(path)));
    }
    let mut k: usize = 0;
    while k < bytes.len()
        invariant
            k <= bytes@.len() <= MAX_FILE_BYTES,
            forall|j: int| 0 <= j < k ==> bytes@[j] != 0u8,
        decreases bytes@.len() - k,
    {
        if bytes[k] == 0u8 {
            assert(bytes@[k as int] == 0u8);
            return Err(text_with("binary input cannot establish contract compliance: ", &chars_of(path)));
        }
        k += 1;
    }
    match utf8_text(bytes) {
        Ok(s) => Ok(s),
        Err(_) => Err(text_with("source file is not UTF-8: ", &chars_of(path))),
    }
}

/// Accepts the JSON encoding of a change record as model input when it
/// fits in `MAX_FILE_BYTES`; inputs are never truncated.
pub fn source_text(encoded: String) -> (r: Result<String, String>)
    ensures
        r is Ok <==> vstd::utf8::encode_utf8(encoded@).len() <= MAX_FILE_BYTES,
        r matches Ok(t) ==> t == encoded,
        r matches Err(m) ==> m@ == "before/after input exceeds 64 KiB; input was not truncated"@,
{
    if encoded.as_str().as_bytes().len() <= MAX_FILE_BYTES {
        Ok(encoded)
    } else {
        Err(crate::text::text("before/after input exceeds 64 KiB; input was not truncated"))
    }
}

} // verus!
