//! The foreign-string bridge: turning the contents of a foreign string
//! handle into an owned string while deciding the fate of the foreign
//! allocation, and viewing a native path value as borrowed bytes for
//! handing to foreign calls.

use crate::utf8::{decode_lossy, decode_utf8_lossy, encode_str, lemma_decode_lossy_of_encode};
use vstd::prelude::*;
use vstd::utf8::encode_utf8;

verus! {

/// What the caller must do with a foreign string handle after conversion.
#[derive(Clone, Copy, Debug, PartialEq, Eq)]
pub enum HandleAction {
    /// The handle was null: nothing was allocated and nothing may be freed.
    Keep,
    /// The handle owned an allocation: the caller must pass it to the
    /// foreign deallocation entry point exactly once, and never use the
    /// handle again.
    Release,
}

/// Converts the contents of a foreign string handle into an owned string,
/// deciding whether the foreign allocation must be released.
///
/// `handle` is `None` for a null pointer, and otherwise holds the bytes up
/// to (not including) the null terminator. A null handle yields the empty
/// string and no deallocation; any other handle yields the lossy decoding
/// of its bytes — invalid encoding sequences degrade to replacement
/// characters rather than failing — and its allocation is to be released
/// exactly once.
pub fn handle_to_string(handle: Option<Vec<u8>>) -> (r: (String, HandleAction))
    ensures
        match handle {
            None => r.0@ == Seq::<char>::empty() && r.1 is Keep,
            Some(bytes) => r.0@ == decode_lossy(bytes@) && r.1 is Release,
        },
{
    match handle {
        None => (String::new(), HandleAction::Keep),
        Some(bytes) => (decode_utf8_lossy(&bytes), HandleAction::Release),
    }
}

/// A platform-native path value, modelled as the byte sequence the platform
/// stores for it: on platforms whose native path text is an arbitrary byte
/// sequence, the bytes themselves; on platforms whose native path text is
/// validated text, the UTF-8 encoding of that text.
pub struct NativePath {
    bytes: Vec<u8>,
}

impl View for NativePath {
    type V = Seq<u8>;

    closed spec fn view(&self) -> Seq<u8> {
        self.bytes@
    }
}

impl NativePath {
    /// Builds a path from its native bytes (the arbitrary-byte platform
    /// family).
    pub fn from_bytes(bytes: Vec<u8>) -> (p: NativePath)
        ensures
            p@ == bytes@,
    {
        NativePath { bytes }
    }

    /// Builds a path from its displayed text (the validated-text platform
    /// family): the native bytes are the UTF-8 encoding of that text.
    pub fn from_text(text: &str) -> (p: NativePath)
        ensures
            p@ == encode_utf8(text@),
    {
        NativePath { bytes: encode_str(text) }
    }
}

/// A byte sequence that ends with a null terminator.
pub open spec fn nul_terminated(s: Seq<u8>) -> bool {
    s.len() > 0 && s[s.len() - 1] == 0
}

/// Views a path as its native bytes, without allocating or copying: the
/// result borrows the path's own bytes, so its contents cannot change
/// while the borrow lives unless the path value itself does.
pub fn path_to_bytes(path: &NativePath) -> (b: &[u8])
    ensures
        b@ == path@,
{
    path.bytes.as_slice()
}

/// Views a path as a borrowed null-terminated string. The path's bytes
/// must already end with the null terminator; no scan for it is performed,
/// and none is added.
pub fn path_to_cstr(path: &NativePath) -> (b: &[u8])
    requires
        nul_terminated(path@),
    ensures
        b@ == path@,
        nul_terminated(b@),
{
    path_to_bytes(path)
}

/// For any path value whose bytes are the encoding of its displayed text —
/// as `from_text` builds them — the byte view decodes back to exactly that
/// text.
pub proof fn lemma_path_view_decodes_to_text(path: NativePath, text: Seq<char>)
    requires
        path@ == encode_utf8(text),
    ensures
        decode_lossy(path@) == text,
{
    lemma_decode_lossy_of_encode(text);
}

} // verus!
