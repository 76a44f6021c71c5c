use vstd::prelude::*;

verus! {

/// Why an archive entry was refused, or an extraction step failed.
///
/// Every error is fatal to the whole extraction run: the first failing
/// entry aborts extraction and whatever was already written stays on disk.
#[derive(Clone, Copy, Debug, PartialEq, Eq, Structural)]
pub enum ExtractError {
    /// The encoding detector had low confidence in its guess for the
    /// entry name's character encoding.
    EncodingUncertain,
    /// Decoding the guessed encoding produced replacement characters, or
    /// the decoded name is empty.
    MalformedName,
    /// The decoded entry name contains a NUL character.
    EmbeddedNul,
    /// The entry name starts with a root marker.
    AbsolutePathRejected,
    /// The entry name holds a drive or prefix marker.
    PrefixRejected,
    /// The entry name's directory depth overflows the depth counter.
    PathTooDeep,
    /// Parent-directory references in the entry name ascend above the
    /// extraction root.
    PathEscapesRoot,
    /// The stored last-modified value is not a valid calendar date and time.
    TimeConversionError,
    /// Two entries resolve to the same target file path; the second one
    /// must not overwrite the first.
    FileAlreadyExists,
    /// The entry is neither a regular file nor a directory.
    UnsupportedEntryKind,
}

} // verus!
