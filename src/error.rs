use vstd::prelude::*;

verus! {

/// What is wrong with an entry's name or with the container's framing.
#[derive(Clone, Copy, Debug, PartialEq, Eq, Structural)]
pub enum FormatIssue {
    /// The entry has an empty name.
    EmptyName,
    /// The entry's name starts with '/'.
    AbsoluteName,
    /// The entry's name holds the host's own path separator (one other than
    /// '/'), which would split it into other components on disk.
    HostSeparator,
    /// One of the name's components is `..`.
    ParentReference,
    /// A file entry whose name has no component left after normalisation.
    MissingFileName,
    /// The container's own framing could not be decoded.
    Malformed,
}

/// The failures an extraction or a build can end with.
#[derive(Clone, Copy, Debug, PartialEq, Eq, Structural)]
pub enum ArchiveError {
    /// Reading the input or writing the output stream failed.
    Stream,
    /// The container or one of its entries is structurally invalid.
    Format(FormatIssue),
    /// Creating something under the destination failed.
    Filesystem,
    /// An event arrived that the extraction protocol does not allow in its current state.
    OutOfOrder,
}

} // verus!
