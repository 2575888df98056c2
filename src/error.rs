use vstd::prelude::*;

verus! {

/// The kinds of failure a transport operation reports.
#[derive(Debug, Clone, PartialEq, Eq)]
pub enum Error {
    NotFound,
    AlreadyExists,
    PermissionDenied,
    Unsupported,
    UnexpectedEof,
    MalformedLocator,
    /// Any other native failure, with its description.
    IoFailure(String),
}

/// The kind of a native failure, as the platform reports it.
#[derive(Debug, Clone, Copy, PartialEq, Eq, Structural)]
pub enum NativeKind {
    NotFound,
    AlreadyExists,
    PermissionDenied,
    Unsupported,
    UnexpectedEof,
    InvalidInput,
    Other,
}

/// The transport error for a native failure of kind `kind`; kinds without
/// an error of their own become `IoFailure` with the native description.
pub fn native_error(kind: NativeKind, detail: String) -> (r: Error)
    ensures
        r == (match kind {
            NativeKind::NotFound => Error::NotFound,
            NativeKind::AlreadyExists => Error::AlreadyExists,
            NativeKind::PermissionDenied => Error::PermissionDenied,
            NativeKind::Unsupported => Error::Unsupported,
            NativeKind::UnexpectedEof => Error::UnexpectedEof,
            _ => Error::IoFailure(detail),
        }),
{
    match kind {
        NativeKind::NotFound => Error::NotFound,
        NativeKind::AlreadyExists => Error::AlreadyExists,
        NativeKind::PermissionDenied => Error::PermissionDenied,
        NativeKind::Unsupported => Error::Unsupported,
        NativeKind::UnexpectedEof => Error::UnexpectedEof,
        _ => Error::IoFailure(detail),
    }
}

/// The transport error for a failed read of a symlink: a path that is not a
/// symlink (reported as invalid input) counts as `NotFound`.
pub fn readlink_error(kind: NativeKind, detail: String) -> (r: Error)
    ensures
        kind == NativeKind::InvalidInput ==> r == Error::NotFound,
        kind != NativeKind::InvalidInput ==> r == (match kind {
            NativeKind::NotFound => Error::NotFound,
            NativeKind::AlreadyExists => Error::AlreadyExists,
            NativeKind::PermissionDenied => Error::PermissionDenied,
            NativeKind::Unsupported => Error::Unsupported,
            NativeKind::UnexpectedEof => Error::UnexpectedEof,
            _ => Error::IoFailure(detail),
        }),
{
    if kind == NativeKind::InvalidInput {
        Error::NotFound
    } else {
        native_error(kind, detail)
    }
}

} // verus!
