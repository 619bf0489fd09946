use vstd::prelude::*;
use vstd::string::StringExecFns;

verus! {

/// What a loader answers for a resource.
pub enum LoaderResult {
    /// The resource is not available yet (it is still being fetched); a later
    /// call with the same url will answer again.
    Again,
    /// The resource's bytes.
    Bytes(Vec<u8>),
    /// The resource could not be loaded.
    Failed(BytesLoaderErr),
}

/// Turns a url into bytes, possibly over several calls (see
/// [`LoaderResult::Again`]).
pub trait BytesLoader {
    fn load(&self, url: &str) -> LoaderResult;
}

/// Why a loader failed.
#[derive(Debug, Clone, PartialEq, Eq)]
pub enum BytesLoaderErr {
    NotFound,
    Unknown(String),
}

impl BytesLoaderErr {
    /// The error as text: `not found`, or `unknown error: ` and the message.
    pub fn message(&self) -> (r: String)
        ensures
            self is NotFound ==> r@ == "not found"@,
            self matches BytesLoaderErr::Unknown(m) ==> r@ == "unknown error: "@ + m@,
    {
        match self {
            BytesLoaderErr::NotFound => "not found".to_owned(),
            BytesLoaderErr::Unknown(m) => "unknown error: ".to_owned().concat(m.as_str()),
        }
    }
}

/// Selects loading from the local file system.
#[derive(Debug, Clone, Copy, PartialEq, Eq, Structural)]
pub struct FsBytesLoader;

impl FsBytesLoader {
    pub fn new() -> (r: Self)
        ensures
            r == FsBytesLoader,
    {
        FsBytesLoader
    }
}

} // verus!
