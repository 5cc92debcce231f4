//! The editor-facing result envelope and error taxonomy, and the patching
//! discipline shared by the partially-updatable records: a patch either
//! leaves a field alone or replaces it, and applying a patch is a pure
//! function of the record and the patch.

use vstd::prelude::*;

verus! {

/// The result envelope every editor operation answers with: either an error
/// or a value, never both.
pub struct ApiResult<T> {
    pub error: Option<ApiError>,
    pub data: Option<T>,
}

/// The error taxonomy of the editor operations.
#[derive(Debug)]
pub enum ApiError {
    NotFound,
    BadRequest(String),
    Unauthorized,
    Other(String),
}

impl Clone for ApiError {
    fn clone(&self) -> (r: Self)
        ensures
            r == *self,
    {
        match self {
            ApiError::NotFound => ApiError::NotFound,
            ApiError::BadRequest(m) => ApiError::BadRequest(m.clone()),
            ApiError::Unauthorized => ApiError::Unauthorized,
            ApiError::Other(m) => ApiError::Other(m.clone()),
        }
    }
}

impl<T> ApiResult<T> {
    /// Wraps an error; no data is carried.
    pub fn new_error(error: ApiError) -> (r: ApiResult<T>)
        ensures
            r.error == Some(error),
            r.data is None,
    {
        ApiResult { error: Some(error), data: None }
    }

    /// Wraps a value; no error is carried.
    pub fn new_data(data: T) -> (r: ApiResult<T>)
        ensures
            r.error is None,
            r.data == Some(data),
    {
        ApiResult { error: None, data: Some(data) }
    }
}

/// Applying a patch of type `P` to a record yields a `T`; which inputs are
/// patchable and how result and record relate to the patched record are
/// fixed by the implementing record, as an exact relation over the records'
/// mathematical values.
pub trait Patch<P, T>: Sized {
    /// The inputs on which patching is defined.
    spec fn patch_ok(&self, patch: &P) -> bool;

    /// How the returned value and the record after the call relate to the
    /// record before it and the patch.
    spec fn patch_rel(&self, patch: &P, r: &T, after: &Self) -> bool;

    fn patch(&mut self, patch: P) -> (r: T)
        requires
            old(self).patch_ok(&patch),
        ensures
            old(self).patch_rel(&patch, &r, final(self)),
    ;
}

} // verus!
