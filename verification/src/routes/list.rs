//! The listing of the stored audio.

use vstd::prelude::*;
use crate::text;
use crate::utils::{e500, AppError};

verus! {

/// The keys of the stored audio.
pub struct ListResponse {
    pub keys: Vec<String>,
}

/// Answers a listing by what the storage gave: its keys, or the text of its error.
pub fn list_handler(listed: Result<Vec<String>, String>) -> (r: Result<ListResponse, AppError>)
    ensures
        match listed {
            Ok(keys) => r is Ok && r->Ok_0.keys == keys,
            Err(e) => r is Err && r->Err_0.says(500, "Failed to list audio files: "@ + e@),
        },
{
    match listed {
        Ok(keys) => Ok(ListResponse { keys }),
        Err(e) => Err(e500(text::cat("Failed to list audio files: ", e.as_str()))),
    }
}

} // verus!
