//! What the routes share: where source audio comes from, and the answer with audio.

use bytes::Bytes;
use vstd::prelude::*;
use crate::blob;
use crate::blob::AudioBuffer;
use crate::middleware;
use crate::middleware::{AudioResponse, CacheMissContext, CacheWrite};
use crate::text;
use crate::utils::{e404, e413, AppError};

verus! {

/// Whether a key is a remote URL.
pub open spec fn remote(key: Seq<char>) -> bool {
    text::begins_with(key, "https://"@) || text::begins_with(key, "http://"@)
}

/// Whether a key is a remote URL.
pub fn is_remote(key: &str) -> (b: bool)
    ensures
        b == remote(key@),
{
    text::starts_with(key, "https://") || text::starts_with(key, "http://")
}

/// What a fetch of source audio gave.
pub enum Fetched {
    /// From a remote URL: audio, or the error to answer with.
    Remote(Result<AudioBuffer, AppError>),
    /// From the storage: audio, or the text of an error.
    Stored(Result<AudioBuffer, String>),
}

/// The text of the error for audio that is too large.
pub open spec fn too_large(len: nat, max: nat) -> Seq<char> {
    "Source audio too large: "@ + text::decimal(len) + " bytes (max "@ + text::decimal(max) + ")"@
}

/// Whether a result is what becomes of fetched audio.
pub open spec fn accepts(
    fetched: Fetched,
    max_source_size: nat,
    r: Result<AudioBuffer, AppError>,
) -> bool {
    match fetched {
        Fetched::Remote(Err(e)) => r == Err::<AudioBuffer, AppError>(e),
        Fetched::Stored(Err(e)) => r is Err && r->Err_0.says(404, "Failed to fetch audio: "@ + e@),
        Fetched::Remote(Ok(b)) => if b.bytes().len() > max_source_size {
            r is Err && r->Err_0.says(413, too_large(b.bytes().len(), max_source_size))
        } else {
            r == Ok::<AudioBuffer, AppError>(b)
        },
        Fetched::Stored(Ok(b)) => if b.bytes().len() > max_source_size {
            r is Err && r->Err_0.says(413, too_large(b.bytes().len(), max_source_size))
        } else {
            r == Ok::<AudioBuffer, AppError>(b)
        },
    }
}

/// The error for audio that is too large.
fn too_large_error(len: usize, max: usize) -> (e: AppError)
    ensures
        e.says(413, too_large(len as nat, max as nat)),
{
    let mut s: String = text::cat(
        "Source audio too large: ",
        text::decimal_text(len as u64).as_str(),
    );
    s.append(" bytes (max ");
    s.append(text::decimal_text(max as u64).as_str());
    s.append(")");
    e413(s)
}

/// Accepts fetched audio, unless there is none or it is too large to process.
pub fn accept_source(fetched: Fetched, max_source_size: usize) -> (r: Result<
    AudioBuffer,
    AppError,
>)
    ensures
        accepts(fetched, max_source_size as nat, r),
{
    let source: AudioBuffer = match fetched {
        Fetched::Remote(Ok(b)) => b,
        Fetched::Stored(Ok(b)) => b,
        Fetched::Remote(Err(e)) => {
            return Err(e);
        },
        Fetched::Stored(Err(e)) => {
            return Err(e404(text::cat("Failed to fetch audio: ", e.as_str())));
        },
    };
    let len: usize = source.len();
    if len > max_source_size {
        return Err(too_large_error(len, max_source_size));
    }
    Ok(source)
}

/// An answer, and what the response cache is filled with.
pub struct Served {
    /// The answer.
    pub response: Result<AudioResponse, AppError>,
    /// The write that fills the response cache.
    pub fill: Option<CacheWrite>,
}

impl Served {
    /// Whether audio is answered as every layer answers it, and the response cache, where
    /// it was missed, is filled with the whole of it.
    pub open spec fn with_audio(
        self,
        range: Option<Seq<u8>>,
        miss: Option<CacheMissContext>,
        body: Seq<u8>,
    ) -> bool {
        &&& middleware::answers_audio(
            range,
            middleware::content_type_of(middleware::inferred_type(body)),
            body,
            self.response,
        )
        &&& self.fills(miss, body)
    }

    /// Whether the response cache, where it was missed, is filled with `body`.
    pub open spec fn fills(self, miss: Option<CacheMissContext>, body: Seq<u8>) -> bool {
        match miss {
            Some(ctx) => self.fill matches Some(w) && w.key == ctx.cache_key && blob::contents(
                w.data,
            ) == body,
            None => self.fill is None,
        }
    }

    /// Whether an error is answered, and nothing is cached.
    pub open spec fn with_error(self, status: u16, message: Seq<char>) -> bool {
        self.response is Err && self.response->Err_0.says(status, message) && self.fill is None
    }

    /// The answer with an error.
    pub fn error(e: AppError) -> (s: Served)
        ensures
            s.response == Err::<AudioResponse, AppError>(e),
            s.fill is None,
    {
        Served { response: Err(e), fill: None }
    }
}

/// Answers with audio, and fills the response cache where it was missed.
pub fn serve(range: Option<&[u8]>, miss: Option<CacheMissContext>, body: Bytes) -> (s: Served)
    ensures
        s.with_audio(middleware::header_view(range), miss, blob::contents(body)),
        middleware::valid_header_value(
            middleware::content_type_of(middleware::inferred_type(blob::contents(body))),
        ),
{
    let fill: Option<CacheWrite> = match miss {
        Some(ctx) => Some(ctx.populate(blob::bytes_clone(&body))),
        None => None,
    };
    Served { response: middleware::answer_sniffed(range, body), fill }
}

/// Two answers with the same audio to the same `Range` header are alike, whichever layer
/// they come from: the response cache, the result storage or the processing.
pub proof fn law_layers_answer_alike(
    range: Option<Seq<u8>>,
    body: Seq<u8>,
    a: Result<AudioResponse, AppError>,
    b: Result<AudioResponse, AppError>,
)
    requires
        middleware::answers_audio(
            range,
            middleware::content_type_of(middleware::inferred_type(body)),
            body,
            a,
        ),
        middleware::answers_audio(
            range,
            middleware::content_type_of(middleware::inferred_type(body)),
            body,
            b,
        ),
    ensures
        match a {
            Ok(x) => {
                &&& b is Ok
                &&& x.status == b->Ok_0.status
                &&& middleware::header_texts(x.headers@) == middleware::header_texts(
                    b->Ok_0.headers@,
                )
                &&& blob::contents(x.body) == blob::contents(b->Ok_0.body)
            },
            Err(e) => b is Err && b->Err_0.says(e.status, e.error@),
        },
{
}

/// Audio that is over the limit is never handed on to processing.
pub proof fn law_oversized_source_is_refused(
    fetched: Fetched,
    max_source_size: nat,
    r: Result<AudioBuffer, AppError>,
)
    requires
        accepts(fetched, max_source_size, r),
    ensures
        r is Ok ==> r->Ok_0.bytes().len() <= max_source_size,
{
}

/// A key is remote exactly where it begins with a scheme of the web.
pub proof fn law_remote_keys_have_a_scheme(rest: Seq<char>, key: Seq<char>)
    ensures
        remote("https://"@ + rest),
        remote("http://"@ + rest),
        remote(key) ==> key == "https://"@ + key.skip(8) || key == "http://"@ + key.skip(7),
{
    reveal_strlit("https://");
    reveal_strlit("http://");
    text::law_prefix_and_rest("https://"@, rest, key);
    text::law_prefix_and_rest("http://"@, rest, key);
}

/// Audio up to the limit is handed on as it is, wherever it came from; audio over the limit is
/// refused with both sizes; a remote error is answered as it is, and an error of the storage as
/// audio that was not found.
pub proof fn law_source_is_judged_by_its_size(
    fetched: Fetched,
    max_source_size: nat,
    r: Result<AudioBuffer, AppError>,
)
    requires
        accepts(fetched, max_source_size, r),
    ensures
        fetched matches Fetched::Remote(Ok(b)) ==> {
            &&& b.bytes().len() <= max_source_size ==> r == Ok::<AudioBuffer, AppError>(b)
            &&& b.bytes().len() > max_source_size ==> r is Err && r->Err_0.status == 413
                && r->Err_0.error@ == "Source audio too large: "@ + text::decimal(
                b.bytes().len(),
            ) + " bytes (max "@ + text::decimal(max_source_size) + ")"@
        },
        fetched matches Fetched::Stored(Ok(b)) ==> {
            &&& b.bytes().len() <= max_source_size ==> r == Ok::<AudioBuffer, AppError>(b)
            &&& b.bytes().len() > max_source_size ==> r is Err && r->Err_0.status == 413
                && r->Err_0.error@ == "Source audio too large: "@ + text::decimal(
                b.bytes().len(),
            ) + " bytes (max "@ + text::decimal(max_source_size) + ")"@
        },
        fetched matches Fetched::Remote(Err(e)) ==> r == Err::<AudioBuffer, AppError>(e),
        fetched matches Fetched::Stored(Err(e)) ==> r is Err && r->Err_0.status == 404
            && r->Err_0.error@ == "Failed to fetch audio: "@ + e@,
{
}

/// The response cache is filled exactly where it was missed, under the key that was missed, and
/// with the whole of the audio; an error fills nothing.
pub proof fn law_missed_cache_is_filled(
    s: Served,
    range: Option<Seq<u8>>,
    ctx: CacheMissContext,
    body: Seq<u8>,
    status: u16,
    message: Seq<char>,
)
    ensures
        s.with_audio(range, Some(ctx), body) ==> s.fill is Some && s.fill->Some_0.key
            == ctx.cache_key && blob::contents(s.fill->Some_0.data) == body,
        s.with_audio(range, None, body) ==> s.fill is None,
        s.with_audio(range, None, body) || s.with_audio(range, Some(ctx), body)
            ==> middleware::answers_audio(
            range,
            middleware::content_type_of(middleware::inferred_type(body)),
            body,
            s.response,
        ),
        s.with_error(status, message) ==> s.fill is None && s.response is Err
            && s.response->Err_0.status == status && s.response->Err_0.error@ == message,
{
}

} // verus!
