//! The thumbnail route: the most representative part of a recording.

use bytes::Bytes;
use vstd::prelude::*;
use vstd::utf8::*;
use crate::blob;
use crate::blob::AudioBuffer;
use crate::float64;
use crate::float64::Float64;
use crate::middleware;
use crate::middleware::{AudioResponse, CacheMissContext};
use crate::routes::source::{serve, Served};
use crate::streamingpath::hasher;
use crate::streamingpath::hasher::suffix_result_storage_hasher;
use crate::streamingpath::params::Params;
use crate::text;
use crate::thumbnail::analysis::{
    ThumbnailConfig,
    ThumbnailResult,
    DEFAULT_MAX,
    DEFAULT_MIN,
    DEFAULT_TARGET,
};
use crate::utils::{e500, AppError};

verus! {

/// The durations that a request asks for, in seconds.
#[derive(Clone, Copy, Debug)]
pub struct ThumbnailQuery {
    pub thumbnail_duration: Option<Float64>,
    pub thumbnail_min_duration: Option<Float64>,
    pub thumbnail_max_duration: Option<Float64>,
}

/// The given number, or another one.
pub open spec fn given_or(x: Option<Float64>, bits: u64) -> Float64 {
    match x {
        Some(v) => v,
        None => Float64 { bits },
    }
}

/// The configuration that a request asks for.
pub open spec fn config_of(q: ThumbnailQuery) -> ThumbnailConfig {
    ThumbnailConfig {
        target_duration: given_or(q.thumbnail_duration, DEFAULT_TARGET),
        min_duration: given_or(q.thumbnail_min_duration, DEFAULT_MIN),
        max_duration: given_or(q.thumbnail_max_duration, DEFAULT_MAX),
    }
}

/// The configuration that a request asks for.
pub fn thumbnail_config(q: &ThumbnailQuery) -> (c: ThumbnailConfig)
    ensures
        c == config_of(*q),
{
    ThumbnailConfig {
        target_duration: match q.thumbnail_duration {
            Some(v) => v,
            None => Float64 { bits: DEFAULT_TARGET },
        },
        min_duration: match q.thumbnail_min_duration {
            Some(v) => v,
            None => Float64 { bits: DEFAULT_MIN },
        },
        max_duration: match q.thumbnail_max_duration {
            Some(v) => v,
            None => Float64 { bits: DEFAULT_MAX },
        },
    }
}

/// The name under which a thumbnail is stored. `path` is the canonical text of the
/// request.
pub fn thumbnail_hash(p: &Params, path: &str) -> (s: String)
    ensures
        s@ == hasher::suffixed(p.key@, p.format, hasher::text_digest(path@)) + "_thumb"@,
        hasher::text_digest(path@).len() == 20,
{
    text::cat(suffix_result_storage_hasher(p, path).as_str(), "_thumb")
}

/// What follows the look into the result storage.
pub enum AfterThumbnailLookup {
    /// The thumbnail was there: the answer.
    Answer(Served),
    /// The thumbnail was not there: the source audio is fetched.
    Fetch(Option<CacheMissContext>),
}

/// Decides a request by what the result storage gave for it.
pub fn thumbnail_handler(
    found: Option<Bytes>,
    range: Option<&[u8]>,
    miss: Option<CacheMissContext>,
) -> (r: AfterThumbnailLookup)
    ensures
        match found {
            Some(body) => r matches AfterThumbnailLookup::Answer(s) && s.with_audio(
                middleware::header_view(range),
                miss,
                blob::contents(body),
            ),
            None => r matches AfterThumbnailLookup::Fetch(m) && m == miss,
        },
{
    match found {
        Some(body) => AfterThumbnailLookup::Answer(serve(range, miss, body)),
        None => AfterThumbnailLookup::Fetch(miss),
    }
}

/// A part of the work on a thumbnail that can fail.
#[derive(Clone, Copy, PartialEq, Eq, Structural, Debug)]
pub enum Stage {
    /// The decoding task was cut short.
    DecodeTask,
    /// The decoding failed.
    Decode,
    /// The analysis failed, or its task was cut short.
    Analysis,
    /// The processing failed.
    Process,
}

impl Stage {
    /// What stands before the text of an error.
    pub open spec fn prefix(self) -> Seq<char> {
        match self {
            Stage::DecodeTask => "PCM decode failed: "@,
            Stage::Decode => "Failed to decode audio: "@,
            Stage::Analysis => "Thumbnail analysis failed: "@,
            Stage::Process => "Failed to process audio: "@,
        }
    }
}

/// The error for a part of the work that failed.
pub fn stage_failed(stage: Stage, e: &str) -> (a: AppError)
    ensures
        a.says(500, stage.prefix() + e@),
{
    let prefix: &str = match stage {
        Stage::DecodeTask => "PCM decode failed: ",
        Stage::Decode => "Failed to decode audio: ",
        Stage::Analysis => "Thumbnail analysis failed: ",
        Stage::Process => "Failed to process audio: ",
    };
    e500(text::cat(prefix, e))
}

/// The parameters with which the selected part is cut out: those of the request, with its
/// start and its duration.
pub fn thumbnail_params(p: Params, t: &ThumbnailResult) -> (r: Params)
    ensures
        r == (Params { start_time: Some(t.start_time), duration: Some(t.duration), ..p }),
{
    let mut r: Params = p;
    r.start_time = Some(t.start_time);
    r.duration = Some(t.duration);
    r
}

/// The URL of the selected part by its explicit parameters.
pub open spec fn canonical_url(key: Seq<char>, t: ThumbnailResult) -> Seq<char> {
    "/unsafe/"@ + key + "?start_time="@ + t.start_time.fixed_text(1) + "&duration="@
        + t.duration.fixed_text(1)
}

/// The headers that say which part was selected.
pub open spec fn thumbnail_headers(key: Seq<char>, t: ThumbnailResult) -> Seq<
    (Seq<char>, Seq<char>),
> {
    seq![
        ("x-thumbnail-confidence"@, t.confidence.fixed_text(2)),
        ("x-thumbnail-start"@, t.start_time.fixed_text(1)),
        ("x-thumbnail-duration"@, t.duration.fixed_text(1)),
        ("link"@, "<"@ + canonical_url(key, t) + ">; rel=canonical"@),
    ]
}

/// Writes the URL of the selected part.
fn canonical_text(key: &str, t: &ThumbnailResult) -> (s: String)
    ensures
        s@ == canonical_url(key@, *t),
{
    let mut s: String = text::cat("/unsafe/", key);
    s.append("?start_time=");
    s.append(t.start_time.to_fixed(1).as_str());
    s.append("&duration=");
    s.append(t.duration.to_fixed(1).as_str());
    s
}

/// A finished thumbnail: the answer, and the writes that follow in the background.
pub struct ThumbnailServed {
    /// The answer, and what the response cache is filled with.
    pub served: Served,
    /// The name under which the audio is stored.
    pub store_key: String,
    /// The audio that is stored.
    pub store: AudioBuffer,
}

/// Whether an answer is the one with audio, and the headers of the thumbnail after its own.
pub open spec fn answers_thumbnail(
    range: Option<Seq<u8>>,
    key: Seq<char>,
    t: ThumbnailResult,
    body: Seq<u8>,
    r: Result<AudioResponse, AppError>,
) -> bool {
    match middleware::requested_range(range, body.len()) {
        Err(f) => r is Err && r->Err_0.says(f.status(), f.message()),
        Ok(part) => {
            let kind = middleware::content_type_of(middleware::inferred_type(body));
            &&& r is Ok
            &&& match part {
                None => {
                    &&& r->Ok_0.status == 200
                    &&& middleware::header_texts(r->Ok_0.headers@) == middleware::whole_headers(
                        kind,
                        body.len(),
                    ) + thumbnail_headers(key, t)
                    &&& blob::contents(r->Ok_0.body) == body
                },
                Some((start, end)) => {
                    &&& r->Ok_0.status == 206
                    &&& middleware::header_texts(r->Ok_0.headers@) == middleware::partial_headers(
                        kind,
                        start,
                        end,
                        body.len(),
                    ) + thumbnail_headers(key, t)
                    &&& blob::contents(r->Ok_0.body) == body.subrange(
                        start as int,
                        end as int + 1,
                    )
                },
            }
        },
    }
}

/// Answers with the audio of a thumbnail. The answer says which part of the recording it
/// is, so that its key has to be able to stand in a header; the audio is stored and fills
/// the response cache whatever range was asked for.
pub fn finish_thumbnail(
    key: &str,
    store_key: String,
    t: &ThumbnailResult,
    processed: AudioBuffer,
    range: Option<&[u8]>,
    miss: Option<CacheMissContext>,
) -> (r: ThumbnailServed)
    requires
        middleware::requested_range(
            middleware::header_view(range),
            processed.bytes().len(),
        ) is Ok ==> middleware::valid_header_value(key@),
    ensures
        r.store_key == store_key,
        r.store.bytes() == processed.bytes(),
        r.store.kind == processed.kind,
        r.served.fills(miss, processed.bytes()),
        answers_thumbnail(
            middleware::header_view(range),
            key@,
            *t,
            processed.bytes(),
            r.served.response,
        ),
{
    let store: AudioBuffer = processed.share();
    let served: Served = serve(range, miss, processed.into_bytes());
    let response: Result<AudioResponse, AppError> = match served.response {
        Ok(audio) => {
            let mut headers: Vec<(String, String)> = audio.headers;
            let ghost before = middleware::header_texts(headers@);
            middleware::push_header(
                &mut headers,
                "x-thumbnail-confidence",
                t.confidence.to_fixed(2),
            );
            middleware::push_header(&mut headers, "x-thumbnail-start", t.start_time.to_fixed(1));
            middleware::push_header(&mut headers, "x-thumbnail-duration", t.duration.to_fixed(1));
            let mut link: String = text::cat("<", canonical_text(key, t).as_str());
            link.append(">; rel=canonical");
            middleware::push_header(&mut headers, "link", link);
            proof {
                assert(middleware::header_texts(headers@) =~= before + thumbnail_headers(
                    key@,
                    *t,
                ));
            }
            Ok(AudioResponse { status: audio.status, headers, body: audio.body })
        },
        Err(e) => Err(e),
    };
    ThumbnailServed { served: Served { response, fill: served.fill }, store_key, store }
}

proof fn lemma_digits_are_valid(n: nat, p: nat)
    ensures
        middleware::valid_header_value(text::decimal(n)),
        middleware::valid_header_value(float64::padded(n, p)),
    decreases p,
{
    text::lemma_decimal_roundtrip(n);
    let (d, b) = (text::decimal(n), text::ascii_bytes(text::decimal(n)));
    assert forall|i: int| 0 <= i < d.len() implies (32 <= #[trigger] d[i] as u32 && d[i] as u32
        != 127) || d[i] == '\t' by {
        assert(text::is_digit(b[i]));
    }
    if p > 0 {
        lemma_digits_are_valid(n / 10, (p - 1) as nat);
    }
}

proof fn lemma_number_is_valid(x: Float64, p: nat)
    ensures
        middleware::valid_header_value(x.fixed_text(p)),
{
    let n = x.rounded(p);
    lemma_digits_are_valid(n / float64::pow10(p), p);
    lemma_digits_are_valid(n % float64::pow10(p), p);
}

/// The headers of a thumbnail can be sent, where its key can stand in a header.
pub proof fn law_thumbnail_headers_can_be_sent(key: Seq<char>, t: ThumbnailResult, i: int)
    requires
        middleware::valid_header_value(key),
        0 <= i < 4,
    ensures
        middleware::valid_header_value(thumbnail_headers(key, t)[i].1),
{
    reveal_strlit("/unsafe/");
    reveal_strlit("?start_time=");
    reveal_strlit("&duration=");
    reveal_strlit("<");
    reveal_strlit(">; rel=canonical");
    lemma_number_is_valid(t.confidence, 2);
    lemma_number_is_valid(t.start_time, 1);
    lemma_number_is_valid(t.duration, 1);
}

/// A thumbnail is stored under another name than the processed audio of the same request.
pub proof fn law_thumbnail_is_stored_apart(name: Seq<char>)
    ensures
        name + "_thumb"@ != name,
{
    reveal_strlit("_thumb");
    assert((name + "_thumb"@).len() == name.len() + 6);
}

/// A duration that is asked for is taken as it is; thirty, fifteen and forty-five seconds stand
/// in for those that are not.
pub proof fn law_given_durations_are_taken(q: ThumbnailQuery)
    ensures
        ({
            let c = config_of(q);
            &&& q.thumbnail_duration is Some ==> c.target_duration == q.thumbnail_duration->Some_0
            &&& q.thumbnail_duration is None ==> c.target_duration == (Float64 {
                bits: 0x403E_0000_0000_0000,
            })
            &&& q.thumbnail_min_duration is Some ==> c.min_duration
                == q.thumbnail_min_duration->Some_0
            &&& q.thumbnail_min_duration is None ==> c.min_duration == (Float64 {
                bits: 0x402E_0000_0000_0000,
            })
            &&& q.thumbnail_max_duration is Some ==> c.max_duration
                == q.thumbnail_max_duration->Some_0
            &&& q.thumbnail_max_duration is None ==> c.max_duration == (Float64 {
                bits: 0x4046_8000_0000_0000,
            })
        }),
{
}

/// The headers of a thumbnail say how sure it is, where it starts, how long it is, and by which
/// URL the same part can be asked for.
pub proof fn law_headers_say_which_part(key: Seq<char>, t: ThumbnailResult)
    ensures
        ({
            let h = thumbnail_headers(key, t);
            &&& h.len() == 4
            &&& h[0] == ("x-thumbnail-confidence"@, t.confidence.fixed_text(2))
            &&& h[1] == ("x-thumbnail-start"@, t.start_time.fixed_text(1))
            &&& h[2] == ("x-thumbnail-duration"@, t.duration.fixed_text(1))
            &&& h[3].0 == "link"@
            &&& h[3].1 == "</unsafe/"@ + key + "?start_time="@ + t.start_time.fixed_text(1)
                + "&duration="@ + t.duration.fixed_text(1) + ">; rel=canonical"@
        }),
{
    reveal_strlit("</unsafe/");
    reveal_strlit("/unsafe/");
    reveal_strlit("<");
    assert("</unsafe/"@ =~= "<"@ + "/unsafe/"@);
    assert(thumbnail_headers(key, t)[3].1 =~= "</unsafe/"@ + key + "?start_time="@
        + t.start_time.fixed_text(1) + "&duration="@ + t.duration.fixed_text(1)
        + ">; rel=canonical"@);
}

/// An error says which part of the work failed.
pub proof fn law_errors_name_the_stage(stage: Stage)
    ensures
        stage == Stage::DecodeTask ==> stage.prefix() == "PCM decode failed: "@,
        stage == Stage::Decode ==> stage.prefix() == "Failed to decode audio: "@,
        stage == Stage::Analysis ==> stage.prefix() == "Thumbnail analysis failed: "@,
        stage == Stage::Process ==> stage.prefix() == "Failed to process audio: "@,
{
}

/// A thumbnail is answered as audio of the same bytes is, with its own headers behind those.
pub proof fn law_thumbnail_is_answered_as_audio(
    range: Option<Seq<u8>>,
    key: Seq<char>,
    t: ThumbnailResult,
    body: Seq<u8>,
    plain: Result<AudioResponse, AppError>,
    r: Result<AudioResponse, AppError>,
)
    requires
        middleware::valid_header_value(
            middleware::content_type_of(middleware::inferred_type(body)),
        ),
        middleware::answers_audio(
            range,
            middleware::content_type_of(middleware::inferred_type(body)),
            body,
            plain,
        ),
        answers_thumbnail(range, key, t, body, r),
    ensures
        r is Ok <==> plain is Ok,
        r is Err ==> r->Err_0.status == plain->Err_0.status && r->Err_0.error@
            == plain->Err_0.error@,
        r is Ok ==> {
            &&& r->Ok_0.status == plain->Ok_0.status
            &&& blob::contents(r->Ok_0.body) == blob::contents(plain->Ok_0.body)
            &&& middleware::header_texts(r->Ok_0.headers@) == middleware::header_texts(
                plain->Ok_0.headers@,
            ) + thumbnail_headers(key, t)
        },
{
}

} // verus!
