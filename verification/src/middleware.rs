//! What stands before every route: the response cache, the signature check, and the
//! answer with audio, whole or in part.

use bytes::Bytes;
use vstd::prelude::*;
use vstd::slice::*;
use vstd::utf8::*;
use crate::blob;
use crate::streamingpath::hasher;
use crate::streamingpath::hasher::AuthError;
use crate::streamingpath::params::Params;
use crate::streamingpath::routing;
use crate::text;
use crate::utils::{e400, e416, e500, AppError};

verus! {

/// Why a `Range` header is refused.
#[derive(Clone, Copy, PartialEq, Eq, Structural, Debug)]
pub enum RangeFault {
    /// A byte that is neither visible ASCII nor a tab.
    NotAscii,
    /// A unit other than bytes.
    Unit,
    /// A range that the audio does not have.
    Unsatisfiable,
    /// No dash.
    Malformed,
    /// A suffix length that is no number.
    Suffix,
    /// A start that is no number.
    Start,
    /// An end that is no number.
    End,
}

impl RangeFault {
    /// The status that the fault is answered with.
    pub open spec fn status(self) -> u16 {
        if self == RangeFault::NotAscii {
            400
        } else {
            416
        }
    }

    /// The text that the fault is answered with.
    pub open spec fn message(self) -> Seq<char> {
        match self {
            RangeFault::NotAscii => "Range header must be valid ASCII"@,
            RangeFault::Unit => "Only byte ranges are supported"@,
            RangeFault::Unsatisfiable => "Requested range cannot be satisfied"@,
            RangeFault::Malformed => "Invalid Range header"@,
            RangeFault::Suffix => "Invalid suffix byte range"@,
            RangeFault::Start => "Invalid byte range start"@,
            RangeFault::End => "Invalid byte range end"@,
        }
    }

    /// The answer to the fault.
    fn error(self) -> (e: AppError)
        ensures
            e.says(self.status(), self.message()),
    {
        match self {
            RangeFault::NotAscii => e400("Range header must be valid ASCII".to_string()),
            RangeFault::Unit => e416("Only byte ranges are supported".to_string()),
            RangeFault::Unsatisfiable => e416("Requested range cannot be satisfied".to_string()),
            RangeFault::Malformed => e416("Invalid Range header".to_string()),
            RangeFault::Suffix => e416("Invalid suffix byte range".to_string()),
            RangeFault::Start => e416("Invalid byte range start".to_string()),
            RangeFault::End => e416("Invalid byte range end".to_string()),
        }
    }
}

/// Whether a header can be read as text: visible ASCII and tabs alone.
pub open spec fn readable(header: Seq<u8>) -> bool {
    forall|i: int| 0 <= i < header.len() ==> 32 <= #[trigger] header[i] < 127 || header[i] == 9
}

/// `bytes=`
pub open spec fn bytes_unit() -> Seq<u8> {
    seq![98, 121, 116, 101, 115, 61]
}

/// The position of the first `b` in `s`.
pub open spec fn first_byte(s: Seq<u8>, b: u8) -> Option<int>
    decreases s.len(),
{
    if s.len() == 0 {
        None
    } else if s[0] == b {
        Some(0)
    } else {
        match first_byte(s.skip(1), b) {
            Some(i) => Some(i + 1),
            None => None,
        }
    }
}

/// The number that a part of a range spells, where it fits a machine word.
pub open spec fn position_value(s: Seq<u8>) -> Option<nat> {
    text::bounded_value(s, usize::MAX as nat)
}

/// The last `len` bytes of `total`, all of them where there are fewer.
pub open spec fn suffix_range(len: nat, total: nat) -> (nat, nat) {
    (
        if len <= total {
            (total - len) as nat
        } else {
            0
        },
        (total - 1) as nat,
    )
}

/// The range between the two sides of a dash.
pub open spec fn dashed_range(first: Seq<u8>, last: Seq<u8>, total: nat) -> Result<
    (nat, nat),
    RangeFault,
> {
    if first.len() == 0 {
        match position_value(last) {
            None => Err(RangeFault::Suffix),
            Some(len) => if len == 0 {
                Err(RangeFault::Unsatisfiable)
            } else {
                Ok(suffix_range(len, total))
            },
        }
    } else {
        match position_value(first) {
            None => Err(RangeFault::Start),
            Some(start) => if start >= total {
                Err(RangeFault::Unsatisfiable)
            } else if last.len() == 0 {
                Ok((start, (total - 1) as nat))
            } else {
                match position_value(last) {
                    None => Err(RangeFault::End),
                    Some(end) => if end < start {
                        Err(RangeFault::Unsatisfiable)
                    } else if end < total {
                        Ok((start, end))
                    } else {
                        Ok((start, (total - 1) as nat))
                    },
                }
            },
        }
    }
}

/// The part of `total` bytes that a `Range` header asks for, as its first and its last
/// position; the whole where there is no header.
pub open spec fn requested_range(header: Option<Seq<u8>>, total: nat) -> Result<
    Option<(nat, nat)>,
    RangeFault,
> {
    match header {
        None => Ok(None),
        Some(h) => if !readable(h) {
            Err(RangeFault::NotAscii)
        } else if h.len() < 6 || h.take(6) != bytes_unit() {
            Err(RangeFault::Unit)
        } else {
            let range = h.skip(6);
            if total == 0 || range.contains(44) {
                Err(RangeFault::Unsatisfiable)
            } else {
                match first_byte(range, 45) {
                    None => Err(RangeFault::Malformed),
                    Some(dash) => match dashed_range(
                        range.take(dash),
                        range.skip(dash + 1),
                        total,
                    ) {
                        Ok(r) => Ok(Some(r)),
                        Err(f) => Err(f),
                    },
                }
            }
        },
    }
}

proof fn lemma_first_byte(s: Seq<u8>, b: u8)
    ensures
        match first_byte(s, b) {
            Some(i) => 0 <= i < s.len() && s[i] == b && forall|k: int|
                0 <= k < i ==> #[trigger] s[k] != b,
            None => forall|k: int| 0 <= k < s.len() ==> #[trigger] s[k] != b,
        },
    decreases s.len(),
{
    if s.len() > 0 && s[0] != b {
        lemma_first_byte(s.skip(1), b);
        assert forall|k: int| 1 <= k < s.len() implies #[trigger] s[k] == s.skip(1)[k - 1] by {}
    }
}

/// The position of the first `b`.
fn find_byte(s: &[u8], b: u8) -> (r: Option<usize>)
    ensures
        match r {
            Some(i) => first_byte(s@, b) == Some(i as int) && i < s@.len(),
            None => first_byte(s@, b) is None,
        },
{
    proof {
        lemma_first_byte(s@, b);
    }
    let mut i: usize = 0;
    while i < s.len()
        invariant
            i <= s@.len(),
            forall|k: int| 0 <= k < i ==> #[trigger] s@[k] != b,
            match first_byte(s@, b) {
                Some(i) => 0 <= i < s@.len() && s@[i] == b && forall|k: int|
                    0 <= k < i ==> #[trigger] s@[k] != b,
                None => forall|k: int| 0 <= k < s@.len() ==> #[trigger] s@[k] != b,
            },
        decreases s.len() - i,
    {
        if s[i] == b {
            return Some(i);
        }
        i += 1;
    }
    None
}

/// Whether a header can be read as text.
fn is_readable(header: &[u8]) -> (b: bool)
    ensures
        b == readable(header@),
{
    let mut i: usize = 0;
    while i < header.len()
        invariant
            i <= header@.len(),
            forall|k: int|
                0 <= k < i ==> 32 <= #[trigger] header@[k] < 127 || header@[k] == 9,
        decreases header.len() - i,
    {
        let b: u8 = header[i];
        if !((b >= 32 && b < 127) || b == 9) {
            return false;
        }
        i += 1;
    }
    true
}

/// Whether a readable header counts in bytes.
fn has_bytes_unit(header: &[u8]) -> (b: bool)
    ensures
        b == (header@.len() >= 6 && header@.take(6) == bytes_unit()),
{
    if header.len() < 6 {
        return false;
    }
    let b: bool = header[0] == 98 && header[1] == 121 && header[2] == 116 && header[3] == 101
        && header[4] == 115 && header[5] == 61;
    proof {
        let t = header@.take(6);
        if b {
            assert(t =~= bytes_unit());
        } else {
            assert(t[0] == header@[0] && t[1] == header@[1] && t[2] == header@[2] && t[3]
                == header@[3] && t[4] == header@[4] && t[5] == header@[5]);
        }
    }
    b
}

/// Reads the range between the two sides of a dash.
fn parse_dashed(first: &[u8], last: &[u8], total_size: usize) -> (r: Result<
    (usize, usize),
    RangeFault,
>)
    requires
        total_size > 0,
    ensures
        match r {
            Ok((s, e)) => dashed_range(first@, last@, total_size as nat) == Ok::<
                (nat, nat),
                RangeFault,
            >((s as nat, e as nat)),
            Err(f) => dashed_range(first@, last@, total_size as nat) == Err::<
                (nat, nat),
                RangeFault,
            >(f),
        },
{
    if first.len() == 0 {
        return match text::parse_usize(last) {
            None => Err(RangeFault::Suffix),
            Some(len) => if len == 0 {
                Err(RangeFault::Unsatisfiable)
            } else if len <= total_size {
                Ok((total_size - len, total_size - 1))
            } else {
                Ok((0, total_size - 1))
            },
        };
    }
    match text::parse_usize(first) {
        None => Err(RangeFault::Start),
        Some(start) => if start >= total_size {
            Err(RangeFault::Unsatisfiable)
        } else if last.len() == 0 {
            Ok((start, total_size - 1))
        } else {
            match text::parse_usize(last) {
                None => Err(RangeFault::End),
                Some(end) => if end < start {
                    Err(RangeFault::Unsatisfiable)
                } else if end < total_size {
                    Ok((start, end))
                } else {
                    Ok((start, total_size - 1))
                },
            }
        },
    }
}

/// Whether an answer is the one to a `Range` header for `total` bytes.
pub open spec fn answers_range(
    header: Option<Seq<u8>>,
    total: nat,
    r: Result<Option<(usize, usize)>, AppError>,
) -> bool {
    match requested_range(header, total) {
        Ok(None) => r is Ok && r->Ok_0 is None,
        Ok(Some((start, end))) => {
            &&& r is Ok
            &&& r->Ok_0 is Some
            &&& r->Ok_0->Some_0.0 == start
            &&& r->Ok_0->Some_0.1 == end
        },
        Err(f) => r is Err && r->Err_0.says(f.status(), f.message()),
    }
}

/// The value of a header as the specification sees it.
pub open spec fn header_view(header: Option<&[u8]>) -> Option<Seq<u8>> {
    match header {
        Some(h) => Some(h@),
        None => None,
    }
}

/// Reads a `Range` header. The positions returned are both included.
pub fn parse_range(header: Option<&[u8]>, total_size: usize) -> (r: Result<
    Option<(usize, usize)>,
    AppError,
>)
    ensures
        answers_range(header_view(header), total_size as nat, r),
{
    let h: &[u8] = match header {
        None => {
            return Ok(None);
        },
        Some(h) => h,
    };
    if !is_readable(h) {
        return Err(RangeFault::NotAscii.error());
    }
    if !has_bytes_unit(h) {
        return Err(RangeFault::Unit.error());
    }
    let range: &[u8] = slice_subrange(h, 6, h.len());
    proof {
        assert(range@ =~= h@.skip(6));
        lemma_first_byte(range@, 44);
    }
    if total_size == 0 || find_byte(range, 44).is_some() {
        proof {
            if total_size != 0 {
                let i = first_byte(range@, 44)->Some_0;
                assert(range@[i] == 44);
            }
        }
        return Err(RangeFault::Unsatisfiable.error());
    }
    match find_byte(range, 45) {
        None => Err(RangeFault::Malformed.error()),
        Some(dash) => {
            let first: &[u8] = slice_subrange(range, 0, dash);
            let last: &[u8] = slice_subrange(range, dash + 1, range.len());
            proof {
                assert(first@ =~= range@.take(dash as int));
                assert(last@ =~= range@.skip(dash + 1));
            }
            match parse_dashed(first, last, total_size) {
                Ok(r) => Ok(Some(r)),
                Err(f) => Err(f.error()),
            }
        },
    }
}

/// An answer with audio.
pub struct AudioResponse {
    pub status: u16,
    pub headers: Vec<(String, String)>,
    pub body: Bytes,
}

/// The names and values of headers.
pub open spec fn header_texts(headers: Seq<(String, String)>) -> Seq<(Seq<char>, Seq<char>)> {
    Seq::new(headers.len(), |i: int| (headers[i].0@, headers[i].1@))
}

/// The headers of every answer with audio that follow its length and range.
pub open spec fn common_headers() -> Seq<(Seq<char>, Seq<char>)> {
    seq![
        ("cache-control"@, "no-cache"@),
        ("access-control-allow-origin"@, "*"@),
        ("content-disposition"@, "inline"@),
    ]
}

/// The headers of an answer with `len` bytes of audio.
pub open spec fn whole_headers(content_type: Seq<char>, len: nat) -> Seq<(Seq<char>, Seq<char>)> {
    seq![
        ("content-type"@, content_type),
        ("accept-ranges"@, "bytes"@),
        ("content-length"@, text::decimal(len)),
    ] + common_headers()
}

/// The text of a `Content-Range` header.
pub open spec fn content_range(start: nat, end: nat, total: nat) -> Seq<char> {
    "bytes "@ + text::decimal(start) + "-"@ + text::decimal(end) + "/"@ + text::decimal(total)
}

/// The headers of an answer with a part of `total` bytes of audio.
pub open spec fn partial_headers(
    content_type: Seq<char>,
    start: nat,
    end: nat,
    total: nat,
) -> Seq<(Seq<char>, Seq<char>)> {
    seq![
        ("content-type"@, content_type),
        ("accept-ranges"@, "bytes"@),
        ("content-length"@, text::decimal((end - start + 1) as nat)),
        ("content-range"@, content_range(start, end, total)),
    ] + common_headers()
}

/// Whether a text can be the value of a header: no control characters but tabs.
pub open spec fn valid_header_value(s: Seq<char>) -> bool {
    forall|i: int|
        0 <= i < s.len() ==> (32 <= #[trigger] s[i] as u32 && s[i] as u32 != 127) || s[i]
            == '\t'
}

/// Whether an answer is the one to a request for `body` of the given type.
pub open spec fn answers_audio(
    header: Option<Seq<u8>>,
    content_type: Seq<char>,
    body: Seq<u8>,
    r: Result<AudioResponse, AppError>,
) -> bool {
    match requested_range(header, body.len()) {
        Err(f) => r is Err && r->Err_0.says(f.status(), f.message()),
        Ok(range) => if !valid_header_value(content_type) {
            r is Err && r->Err_0.says(500, "failed to parse header value"@)
        } else {
            &&& r is Ok
            &&& match range {
                None => {
                    &&& r->Ok_0.status == 200
                    &&& header_texts(r->Ok_0.headers@) == whole_headers(content_type, body.len())
                    &&& blob::contents(r->Ok_0.body) == body
                },
                Some((start, end)) => {
                    &&& r->Ok_0.status == 206
                    &&& header_texts(r->Ok_0.headers@) == partial_headers(
                        content_type,
                        start,
                        end,
                        body.len(),
                    )
                    &&& blob::contents(r->Ok_0.body) == body.subrange(
                        start as int,
                        end as int + 1,
                    )
                },
            }
        },
    }
}

/// Whether a text can be the value of a header.
fn is_valid_header_value(s: &str) -> (b: bool)
    ensures
        b == valid_header_value(s@),
{
    let chars: Vec<char> = text::chars_of(s);
    let mut i: usize = 0;
    while i < chars.len()
        invariant
            i <= chars@.len(),
            chars@ == s@,
            forall|k: int|
                0 <= k < i ==> (32 <= #[trigger] s@[k] as u32 && s@[k] as u32 != 127) || s@[k]
                    == '\t',
        decreases chars.len() - i,
    {
        let c: char = chars[i];
        if !((c as u32 >= 32 && c as u32 != 127) || c == '\t') {
            proof {
                assert(s@[i as int] == c);
            }
            return false;
        }
        i += 1;
    }
    true
}

/// Appends a header.
pub(crate) fn push_header(headers: &mut Vec<(String, String)>, name: &str, value: String)
    ensures
        header_texts(final(headers)@) == header_texts(old(headers)@).push((name@, value@)),
{
    headers.push((name.to_string(), value));
    proof {
        assert(header_texts(headers@) =~= header_texts(old(headers)@).push((name@, value@)));
    }
}

/// Appends the headers of every answer with audio.
fn push_common_headers(headers: &mut Vec<(String, String)>)
    ensures
        header_texts(final(headers)@) == header_texts(old(headers)@) + common_headers(),
{
    push_header(headers, "cache-control", "no-cache".to_string());
    push_header(headers, "access-control-allow-origin", "*".to_string());
    push_header(headers, "content-disposition", "inline".to_string());
    proof {
        assert(header_texts(headers@) =~= header_texts(old(headers)@) + common_headers());
    }
}

/// Writes a `Content-Range` header.
fn content_range_text(start: usize, end: usize, total: usize) -> (s: String)
    ensures
        s@ == content_range(start as nat, end as nat, total as nat),
{
    let mut s: String = "bytes ".to_string();
    s.append(text::decimal_text(start as u64).as_str());
    s.append("-");
    s.append(text::decimal_text(end as u64).as_str());
    s.append("/");
    s.append(text::decimal_text(total as u64).as_str());
    s
}

/// Answers with audio: the part that the `Range` header asks for, or all of it.
pub fn build_audio_response(range: Option<&[u8]>, content_type: &str, body: Bytes) -> (r: Result<
    AudioResponse,
    AppError,
>)
    ensures
        answers_audio(header_view(range), content_type@, blob::contents(body), r),
{
    let total: usize = blob::bytes_len(&body);
    let parsed: Option<(usize, usize)> = match parse_range(range, total) {
        Ok(p) => p,
        Err(e) => {
            return Err(e);
        },
    };
    if !is_valid_header_value(content_type) {
        return Err(e500("failed to parse header value".to_string()));
    }
    proof {
        law_range_within_body(header_view(range), total as nat);
    }
    let mut headers: Vec<(String, String)> = Vec::new();
    proof {
        assert(header_texts(headers@) =~= Seq::<(Seq<char>, Seq<char>)>::empty());
    }
    push_header(&mut headers, "content-type", content_type.to_string());
    push_header(&mut headers, "accept-ranges", "bytes".to_string());
    match parsed {
        Some((start, end)) => {
            let content: Bytes = blob::bytes_slice(&body, start, end);
            let len: usize = blob::bytes_len(&content);
            push_header(&mut headers, "content-length", text::decimal_text(len as u64));
            push_header(&mut headers, "content-range", content_range_text(start, end, total));
            push_common_headers(&mut headers);
            proof {
                assert(header_texts(headers@) =~= partial_headers(
                    content_type@,
                    start as nat,
                    end as nat,
                    total as nat,
                ));
            }
            Ok(AudioResponse { status: 206, headers, body: content })
        },
        None => {
            push_header(&mut headers, "content-length", text::decimal_text(total as u64));
            push_common_headers(&mut headers);
            proof {
                assert(header_texts(headers@) =~= whole_headers(content_type@, total as nat));
            }
            Ok(AudioResponse { status: 200, headers, body })
        },
    }
}

/// A range that is granted lies within the audio and is not empty.
pub proof fn law_range_within_body(header: Option<Seq<u8>>, total: nat)
    ensures
        requested_range(header, total) matches Ok(Some((start, end))) ==> start <= end < total,
{
}

/// Every answer with audio says that it takes ranges, how long it is, that it is not to be
/// kept, that any origin may read it and that it is shown in place; an answer with a part
/// says which part.
pub proof fn law_every_answer_has_the_common_headers(
    header: Option<Seq<u8>>,
    content_type: Seq<char>,
    body: Seq<u8>,
    r: Result<AudioResponse, AppError>,
)
    requires
        answers_audio(header, content_type, body, r),
        r is Ok,
    ensures
        ({
            let headers = header_texts(r->Ok_0.headers@);
            &&& headers.contains(("content-type"@, content_type))
            &&& headers.contains(("accept-ranges"@, "bytes"@))
            &&& headers.contains(
                ("content-length"@, text::decimal(blob::contents(r->Ok_0.body).len())),
            )
            &&& headers.contains(("cache-control"@, "no-cache"@))
            &&& headers.contains(("access-control-allow-origin"@, "*"@))
            &&& headers.contains(("content-disposition"@, "inline"@))
            &&& requested_range(header, body.len()) matches Ok(Some((start, end))) ==> {
                &&& r->Ok_0.status == 206
                &&& headers.contains(("content-range"@, content_range(start, end, body.len())))
            }
        }),
{
    law_range_within_body(header, body.len());
    let headers = header_texts(r->Ok_0.headers@);
    let n = headers.len();
    assert(headers[0] == ("content-type"@, content_type));
    assert(headers[1] == ("accept-ranges"@, "bytes"@));
    assert(headers[2].0 == "content-length"@);
    assert(headers[n - 3] == common_headers()[0]);
    assert(headers[n - 2] == common_headers()[1]);
    assert(headers[n - 1] == common_headers()[2]);
    if let Ok(Some((start, end))) = requested_range(header, body.len()) {
        assert(headers[3] == ("content-range"@, content_range(start, end, body.len())));
    }
}

/// `bytes=`, a start, a dash and an end.
pub open spec fn range_header(start: nat, end: nat) -> Seq<u8> {
    bytes_unit() + text::ascii_bytes(text::decimal(start)) + seq![45u8] + text::ascii_bytes(
        text::decimal(end),
    )
}

/// A header that names a range of the audio by its ends is granted exactly that range.
pub proof fn law_named_range_is_granted(start: nat, end: nat, total: nat)
    requires
        start <= end < total <= usize::MAX,
    ensures
        requested_range(Some(range_header(start, end)), total) == Ok::<
            Option<(nat, nat)>,
            RangeFault,
        >(Some((start, end))),
{
    text::lemma_decimal_roundtrip(start);
    text::lemma_decimal_roundtrip(end);
    let (a, b) = (
        text::ascii_bytes(text::decimal(start)),
        text::ascii_bytes(text::decimal(end)),
    );
    let h = range_header(start, end);
    let range = h.skip(6);
    assert(h.take(6) =~= bytes_unit());
    assert(range =~= a + seq![45u8] + b);
    assert forall|i: int| 0 <= i < range.len() implies text::is_digit(#[trigger] range[i]) || (i
        == a.len() && range[i] == 45) by {
        if i < a.len() {
            assert(range[i] == a[i]);
        } else if i > a.len() {
            assert(range[i] == b[i - a.len() - 1]);
        }
    }
    assert forall|i: int| 0 <= i < h.len() implies 32 <= #[trigger] h[i] < 127 || h[i] == 9 by {
        if i < 6 {
            assert(h[i] == bytes_unit()[i]);
        } else {
            assert(h[i] == range[i - 6]);
            assert(text::is_digit(range[i - 6]) || range[i - 6] == 45);
        }
    }
    assert(!range.contains(44)) by {
        if range.contains(44) {
            let i = choose|i: int| 0 <= i < range.len() && range[i] == 44;
            assert(text::is_digit(range[i]) || range[i] == 45);
        }
    }
    lemma_first_byte(range, 45);
    assert(range[a.len() as int] == 45);
    let dash = first_byte(range, 45)->Some_0;
    assert(dash == a.len()) by {
        if dash < a.len() {
            assert(range[dash] == a[dash]);
            assert(text::is_digit(a[dash]));
        }
    }
    assert(range.take(dash) =~= a);
    assert(range.skip(dash + 1) =~= b);
}

/// The type of audio that is not recognised.
pub open spec fn default_type() -> Seq<char> {
    "audio/mpeg"@
}

/// The media type that a byte buffer is recognised as.
pub uninterp spec fn inferred_type(data: Seq<u8>) -> Option<Seq<char>>;

/// `infer::get`: the media type, as text, of the first of the crate's matchers that accepts
/// the data. The media types of the crate are visible ASCII.
#[verifier::external_body]
fn infer_type(data: &[u8]) -> (r: Option<String>)
    ensures
        match r {
            Some(t) => inferred_type(data@) == Some(t@) && valid_header_value(t@),
            None => inferred_type(data@) is None,
        },
{
    infer::get(data).map(|t| t.to_string())
}

/// The type that audio is answered with.
pub open spec fn content_type_of(inferred: Option<Seq<char>>) -> Seq<char> {
    match inferred {
        Some(t) => t,
        None => default_type(),
    }
}

/// The type that audio is answered with, given the one it was recognised as.
pub fn content_type_or_default(inferred: Option<String>) -> (s: String)
    ensures
        s@ == content_type_of(
            match inferred {
                Some(t) => Some(t@),
                None => None,
            },
        ),
{
    match inferred {
        Some(t) => t,
        None => "audio/mpeg".to_string(),
    }
}

/// Detects the media type of audio by its first bytes.
pub fn sniff_content_type(data: &[u8]) -> (s: String)
    ensures
        s@ == content_type_of(inferred_type(data@)),
        valid_header_value(s@),
{
    proof {
        reveal_strlit("audio/mpeg");
    }
    content_type_or_default(infer_type(data))
}

/// Answers with audio under the media type that its bytes show.
pub fn answer_sniffed(range: Option<&[u8]>, body: Bytes) -> (r: Result<AudioResponse, AppError>)
    ensures
        valid_header_value(content_type_of(inferred_type(blob::contents(body)))),
        answers_audio(
            header_view(range),
            content_type_of(inferred_type(blob::contents(body))),
            blob::contents(body),
            r,
        ),
{
    let content_type: String = sniff_content_type(blob::bytes_as_slice(&body));
    build_audio_response(range, content_type.as_str(), body)
}

/// Audio whose bytes are recognised as some other type than a raw octet stream, or as
/// none, is never answered as a raw octet stream.
pub proof fn law_never_octet_stream(data: Seq<u8>)
    requires
        inferred_type(data) != Some("application/octet-stream"@),
    ensures
        content_type_of(inferred_type(data)) != "application/octet-stream"@,
{
    reveal_strlit("application/octet-stream");
    reveal_strlit("audio/mpeg");
    assert("audio/mpeg"@.len() != "application/octet-stream"@.len());
}

/// The prefix of the cache keys of a route group.
pub open spec fn cache_prefix(uri_path: Seq<char>) -> Seq<char> {
    if text::begins_with(uri_path, "/meta"@) {
        "meta_cache:"@
    } else if text::begins_with(uri_path, "/thumbnail"@) {
        "thumb_cache:"@
    } else {
        "req_cache:"@
    }
}

/// The key under which the answer to a request is cached.
pub open spec fn cache_key_of(
    uri_path: Seq<char>,
    method: Seq<char>,
    params_hash: Seq<char>,
) -> Seq<char> {
    cache_prefix(uri_path) + ":"@ + method + ":"@ + params_hash
}

/// Writes the key under which the answer to a request is cached.
pub fn cache_key(uri_path: &str, method: &str, params_hash: &str) -> (s: String)
    ensures
        s@ == cache_key_of(uri_path@, method@, params_hash@),
{
    let prefix: &str = if text::starts_with(uri_path, "/meta") {
        "meta_cache:"
    } else if text::starts_with(uri_path, "/thumbnail") {
        "thumb_cache:"
    } else {
        "req_cache:"
    };
    let mut s: String = text::cat(prefix, ":");
    s.append(method);
    s.append(":");
    s.append(params_hash);
    s
}

/// Writes the key under which the answer to a request is cached, by the name under which
/// its result is stored. `path` is the canonical text of the request.
pub fn request_cache_key(uri_path: &str, method: &str, params: &Params, path: &str) -> (s: String)
    ensures
        s@ == cache_key_of(
            uri_path@,
            method@,
            hasher::suffixed(params.key@, params.format, hasher::text_digest(path@)),
        ),
        hasher::text_digest(path@).len() == 20,
{
    let params_hash: String = hasher::suffix_result_storage_hasher(params, path);
    cache_key(uri_path, method, params_hash.as_str())
}

/// What a handler needs to fill the cache after a miss.
pub struct CacheMissContext {
    pub cache_key: String,
}

/// A value to be written to the response cache. It has no expiry.
pub struct CacheWrite {
    pub key: String,
    pub data: Bytes,
}

impl CacheMissContext {
    /// The write that fills the cache with `data`.
    pub fn populate(self, data: Bytes) -> (w: CacheWrite)
        ensures
            w.key == self.cache_key,
            w.data == data,
    {
        CacheWrite { key: self.cache_key, data }
    }
}

/// What follows the look into the response cache.
pub enum CacheOutcome {
    /// The answer is in the cache.
    Hit(AudioResponse),
    /// The handler is to find the answer, and may fill the cache with it. The parameters of
    /// the request go on to it, so that it does not parse them again.
    Miss(CacheMissContext, Params),
}

/// Decides a request by what the response cache gave for its key: audio, nothing, or
/// the text of an error. `params` are the parameters that were parsed of the request.
pub fn cache_middleware(
    cache_key: String,
    params: Params,
    cached: Result<Option<Bytes>, String>,
    range: Option<&[u8]>,
) -> (r: Result<CacheOutcome, AppError>)
    ensures
        match cached {
            Err(e) => r is Err && r->Err_0.says(500, "Failed to get cache: "@ + e@),
            Ok(None) => {
                &&& r is Ok
                &&& r->Ok_0 is Miss
                &&& r->Ok_0->Miss_0.cache_key == cache_key
                &&& r->Ok_0->Miss_1 == params
            },
            Ok(Some(body)) => {
                &&& r is Ok ==> r->Ok_0 is Hit
                &&& answers_audio(
                    header_view(range),
                    content_type_of(inferred_type(blob::contents(body))),
                    blob::contents(body),
                    match r {
                        Ok(outcome) => Ok(outcome->Hit_0),
                        Err(e) => Err(e),
                    },
                )
            },
        },
{
    match cached {
        Err(e) => Err(e500(text::cat("Failed to get cache: ", e.as_str()))),
        Ok(None) => Ok(CacheOutcome::Miss(CacheMissContext { cache_key }, params)),
        Ok(Some(body)) => match answer_sniffed(range, body) {
            Ok(response) => Ok(CacheOutcome::Hit(response)),
            Err(e) => Err(e),
        },
    }
}

/// Answers of different route groups never share a cache key.
pub proof fn law_route_groups_do_not_collide(
    path: Seq<char>,
    method: Seq<char>,
    hash: Seq<char>,
    other_path: Seq<char>,
    other_method: Seq<char>,
    other_hash: Seq<char>,
)
    requires
        cache_prefix(path) != cache_prefix(other_path),
    ensures
        cache_key_of(path, method, hash) != cache_key_of(other_path, other_method, other_hash),
{
    reveal_strlit("meta_cache:");
    reveal_strlit("thumb_cache:");
    reveal_strlit("req_cache:");
    assert(cache_key_of(path, method, hash)[0] == cache_prefix(path)[0]);
    assert(cache_key_of(other_path, other_method, other_hash)[0] == cache_prefix(other_path)[0]);
}

/// Within a route group, requests share a cache key only where their methods and hashes
/// are the same. A method holds no colon.
pub proof fn law_cache_key_injective(
    path: Seq<char>,
    method: Seq<char>,
    hash: Seq<char>,
    other_method: Seq<char>,
    other_hash: Seq<char>,
)
    requires
        !method.contains(':'),
        !other_method.contains(':'),
        cache_key_of(path, method, hash) == cache_key_of(path, other_method, other_hash),
    ensures
        method == other_method,
        hash == other_hash,
{
    reveal_strlit(":");
    let n = cache_prefix(path).len() + 1;
    let k = cache_key_of(path, method, hash);
    let l = cache_key_of(path, other_method, other_hash);
    let (m, o) = (method.len() as int, other_method.len() as int);
    assert(k[n + m] == ':');
    assert(l[n + o] == ':');
    if m < o {
        assert(l[n + m] == other_method[m]);
    }
    if o < m {
        assert(k[n + o] == method[o]);
    }
    assert(method =~= k.subrange(n as int, n + m));
    assert(other_method =~= l.subrange(n as int, n + o));
    assert(hash =~= k.skip(n + m + 1));
    assert(other_hash =~= l.skip(n + o + 1));
}

/// The first segment of a path.
pub open spec fn first_segment(s: Seq<char>) -> Seq<char> {
    match text::first_index(s, '/') {
        Some(i) => s.take(i),
        None => s,
    }
}

/// The hash that a URI carries: the first segment after the route prefix.
pub open spec fn uri_hash(uri_path: Seq<char>) -> Option<Seq<char>> {
    let rest = routing::stripped(uri_path);
    if text::begins_with(rest, "/"@) {
        Some(first_segment(rest.skip(1)))
    } else {
        None
    }
}

/// Finds the hash that a URI carries.
pub fn parse_uri_hash(uri_path: &str) -> (r: Option<&str>)
    ensures
        match r {
            Some(h) => uri_hash(uri_path@) == Some(h@),
            None => uri_hash(uri_path@) is None,
        },
{
    let rest: &str = routing::strip_route_prefix(uri_path);
    if !text::starts_with(rest, "/") {
        return None;
    }
    proof {
        reveal_strlit("/");
    }
    let tail: &str = text::text_from(rest, 1);
    proof {
        text::lemma_first_index(tail@, '/');
    }
    match text::find_char(tail, '/') {
        Some(i) => Some(text::text_until(tail, i)),
        None => Some(tail),
    }
}

/// Whether a hash stands for no signature at all.
pub open spec fn unsigned(hash: Seq<char>) -> bool {
    hash == "unsafe"@
}

/// Whether an admission is the one of a request whose URI carries `hash`, judged by
/// `verdict`.
pub open spec fn admits(
    hash: Option<Seq<char>>,
    verdict: Result<(), AuthError>,
    r: Result<(), AppError>,
) -> bool {
    match hash {
        None => r is Err && r->Err_0.says(400, "Failed to parse URI hash"@),
        Some(h) => if unsigned(h) {
            r is Ok
        } else {
            match verdict {
                Ok(()) => r is Ok,
                Err(e) => r is Err && r->Err_0.says(
                    400,
                    "Failed to verify hash: "@ + e.message(),
                ),
            }
        },
    }
}

/// Answers the verdict on a hash.
pub fn admit_verdict(verdict: Result<(), AuthError>) -> (r: Result<(), AppError>)
    ensures
        match verdict {
            Ok(()) => r is Ok,
            Err(e) => r is Err && r->Err_0.says(400, "Failed to verify hash: "@ + e.message()),
        },
{
    match verdict {
        Ok(()) => Ok(()),
        Err(e) => Err(e400(text::cat("Failed to verify hash: ", e.describe().as_str()))),
    }
}

/// Admits a request by its signature. `path` is the canonical text of the request.
pub fn auth_middleware(uri_path: &str, path: &str, secret: &str) -> (r: Result<(), AppError>)
    ensures
        admits(
            uri_hash(uri_path@),
            hasher::hash_verdict(
                uri_hash(uri_path@)->Some_0,
                hasher::hmac_sha256(encode_utf8(secret@), encode_utf8(path@)),
            ),
            r,
        ),
{
    match parse_uri_hash(uri_path) {
        None => Err(e400("Failed to parse URI hash".to_string())),
        Some(hash) => if text::same_text(hash, "unsafe") {
            Ok(())
        } else {
            admit_verdict(hasher::verify_hash(hash, path, secret))
        },
    }
}

/// A route prefix, or none.
pub open spec fn route_group(prefix: Seq<char>) -> bool {
    prefix.len() == 0 || routing::route_prefixes().contains(prefix)
}

/// The hash that stands in a URI after a route prefix is the one that is found there,
/// unless the URI has no prefix and its first segment reads as one.
proof fn lemma_uri_hash(prefix: Seq<char>, hash: Seq<char>, key: Seq<char>)
    requires
        route_group(prefix),
        !hash.contains('/'),
        prefix.len() == 0 && hash.len() > 0 ==> !"pmst"@.contains(hash[0]),
    ensures
        uri_hash(prefix + "/"@ + hash + "/"@ + key) == Some(hash),
{
    reveal_strlit("/");
    reveal_strlit("pmst");
    reveal_strlit("/params");
    reveal_strlit("/meta");
    reveal_strlit("/stream");
    reveal_strlit("/thumbnail");
    let uri = prefix + "/"@ + hash + "/"@ + key;
    let rest = "/"@ + hash + "/"@ + key;
    assert(uri =~= prefix + rest);
    if prefix.len() == 0 {
        assert(uri =~= rest);
        assert(rest[1] == if hash.len() > 0 {
            hash[0]
        } else {
            '/'
        });
        assert("pmst"@[0] == 'p' && "pmst"@[1] == 'm' && "pmst"@[2] == 's' && "pmst"@[3] == 't');
        assert(rest.len() >= 7 ==> rest.take(7)[1] == rest[1]);
        assert(rest.len() >= 5 ==> rest.take(5)[1] == rest[1]);
        assert(rest.len() >= 10 ==> rest.take(10)[1] == rest[1]);
    } else {
        routing::law_each_prefix_is_stripped(prefix, rest);
    }
    assert(routing::stripped(uri) == rest);
    assert(rest.take(1) =~= "/"@);
    let tail = rest.skip(1);
    assert(tail =~= hash + "/"@ + key);
    text::lemma_first_index(tail, '/');
    assert(tail[hash.len() as int] == '/');
    let i = text::first_index(tail, '/')->Some_0;
    if i < hash.len() {
        assert(tail[i] == hash[i]);
    }
    assert(tail.take(i) =~= hash);
}

/// A URI that carries the signature of its path is admitted, on every route.
pub proof fn law_signed_uri_is_admitted(
    prefix: Seq<char>,
    key: Seq<char>,
    path: Seq<char>,
    secret: Seq<char>,
    r: Result<(), AppError>,
)
    requires
        route_group(prefix),
        ({
            let code = hasher::hmac_sha256(encode_utf8(secret), encode_utf8(path));
            let uri = prefix + "/"@ + hasher::hex_text(code) + "/"@ + key;
            admits(uri_hash(uri), hasher::hash_verdict(uri_hash(uri)->Some_0, code), r)
        }),
    ensures
        r is Ok,
{
    reveal_strlit("pmst");
    let code = hasher::hmac_sha256(encode_utf8(secret), encode_utf8(path));
    let hash = hasher::hex_text(code);
    assert forall|i: int| 0 <= i < hash.len() implies hasher::hex_value(
        #[trigger] hash[i] as u8,
    ) is Some by {}
    assert(!hash.contains('/')) by {
        if hash.contains('/') {
            let i = choose|i: int| 0 <= i < hash.len() && hash[i] == '/';
            assert(hasher::hex_value(hash[i] as u8) is Some);
        }
    }
    if hash.len() > 0 {
        assert(hasher::hex_value(hash[0] as u8) is Some);
    }
    lemma_uri_hash(prefix, hash, key);
    hasher::law_signed_path_verifies(path, secret);
}

/// A URI whose hash is the word for no signature is admitted, on every route.
pub proof fn law_unsigned_uri_is_admitted(
    prefix: Seq<char>,
    key: Seq<char>,
    verdict: Result<(), AuthError>,
    r: Result<(), AppError>,
)
    requires
        route_group(prefix),
        admits(uri_hash(prefix + "/"@ + "unsafe"@ + "/"@ + key), verdict, r),
    ensures
        r is Ok,
{
    reveal_strlit("unsafe");
    reveal_strlit("pmst");
    lemma_uri_hash(prefix, "unsafe"@, key);
}

/// A URI whose hash does not decode to the code of its path is refused as a bad
/// request, and no more is said.
pub proof fn law_forged_uri_is_refused(
    uri_path: Seq<char>,
    code: Seq<u8>,
    r: Result<(), AppError>,
)
    requires
        uri_hash(uri_path) is Some,
        !unsigned(uri_hash(uri_path)->Some_0),
        hasher::hex_decoded(encode_utf8(uri_hash(uri_path)->Some_0)) != Ok::<
            Seq<u8>,
            hasher::HexFault,
        >(code),
        admits(
            uri_hash(uri_path),
            hasher::hash_verdict(uri_hash(uri_path)->Some_0, code),
            r,
        ),
    ensures
        r is Err,
        r->Err_0.says(400, "Failed to verify hash: "@ + "Invalid credentials"@),
{
}

/// The bytes of `bytes=`, a first part, a dash and a last part.
pub open spec fn range_text(first: Seq<u8>, last: Seq<u8>) -> Seq<u8> {
    text::ascii_bytes("bytes="@) + first + seq![45u8] + last
}

/// The decimal text of a number, as bytes.
pub open spec fn number_text(n: nat) -> Seq<u8> {
    text::ascii_bytes(text::decimal(n))
}

/// Whether bytes can stand in a range: visible, and no comma.
pub open spec fn plain(s: Seq<u8>) -> bool {
    forall|i: int| 0 <= i < s.len() ==> 32 <= #[trigger] s[i] < 127 && s[i] != 44
}

/// A header of two parts, either of them empty, is split at its first dash.
proof fn lemma_range_parts(a: Seq<u8>, b: Seq<u8>, total: nat)
    requires
        total > 0,
        plain(a),
        plain(b),
        !a.contains(45),
    ensures
        match dashed_range(a, b, total) {
            Ok(r) => requested_range(Some(range_text(a, b)), total) == Ok::<
                Option<(nat, nat)>,
                RangeFault,
            >(Some(r)),
            Err(f) => requested_range(Some(range_text(a, b)), total) == Err::<
                Option<(nat, nat)>,
                RangeFault,
            >(f),
        },
{
    reveal_strlit("bytes=");
    let unit = text::ascii_bytes("bytes="@);
    assert(unit =~= bytes_unit());
    let h = range_text(a, b);
    let range = h.skip(6);
    assert(h.take(6) =~= bytes_unit());
    assert(range =~= a + seq![45u8] + b);
    assert forall|i: int| 0 <= i < range.len() implies 32 <= #[trigger] range[i] < 127 && range[i]
        != 44 by {
        if i < a.len() {
            assert(range[i] == a[i]);
        } else if i > a.len() {
            assert(range[i] == b[i - a.len() - 1]);
        }
    }
    assert forall|i: int| 0 <= i < h.len() implies 32 <= #[trigger] h[i] < 127 || h[i] == 9 by {
        if i < 6 {
            assert(h[i] == bytes_unit()[i]);
        } else {
            assert(h[i] == range[i - 6]);
        }
    }
    assert(!range.contains(44)) by {
        if range.contains(44) {
            let i = choose|i: int| 0 <= i < range.len() && range[i] == 44;
            assert(range[i] != 44);
        }
    }
    lemma_first_byte(range, 45);
    assert(range[a.len() as int] == 45);
    let dash = first_byte(range, 45)->Some_0;
    assert(dash == a.len()) by {
        if dash < a.len() {
            assert(range[dash] == a[dash]);
        }
    }
    assert(range.take(dash) =~= a);
    assert(range.skip(dash + 1) =~= b);
}

/// The digits of a number can stand in a range.
proof fn lemma_number_is_plain(n: nat)
    ensures
        plain(number_text(n)),
        !number_text(n).contains(45),
        number_text(n).len() > 0,
        text::unsigned_value(number_text(n)) == Some(n),
{
    text::lemma_decimal_roundtrip(n);
    let t = number_text(n);
    assert forall|i: int| 0 <= i < t.len() implies 32 <= #[trigger] t[i] < 127 && t[i] != 44 by {
        assert(text::is_digit(t[i]));
    }
    if t.contains(45) {
        let i = choose|i: int| 0 <= i < t.len() && t[i] == 45;
        assert(text::is_digit(t[i]));
    }
}

/// A header that names a start within the audio and no end is granted the audio from that
/// start to its last byte.
pub proof fn law_open_range_goes_to_the_end(start: nat, total: nat)
    requires
        start < total <= usize::MAX,
    ensures
        requested_range(Some(range_text(number_text(start), Seq::empty())), total) == Ok::<
            Option<(nat, nat)>,
            RangeFault,
        >(Some((start, (total - 1) as nat))),
{
    lemma_number_is_plain(start);
    lemma_range_parts(number_text(start), Seq::empty(), total);
}

/// A header that names both ends is granted exactly what lies between them, and an end past
/// the audio is cut to its last byte.
pub proof fn law_range_is_cut_to_the_audio(start: nat, end: nat, total: nat)
    requires
        start <= end <= usize::MAX,
        start < total <= usize::MAX,
    ensures
        requested_range(Some(range_text(number_text(start), number_text(end))), total) == Ok::<
            Option<(nat, nat)>,
            RangeFault,
        >(
            Some(
                (
                    start,
                    if end < total {
                        end
                    } else {
                        (total - 1) as nat
                    },
                ),
            ),
        ),
{
    lemma_number_is_plain(start);
    lemma_number_is_plain(end);
    lemma_range_parts(number_text(start), number_text(end), total);
}

/// A header that names a suffix is granted that many bytes at the end of the audio, or all of
/// it where it has fewer.
pub proof fn law_suffix_range_is_the_end(len: nat, total: nat)
    requires
        0 < len <= usize::MAX,
        0 < total <= usize::MAX,
    ensures
        ({
            let r = requested_range(Some(range_text(Seq::empty(), number_text(len))), total);
            &&& r is Ok
            &&& r->Ok_0 is Some
            &&& r->Ok_0->Some_0.1 == total - 1
            &&& len <= total ==> r->Ok_0->Some_0.1 - r->Ok_0->Some_0.0 + 1 == len
            &&& len > total ==> r->Ok_0->Some_0.0 == 0
        }),
{
    lemma_number_is_plain(len);
    lemma_range_parts(Seq::empty(), number_text(len), total);
}

/// A range that starts past the audio or ends before it starts, and a suffix of no bytes,
/// cannot be satisfied; neither can any range of audio without bytes.
pub proof fn law_impossible_range_is_refused(start: nat, end: nat, total: nat)
    requires
        start <= usize::MAX,
        end <= usize::MAX,
        total <= usize::MAX,
    ensures
        ({
            let no = Err::<Option<(nat, nat)>, RangeFault>(RangeFault::Unsatisfiable);
            let both = requested_range(
                Some(range_text(number_text(start), number_text(end))),
                total,
            );
            let open = requested_range(
                Some(range_text(number_text(start), Seq::empty())),
                total,
            );
            let none = requested_range(Some(range_text(Seq::empty(), number_text(0))), total);
            &&& start >= total ==> both == no && open == no
            &&& end < start ==> both == no
            &&& none == no
        }),
{
    lemma_number_is_plain(start);
    lemma_number_is_plain(end);
    lemma_number_is_plain(0);
    if total > 0 {
        lemma_range_parts(number_text(start), number_text(end), total);
        lemma_range_parts(number_text(start), Seq::empty(), total);
        lemma_range_parts(Seq::empty(), number_text(0), total);
    } else {
        lemma_empty_audio_has_no_range(number_text(start), number_text(end));
        lemma_empty_audio_has_no_range(number_text(start), Seq::empty());
        lemma_empty_audio_has_no_range(Seq::empty(), number_text(0));
    }
}

/// No range of audio without bytes can be satisfied.
proof fn lemma_empty_audio_has_no_range(a: Seq<u8>, b: Seq<u8>)
    requires
        plain(a),
        plain(b),
    ensures
        requested_range(Some(range_text(a, b)), 0) == Err::<Option<(nat, nat)>, RangeFault>(
            RangeFault::Unsatisfiable,
        ),
{
    reveal_strlit("bytes=");
    assert(text::ascii_bytes("bytes="@) =~= bytes_unit());
    let h = range_text(a, b);
    assert(h.take(6) =~= bytes_unit());
    assert forall|i: int| 0 <= i < h.len() implies 32 <= #[trigger] h[i] < 127 || h[i] == 9 by {
        if i < 6 {
            assert(h[i] == bytes_unit()[i]);
        } else if i < 6 + a.len() {
            assert(h[i] == a[i - 6]);
        } else if i > 6 + a.len() {
            assert(h[i] == b[i - 7 - a.len()]);
        }
    }
}

/// Without a header the whole is granted; a header that is no text is a bad request, one in
/// another unit than bytes is refused for that, one of several ranges cannot be satisfied, and
/// one without a dash is malformed.
pub proof fn law_other_headers_are_refused(header: Seq<u8>, total: nat)
    ensures
        ({
            let r = requested_range(Some(header), total);
            let text = forall|i: int|
                0 <= i < header.len() ==> 32 <= #[trigger] header[i] < 127 || header[i] == 9;
            let unit = header.len() >= 6 && header.take(6) == text::ascii_bytes("bytes="@);
            let several = header.skip(6).contains(',' as u8);
            let dash = header.skip(6).contains('-' as u8);
            &&& requested_range(None, total) == Ok::<Option<(nat, nat)>, RangeFault>(None)
            &&& !text ==> r == Err::<Option<(nat, nat)>, RangeFault>(RangeFault::NotAscii)
            &&& text && !unit ==> r == Err::<Option<(nat, nat)>, RangeFault>(RangeFault::Unit)
            &&& text && unit && (several || total == 0) ==> r == Err::<
                Option<(nat, nat)>,
                RangeFault,
            >(RangeFault::Unsatisfiable)
            &&& text && unit && !several && total > 0 && !dash ==> r == Err::<
                Option<(nat, nat)>,
                RangeFault,
            >(RangeFault::Malformed)
        }),
{
    reveal_strlit("bytes=");
    assert(text::ascii_bytes("bytes="@) =~= bytes_unit());
    if header.len() >= 6 {
        let range = header.skip(6);
        lemma_first_byte(range, 45);
        if first_byte(range, 45) is Some {
            assert(range[first_byte(range, 45)->Some_0] == 45);
        }
    }
}

/// A side of the dash that is no number, or none that fits a machine word, is refused, and the
/// refusal says which side it was.
pub proof fn law_unreadable_sides_are_named(side: Seq<u8>, start: nat, total: nat)
    requires
        plain(side),
        text::unsigned_value(side) matches Some(n) ==> n > usize::MAX,
        start < total <= usize::MAX,
    ensures
        requested_range(Some(range_text(Seq::empty(), side)), total) == Err::<
            Option<(nat, nat)>,
            RangeFault,
        >(RangeFault::Suffix),
        side.len() > 0 && !side.contains(45) ==> requested_range(
            Some(range_text(side, Seq::empty())),
            total,
        ) == Err::<Option<(nat, nat)>, RangeFault>(RangeFault::Start),
        side.len() > 0 ==> requested_range(
            Some(range_text(number_text(start), side)),
            total,
        ) == Err::<Option<(nat, nat)>, RangeFault>(RangeFault::End),
{
    lemma_number_is_plain(start);
    lemma_range_parts(Seq::empty(), side, total);
    if side.len() > 0 {
        if !side.contains(45) {
            lemma_range_parts(side, Seq::empty(), total);
        }
        lemma_range_parts(number_text(start), side, total);
    }
}

/// A range is answered as it was granted, and a refusal with its status and its text.
pub proof fn law_range_is_answered_as_granted(
    header: Option<Seq<u8>>,
    total: nat,
    r: Result<Option<(usize, usize)>, AppError>,
)
    requires
        answers_range(header, total, r),
    ensures
        r is Ok <==> requested_range(header, total) is Ok,
        r is Ok ==> (r->Ok_0 is Some <==> requested_range(header, total)->Ok_0 is Some),
        r matches Ok(Some((start, end))) ==> requested_range(header, total)->Ok_0->Some_0 == (
            start as nat,
            end as nat,
        ),
        r is Err ==> r->Err_0.status == requested_range(header, total)->Err_0.status()
            && r->Err_0.error@ == requested_range(header, total)->Err_0.message(),
{
}

/// Each fault of a header is told in its own words.
pub proof fn law_range_faults_are_told_apart(f: RangeFault)
    ensures
        f == RangeFault::NotAscii ==> f.message() == "Range header must be valid ASCII"@,
        f == RangeFault::Unit ==> f.message() == "Only byte ranges are supported"@,
        f == RangeFault::Unsatisfiable ==> f.message() == "Requested range cannot be satisfied"@,
        f == RangeFault::Malformed ==> f.message() == "Invalid Range header"@,
        f == RangeFault::Suffix ==> f.message() == "Invalid suffix byte range"@,
        f == RangeFault::Start ==> f.message() == "Invalid byte range start"@,
        f == RangeFault::End ==> f.message() == "Invalid byte range end"@,
{
}

/// A header is judged by its bytes, and the headers of an answer are its names and values.
pub proof fn law_headers_are_seen_as_they_are(
    header: Option<&[u8]>,
    headers: Seq<(String, String)>,
    i: int,
)
    requires
        0 <= i < headers.len(),
    ensures
        header is None ==> header_view(header) is None,
        header is Some ==> header_view(header) == Some(header->Some_0@),
        header_texts(headers).len() == headers.len(),
        header_texts(headers)[i] == (headers[i].0@, headers[i].1@),
{
}

/// Every fault of a header but one is answered as a range that cannot be satisfied.
pub proof fn law_range_faults_are_client_errors(f: RangeFault)
    ensures
        f == RangeFault::NotAscii ==> f.status() == 400,
        f != RangeFault::NotAscii ==> f.status() == 416,
{
}

/// The whole of the audio is answered as it is, with success; a part of it holds exactly the
/// bytes of its range; and audio is refused only where its range or its type is.
pub proof fn law_answer_holds_what_was_granted(
    header: Option<Seq<u8>>,
    content_type: Seq<char>,
    body: Seq<u8>,
    r: Result<AudioResponse, AppError>,
)
    requires
        answers_audio(header, content_type, body, r),
    ensures
        header is None && valid_header_value(content_type) ==> r is Ok && r->Ok_0.status == 200
            && blob::contents(r->Ok_0.body) == body,
        requested_range(header, body.len()) matches Ok(Some((start, end))) ==> (
        valid_header_value(content_type) ==> r is Ok && r->Ok_0.status == 206 && blob::contents(
            r->Ok_0.body,
        ).len() == end - start + 1 && forall|i: int|
            0 <= i <= end - start ==> #[trigger] blob::contents(r->Ok_0.body)[i] == body[start
                + i]),
        requested_range(header, body.len()) matches Err(f) ==> r is Err && r->Err_0.status
            == f.status(),
        r is Err && valid_header_value(content_type) ==> requested_range(
            header,
            body.len(),
        ) is Err,
        !valid_header_value(content_type) && requested_range(header, body.len()) is Ok ==> r is Err
            && r->Err_0.status == 500 && r->Err_0.error@ == "failed to parse header value"@,
{
    law_range_within_body(header, body.len());
}

/// The text of a `Content-Range` header names the two ends and the length of the whole.
pub proof fn law_content_range_names_the_part(start: nat, end: nat, total: nat)
    ensures
        ({
            let (s, e, t) = (text::decimal(start), text::decimal(end), text::decimal(total));
            let c = content_range(start, end, total);
            let dash = 6 + s.len() as int;
            let slash = dash + 1 + e.len();
            &&& c.len() == slash + 1 + t.len()
            &&& c.take(6) == "bytes "@
            &&& c.subrange(6, dash) == s
            &&& c[dash] == '-'
            &&& c.subrange(dash + 1, slash) == e
            &&& c[slash] == '/'
            &&& c.skip(slash + 1) == t
        }),
{
    reveal_strlit("bytes ");
    reveal_strlit("-");
    reveal_strlit("/");
    let (s, e, t) = (text::decimal(start), text::decimal(end), text::decimal(total));
    let c = content_range(start, end, total);
    let dash = 6 + s.len() as int;
    let slash = dash + 1 + e.len();
    assert(c.take(6) =~= "bytes "@);
    assert(c.subrange(6, dash) =~= s);
    assert(c.subrange(dash + 1, slash) =~= e);
    assert(c.skip(slash + 1) =~= t);
}

/// A text can be the value of a header exactly where none of its characters is a control
/// character, tabs apart.
pub proof fn law_header_values_hold_no_control_characters(s: Seq<char>, i: int)
    requires
        0 <= i < s.len(),
        s[i] != '\t',
        (s[i] as u32) < 32 || s[i] as u32 == 127,
    ensures
        !valid_header_value(s),
        forall|t: Seq<char>|
            (forall|k: int|
                0 <= k < t.len() ==> #[trigger] t[k] == '\t' || (32 <= t[k] as u32 && t[k] as u32
                    != 127)) ==> #[trigger] valid_header_value(t),
{
}

/// Audio is answered under the type that its bytes are recognised as, and as MPEG audio where
/// they are not recognised.
pub proof fn law_type_is_the_recognised_one(kind: Seq<char>)
    ensures
        content_type_of(Some(kind)) == kind,
        content_type_of(None) == "audio/mpeg"@,
{
}

/// Requests of the metadata route, of the thumbnail route and of any other route never share
/// a cache key, whatever else they ask.
pub proof fn law_routes_have_keys_of_their_own(
    rest: Seq<char>,
    other_rest: Seq<char>,
    plain: Seq<char>,
    method: Seq<char>,
    hash: Seq<char>,
    other_method: Seq<char>,
    other_hash: Seq<char>,
)
    requires
        !text::begins_with(plain, "/meta"@),
        !text::begins_with(plain, "/thumbnail"@),
    ensures
        ({
            let meta = cache_key_of("/meta"@ + rest, method, hash);
            let thumb = cache_key_of("/thumbnail"@ + other_rest, other_method, other_hash);
            &&& meta != thumb
            &&& meta != cache_key_of(plain, other_method, other_hash)
            &&& thumb != cache_key_of(plain, method, hash)
        }),
{
    reveal_strlit("/meta");
    reveal_strlit("/thumbnail");
    reveal_strlit("meta_cache:");
    reveal_strlit("thumb_cache:");
    reveal_strlit("req_cache:");
    let (m, t) = ("/meta"@ + rest, "/thumbnail"@ + other_rest);
    assert(m.take(5) =~= "/meta"@);
    assert(t.take(10) =~= "/thumbnail"@);
    if text::begins_with(t, "/meta"@) {
        assert(t.take(5)[1] == 't');
    }
    assert(cache_prefix(m)[0] == 'm' && cache_prefix(t)[0] == 't' && cache_prefix(plain)[0]
        == 'r');
    law_route_groups_do_not_collide(m, method, hash, t, other_method, other_hash);
    law_route_groups_do_not_collide(m, method, hash, plain, other_method, other_hash);
    law_route_groups_do_not_collide(t, other_method, other_hash, plain, method, hash);
}

/// A request without a hash in its URI is a bad request; one whose hash was refused is too;
/// one whose hash was accepted is admitted.
pub proof fn law_admission_follows_the_verdict(
    hash: Option<Seq<char>>,
    verdict: Result<(), AuthError>,
    r: Result<(), AppError>,
)
    requires
        admits(hash, verdict, r),
    ensures
        hash is None ==> r is Err && r->Err_0.status == 400 && r->Err_0.error@
            == "Failed to parse URI hash"@,
        hash is Some && verdict is Ok ==> r is Ok,
        hash is Some && hash->Some_0 != "unsafe"@ && verdict is Err ==> r is Err && r->Err_0.status
            == 400,
        hash == Some("unsafe"@) ==> r is Ok,
{
}

/// The hash that stands in a URI after a route prefix, and before the key, is the one that is
/// found there, unless the URI has no prefix and its first segment reads as one; a URI that does
/// not begin with a slash once its prefix is stripped carries none.
pub proof fn law_uri_carries_its_hash(
    prefix: Seq<char>,
    hash: Seq<char>,
    key: Seq<char>,
    other: Seq<char>,
)
    requires
        route_group(prefix),
        !hash.contains('/'),
        prefix.len() == 0 && hash.len() > 0 ==> !"pmst"@.contains(hash[0]),
    ensures
        uri_hash(prefix + "/"@ + hash + "/"@ + key) == Some(hash),
        route_group("/meta"@) && route_group("/params"@) && route_group("/stream"@) && route_group(
            "/thumbnail"@,
        ),
        uri_hash(other) is None <==> !text::begins_with(routing::stripped(other), "/"@),
{
    lemma_uri_hash(prefix, hash, key);
    assert(routing::route_prefixes()[0] == "/params"@);
    assert(routing::route_prefixes()[1] == "/meta"@);
    assert(routing::route_prefixes()[2] == "/stream"@);
    assert(routing::route_prefixes()[3] == "/thumbnail"@);
}

/// A side of the dash is a number wherever it spells one that fits a machine word, and only
/// there.
pub proof fn law_sides_are_read_as_numbers(side: Seq<u8>)
    ensures
        position_value(side) is Some <==> text::unsigned_value(side) is Some
            && text::unsigned_value(side)->Some_0 <= usize::MAX,
        position_value(side) is Some ==> position_value(side) == text::unsigned_value(side),
{
}

/// The hash of a URI is what stands between the first slash behind its prefix and the next one,
/// or the end.
pub proof fn law_hash_is_the_first_segment(uri: Seq<char>, hash: Seq<char>, key: Seq<char>)
    requires
        !hash.contains('/'),
        routing::stripped(uri) == "/"@ + hash || routing::stripped(uri) == "/"@ + hash + "/"@ + key,
    ensures
        uri_hash(uri) == Some(hash),
{
    reveal_strlit("/");
    let rest = routing::stripped(uri);
    assert(rest.take(1) =~= "/"@);
    let tail = rest.skip(1);
    if rest == "/"@ + hash {
        assert(tail =~= hash);
        text::law_separator_is_found(hash, '/', key);
    } else {
        assert(tail =~= hash + seq!['/'] + key);
        text::law_separator_is_found(hash, '/', key);
        assert(tail.take(hash.len() as int) =~= hash);
    }
}

} // verus!
