use bytes::Bytes;
use streaming_engine::middleware::{
    admit_verdict, answer_sniffed, auth_middleware, build_audio_response, cache_key,
    cache_middleware, content_type_or_default, parse_range, parse_uri_hash, request_cache_key,
    sniff_content_type, AudioResponse, CacheMissContext, CacheOutcome,
};
use streaming_engine::streamingpath::hasher::{
    compute_hash, suffix_result_storage_hasher, AuthError, CredentialFault,
};
use streaming_engine::streamingpath::params::Params;
use streaming_engine::streamingpath::routing::strip_route_prefix;
use streaming_engine::utils::{e400, e401, e404, e413, e416, e500, AppError};

fn range(header: &str, total: usize) -> Option<(usize, usize)> {
    parse_range(Some(header.as_bytes()), total).unwrap()
}

fn refused(header: &[u8], total: usize) -> (u16, String) {
    let e = parse_range(Some(header), total).unwrap_err();
    (e.status, e.error)
}

fn header<'a>(r: &'a AudioResponse, name: &str) -> Option<&'a str> {
    r.headers.iter().find(|h| h.0 == name).map(|h| h.1.as_str())
}

#[test]
fn no_header_asks_for_the_whole() {
    assert!(parse_range(None, 10).unwrap().is_none());
    assert!(parse_range(None, 0).unwrap().is_none());
}

#[test]
fn ranges_are_granted_within_the_body() {
    assert_eq!(range("bytes=2-7", 100), Some((2, 7)));
    assert_eq!(range("bytes=0-", 100), Some((0, 99)));
    assert_eq!(range("bytes=90-200", 100), Some((90, 99)));
    assert_eq!(range("bytes=99-99", 100), Some((99, 99)));
    assert_eq!(range("bytes=-10", 100), Some((90, 99)));
    assert_eq!(range("bytes=-1000", 100), Some((0, 99)));
    assert_eq!(range("bytes=+2-+7", 100), Some((2, 7)));
    assert_eq!(range("bytes=0-18446744073709551615", 100), Some((0, 99)));
}

#[test]
fn each_range_fault_has_its_answer() {
    let unsatisfiable = "Requested range cannot be satisfied".to_string();
    assert_eq!(
        refused(b"bytes=\xff", 10),
        (400, "Range header must be valid ASCII".to_string())
    );
    assert_eq!(refused(b"bytes\x00", 10).0, 400);
    assert_eq!(refused(b"items=0-1", 10), (416, "Only byte ranges are supported".to_string()));
    assert_eq!(refused(b"byt", 10), (416, "Only byte ranges are supported".to_string()));
    assert_eq!(refused(b"bytes=0-1", 0), (416, unsatisfiable.clone()));
    assert_eq!(refused(b"bytes=0-1,3-4", 10), (416, unsatisfiable.clone()));
    assert_eq!(refused(b"bytes=5", 10), (416, "Invalid Range header".to_string()));
    assert_eq!(refused(b"bytes=-x", 10), (416, "Invalid suffix byte range".to_string()));
    assert_eq!(refused(b"bytes=-", 10), (416, "Invalid suffix byte range".to_string()));
    assert_eq!(refused(b"bytes=-0", 10), (416, unsatisfiable.clone()));
    assert_eq!(refused(b"bytes=x-1", 10), (416, "Invalid byte range start".to_string()));
    assert_eq!(refused(b"bytes=\t1-2", 10), (416, "Invalid byte range start".to_string()));
    assert_eq!(
        refused(b"bytes=18446744073709551616-", 10),
        (416, "Invalid byte range start".to_string())
    );
    assert_eq!(refused(b"bytes=10-", 10), (416, unsatisfiable.clone()));
    assert_eq!(refused(b"bytes=1-x", 10), (416, "Invalid byte range end".to_string()));
    assert_eq!(refused(b"bytes=1-2-3", 10), (416, "Invalid byte range end".to_string()));
    assert_eq!(refused(b"bytes=5-4", 10), (416, unsatisfiable));
}

#[test]
fn whole_answer_has_all_headers() {
    let r = build_audio_response(None, "audio/wav", Bytes::from_static(b"0123456789")).unwrap();
    assert_eq!(r.status, 200);
    let headers: Vec<(&str, &str)> =
        r.headers.iter().map(|h| (h.0.as_str(), h.1.as_str())).collect();
    assert_eq!(
        headers,
        vec![
            ("content-type", "audio/wav"),
            ("accept-ranges", "bytes"),
            ("content-length", "10"),
            ("cache-control", "no-cache"),
            ("access-control-allow-origin", "*"),
            ("content-disposition", "inline"),
        ]
    );
    assert_eq!(&r.body[..], b"0123456789");
}

#[test]
fn partial_answer_has_the_slice_and_says_which() {
    let body = Bytes::from_static(b"0123456789");
    let r = build_audio_response(Some(b"bytes=2-7"), "audio/wav", body).unwrap();
    assert_eq!(r.status, 206);
    assert_eq!(header(&r, "content-length"), Some("6"));
    assert_eq!(header(&r, "content-range"), Some("bytes 2-7/10"));
    assert_eq!(header(&r, "accept-ranges"), Some("bytes"));
    assert_eq!(header(&r, "content-disposition"), Some("inline"));
    assert_eq!(&r.body[..], b"234567");
}

#[test]
fn a_type_that_cannot_be_sent_is_an_error() {
    let e = match build_audio_response(None, "audio/\n", Bytes::from_static(b"x")) {
        Err(e) => e,
        Ok(_) => panic!("expected an error"),
    };
    assert_eq!((e.status, e.error.as_str()), (500, "failed to parse header value"));
}

#[test]
fn types_are_sniffed_or_taken_for_mpeg() {
    let wav = b"RIFF\x26\0\0\0WAVEfmt ";
    assert_eq!(sniff_content_type(wav), "audio/x-wav");
    assert_eq!(sniff_content_type(b"OggS\0\0\0\0\0\0"), "audio/ogg");
    assert_eq!(sniff_content_type(b"{\"format\":1}"), "audio/mpeg");
    assert_eq!(sniff_content_type(b""), "audio/mpeg");
    assert_eq!(content_type_or_default(None), "audio/mpeg");
    assert_eq!(content_type_or_default(Some("audio/ogg".to_string())), "audio/ogg");
    let r = answer_sniffed(None, Bytes::from_static(b"RIFF\x26\0\0\0WAVEfmt ")).unwrap();
    assert_eq!(header(&r, "content-type"), Some("audio/x-wav"));
}

#[test]
fn the_cache_key_of_a_request_names_its_result() {
    let params = Params { key: "music/a.mp3".to_string(), ..Default::default() };
    let hash = suffix_result_storage_hasher(&params, "music/a.mp3");
    assert_eq!(
        request_cache_key("/meta/unsafe/music/a.mp3", "GET", &params, "music/a.mp3"),
        cache_key("/meta/unsafe/music/a.mp3", "GET", &hash)
    );
    assert_ne!(
        request_cache_key("/unsafe/music/a.mp3", "GET", &params, "music/a.mp3"),
        request_cache_key("/unsafe/music/a.mp3", "GET", &params, "music/a.mp3?speed=2")
    );
}

#[test]
fn cache_keys_are_apart_by_route_group() {
    assert_eq!(cache_key("/unsafe/a.mp3", "GET", "h"), "req_cache::GET:h");
    assert_eq!(cache_key("/meta/unsafe/a.mp3", "GET", "h"), "meta_cache::GET:h");
    assert_eq!(cache_key("/thumbnail/unsafe/a.mp3", "HEAD", "h"), "thumb_cache::HEAD:h");
}

fn asked() -> Params {
    Params { key: "sample1.mp3".to_string(), channels: Some(1), ..Default::default() }
}

#[test]
fn cache_hit_is_answered_with_ranges() {
    let body = Bytes::from_static(b"RIFF\x26\0\0\0WAVEfmt ");
    match cache_middleware("k".to_string(), asked(), Ok(Some(body)), Some(b"bytes=0-3")).unwrap() {
        CacheOutcome::Hit(r) => {
            assert_eq!(r.status, 206);
            assert_eq!(&r.body[..], b"RIFF");
            assert_eq!(header(&r, "content-type"), Some("audio/x-wav"));
        }
        CacheOutcome::Miss(_, _) => panic!("expected a hit"),
    }
}

#[test]
fn cache_miss_carries_the_key_and_the_parameters() {
    match cache_middleware("k".to_string(), asked(), Ok(None), None).unwrap() {
        CacheOutcome::Miss(ctx, params) => {
            assert_eq!(params.key, "sample1.mp3");
            assert_eq!(params.channels, Some(1));
            assert!(params.format.is_none());
            assert_eq!(ctx.cache_key, "k");
            let write = ctx.populate(Bytes::from_static(b"data"));
            assert_eq!(write.key, "k");
            assert_eq!(&write.data[..], b"data");
        }
        CacheOutcome::Hit(_) => panic!("expected a miss"),
    }
}

#[test]
fn cache_error_is_an_internal_error() {
    let e = match cache_middleware("k".to_string(), asked(), Err("down".to_string()), None) {
        Err(e) => e,
        Ok(_) => panic!("expected an error"),
    };
    assert_eq!((e.status, e.error.as_str()), (500, "Failed to get cache: down"));
}

#[test]
fn prefixes_are_stripped() {
    assert_eq!(strip_route_prefix("/params/unsafe/a"), "/unsafe/a");
    assert_eq!(strip_route_prefix("/meta/unsafe/a"), "/unsafe/a");
    assert_eq!(strip_route_prefix("/stream/unsafe/a"), "/unsafe/a");
    assert_eq!(strip_route_prefix("/thumbnail/unsafe/a"), "/unsafe/a");
    assert_eq!(strip_route_prefix("/unsafe/meta"), "/unsafe/meta");
    assert_eq!(strip_route_prefix("/metal/x"), "l/x");
    assert_eq!(strip_route_prefix(""), "");
}

#[test]
fn hash_is_the_first_segment() {
    assert_eq!(parse_uri_hash("/meta/abc/key/x"), Some("abc"));
    assert_eq!(parse_uri_hash("/abc"), Some("abc"));
    assert_eq!(parse_uri_hash("/"), Some(""));
    assert_eq!(parse_uri_hash("abc/key"), None);
    assert_eq!(parse_uri_hash("/metal/key"), None);
}

#[test]
fn signed_and_unsigned_uris_are_admitted() {
    let path = "sample.mp3?volume=0.5";
    let hash = compute_hash(path, "secret").unwrap();
    for prefix in ["", "/params", "/meta", "/stream", "/thumbnail"] {
        assert!(auth_middleware(&format!("{prefix}/{hash}/sample.mp3"), path, "secret").is_ok());
        assert!(auth_middleware(&format!("{prefix}/unsafe/sample.mp3"), path, "secret").is_ok());
        let e = auth_middleware(&format!("{prefix}/{hash}/sample.mp3"), "other", "secret")
            .unwrap_err();
        assert_eq!(e.status, 400);
        assert_eq!(e.error, "Failed to verify hash: Invalid credentials");
    }
    let e = auth_middleware("nothing", path, "secret").unwrap_err();
    assert_eq!((e.status, e.error.as_str()), (400, "Failed to parse URI hash"));
}

#[test]
fn verdicts_are_answered() {
    assert!(admit_verdict(Ok(())).is_ok());
    let mismatch = AuthError::InvalidCredentials(CredentialFault::Mismatch);
    assert_eq!(
        admit_verdict(Err(mismatch)).unwrap_err().error,
        "Failed to verify hash: Invalid credentials"
    );
    let unexpected = AuthError::UnexpectedError("no key".to_string());
    assert_eq!(
        admit_verdict(Err(unexpected)).unwrap_err().error,
        "Failed to verify hash: no key"
    );
}

#[test]
fn errors_have_their_statuses() {
    let make: Vec<(fn(String) -> AppError, u16)> = vec![
        (e400, 400),
        (e401, 401),
        (e404, 404),
        (e413, 413),
        (e416, 416),
        (e500, 500),
    ];
    for (build, status) in make {
        let e = build("text".to_string());
        assert_eq!((e.status, e.error.as_str()), (status, "text"));
    }
    let ctx = CacheMissContext { cache_key: "k".to_string() };
    assert_eq!(ctx.cache_key, "k");
}
