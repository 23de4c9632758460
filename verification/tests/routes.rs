use bytes::Bytes;
use streaming_engine::blob::{AudioBuffer, AudioFormat};
use streaming_engine::ffmpeg::metadata::{extract_metadata, ProbedFile};
use streaming_engine::float64::Float64;
use streaming_engine::inflight::{CoalesceError, CoalesceResult, InflightGuard, InflightTracker, JoinStep};
use streaming_engine::middleware::CacheMissContext;
use streaming_engine::routes::list::list_handler;
use streaming_engine::routes::meta::{meta_handler, Extraction};
use streaming_engine::routes::source::{accept_source, is_remote, serve, Fetched, Served};
use streaming_engine::routes::streamingpath::{
    lead_failed, on_coalesced_read, on_joined, on_processed, on_stored, streamingpath_handler,
    AfterJoin, AfterLookup,
};
use streaming_engine::routes::thumbnail::{
    finish_thumbnail, stage_failed, thumbnail_config, thumbnail_handler, thumbnail_hash,
    thumbnail_params, AfterThumbnailLookup, Stage, ThumbnailQuery,
};
use streaming_engine::streamingpath::hasher::suffix_result_storage_hasher;
use streaming_engine::streamingpath::params::Params;
use streaming_engine::thumbnail::ThumbnailResult;
use streaming_engine::utils::{e500, AppError};

fn f(x: f64) -> Float64 {
    Float64 { bits: x.to_bits() }
}

fn audio(data: &[u8]) -> AudioBuffer {
    AudioBuffer::from_bytes_with_format(data.to_vec(), AudioFormat::Mp3)
}

fn miss() -> Option<CacheMissContext> {
    Some(CacheMissContext { cache_key: "ck".to_string() })
}

fn leader(tracker: &mut InflightTracker, key: &str) -> InflightGuard {
    match tracker.try_join(key, 0) {
        JoinStep::Settled(CoalesceResult::Leader(g)) => g,
        other => panic!("expected Leader, got {other:?}"),
    }
}

fn error_of(s: &Served) -> (u16, &str) {
    match &s.response {
        Err(e) => (e.status, e.error.as_str()),
        Ok(_) => panic!("expected an error"),
    }
}

fn says<T>(r: Result<T, AppError>) -> (u16, String) {
    match r {
        Err(e) => (e.status, e.error),
        Ok(_) => panic!("expected an error"),
    }
}

fn header<'a>(s: &'a Served, name: &str) -> Option<&'a str> {
    let r = match &s.response {
        Ok(r) => r,
        Err(_) => panic!("expected audio"),
    };
    r.headers.iter().find(|h| h.0 == name).map(|h| h.1.as_str())
}

#[test]
fn listing_is_answered() {
    let keys = vec!["a".to_string(), "b".to_string()];
    assert_eq!(list_handler(Ok(keys.clone())).unwrap().keys, keys);
    assert_eq!(
        says(list_handler(Err("io".to_string()))),
        (500, "Failed to list audio files: io".to_string())
    );
}

#[test]
fn remote_keys_are_told_apart() {
    assert!(is_remote("https://h/a.mp3"));
    assert!(is_remote("http://h/a.mp3"));
    assert!(!is_remote("ftp://h/a.mp3"));
    assert!(!is_remote("a/http://x"));
}

#[test]
fn sources_are_accepted_up_to_the_limit() {
    assert_eq!(accept_source(Fetched::Stored(Ok(audio(b"1234"))), 4).unwrap().len(), 4);
    assert_eq!(accept_source(Fetched::Remote(Ok(audio(b"1234"))), 4).unwrap().len(), 4);
    let too_large = (413, "Source audio too large: 5 bytes (max 4)".to_string());
    assert_eq!(says(accept_source(Fetched::Stored(Ok(audio(b"12345"))), 4)), too_large);
    assert_eq!(says(accept_source(Fetched::Remote(Ok(audio(b"12345"))), 4)), too_large);
    assert_eq!(
        says(accept_source(Fetched::Stored(Err("gone".to_string())), 4)),
        (404, "Failed to fetch audio: gone".to_string())
    );
    assert_eq!(
        says(accept_source(Fetched::Remote(Err(e500("net".to_string()))), 4)),
        (500, "net".to_string())
    );
}

#[test]
fn a_stored_result_is_served_and_cached() {
    match streamingpath_handler(Some(Bytes::from_static(b"OggS0123")), Some(b"bytes=1-2"), miss()) {
        AfterLookup::Answer(s) => {
            assert_eq!(header(&s, "content-range"), Some("bytes 1-2/8"));
            assert_eq!(header(&s, "content-type"), Some("audio/ogg"));
            let fill = s.fill.unwrap();
            assert_eq!(fill.key, "ck");
            assert_eq!(&fill.data[..], b"OggS0123");
        }
        AfterLookup::Join(_) => panic!("expected an answer"),
    }
    match streamingpath_handler(None, None, miss()) {
        AfterLookup::Join(Some(ctx)) => assert_eq!(ctx.cache_key, "ck"),
        _ => panic!("expected a join"),
    }
}

#[test]
fn a_refused_range_still_fills_the_cache() {
    let s = serve(Some(b"bytes=9-"), miss(), Bytes::from_static(b"x"));
    assert_eq!(error_of(&s), (416, "Requested range cannot be satisfied"));
    assert_eq!(&s.fill.unwrap().data[..], b"x");
}

#[test]
fn joins_are_decided() {
    let mut tracker = InflightTracker::new();
    let guard = leader(&mut tracker, "k");
    assert!(matches!(on_joined(CoalesceResult::Leader(guard)), AfterJoin::Lead(_)));
    assert!(matches!(on_joined(CoalesceResult::Waiter(Ok(()))), AfterJoin::Read));
    let error = || CoalesceError { inner: "boom".to_string() };
    match on_joined(CoalesceResult::Waiter(Err(error()))) {
        AfterJoin::Fail(e) => {
            assert_eq!((e.status, e.error.as_str()), (500, "coalesced request failed: boom"))
        }
        _ => panic!("expected a failure"),
    }
    match on_joined(CoalesceResult::Failed(error())) {
        AfterJoin::Fail(e) => {
            assert_eq!((e.status, e.error.as_str()), (500, "request failed (cached): boom"))
        }
        _ => panic!("expected a failure"),
    }
}

#[test]
fn a_leader_completes_once_its_result_is_stored() {
    let mut tracker = InflightTracker::new();
    let guard = leader(&mut tracker, "k");
    let (published, s) = on_stored(
        guard,
        &mut tracker,
        Ok(()),
        audio(b"processed"),
        None,
        miss(),
        0,
    );
    assert!(matches!(published.outcome, Some(Ok(()))));
    assert_eq!(header(&s, "content-length"), Some("9"));
    assert_eq!(&s.fill.unwrap().data[..], b"processed");
    leader(&mut tracker, "k");
}

#[test]
fn a_leader_fails_where_its_result_is_not_stored() {
    let mut tracker = InflightTracker::new();
    let guard = leader(&mut tracker, "k");
    let (published, s) = on_stored(
        guard,
        &mut tracker,
        Err("disk full".to_string()),
        audio(b"processed"),
        None,
        miss(),
        7,
    );
    assert_eq!(error_of(&s), (500, "Failed to save result audio: disk full"));
    assert!(s.fill.is_none());
    match published.outcome {
        Some(Err(e)) => assert_eq!(e.inner, "result storage write failed: disk full"),
        _ => panic!("expected a failure"),
    }
    match tracker.try_join("k", 8) {
        JoinStep::Settled(CoalesceResult::Failed(e)) => {
            assert_eq!(e.inner, "result storage write failed: disk full")
        }
        other => panic!("expected Failed, got {other:?}"),
    }
}

#[test]
fn a_leader_fails_with_the_error_of_its_work() {
    let mut tracker = InflightTracker::new();
    let guard = leader(&mut tracker, "k");
    let error = match on_processed(Err("codec".to_string())) {
        Err(e) => e,
        Ok(_) => panic!("expected an error"),
    };
    let (published, s) = lead_failed(guard, &mut tracker, error, 0);
    assert_eq!(error_of(&s), (500, "Failed to process audio: codec"));
    assert!(matches!(published.outcome, Some(Err(e)) if e.inner == "Failed to process audio: codec"));
    assert_eq!(on_processed(Ok(audio(b"ab"))).unwrap().len(), 2);
}

#[test]
fn a_waiter_reads_what_its_leader_stored() {
    let s = on_coalesced_read(Ok(Bytes::from_static(b"abc")), Some(b"bytes=-1"), miss());
    assert_eq!(header(&s, "content-range"), Some("bytes 2-2/3"));
    assert_eq!(&s.fill.unwrap().data[..], b"abc");
    let s = on_coalesced_read(Err("gone".to_string()), None, miss());
    assert_eq!(error_of(&s), (500, "failed to read coalesced result from storage: gone"));
    assert!(s.fill.is_none());
}

#[test]
fn metadata_is_answered() {
    let probe = ProbedFile {
        format: Some("wav".to_string()),
        duration: 5,
        bit_rate: 6,
        tags: vec![("t".to_string(), "v".to_string())],
        stream: None,
    };
    let m = meta_handler(Extraction::Found(extract_metadata(probe, 9))).unwrap();
    assert_eq!((m.format.as_str(), m.duration, m.bit_rate, m.size), ("wav", Some(5), Some(6), Some(9)));
    assert_eq!((m.sample_rate, m.channels), (None, None));
    assert_eq!(m.tags.get("t").map(|s| s.as_str()), Some("v"));
    assert_eq!(
        says(meta_handler(Extraction::Failed("bad".to_string()))),
        (500, "Failed to extract metadata: bad".to_string())
    );
    assert_eq!(
        says(meta_handler(Extraction::Aborted("panic".to_string()))),
        (500, "Metadata extraction task failed: panic".to_string())
    );
}

#[test]
fn thumbnail_queries_have_defaults() {
    let c = thumbnail_config(&ThumbnailQuery {
        thumbnail_duration: None,
        thumbnail_min_duration: Some(f(10.0)),
        thumbnail_max_duration: None,
    });
    assert_eq!(
        (c.target_duration, c.min_duration, c.max_duration),
        (f(30.0), f(10.0), f(45.0))
    );
}

#[test]
fn thumbnails_are_stored_apart() {
    let p = Params { key: "a.mp3".to_string(), ..Default::default() };
    let name = suffix_result_storage_hasher(&p, "a.mp3");
    assert_eq!(thumbnail_hash(&p, "a.mp3"), format!("{name}_thumb"));
}

#[test]
fn a_stored_thumbnail_is_served() {
    match thumbnail_handler(Some(Bytes::from_static(b"xyz")), None, None) {
        AfterThumbnailLookup::Answer(s) => {
            assert_eq!(header(&s, "content-length"), Some("3"));
            assert!(s.fill.is_none());
        }
        AfterThumbnailLookup::Fetch(_) => panic!("expected an answer"),
    }
    assert!(matches!(thumbnail_handler(None, None, None), AfterThumbnailLookup::Fetch(None)));
}

#[test]
fn thumbnail_stages_fail_with_their_texts() {
    let texts = [
        (Stage::DecodeTask, "PCM decode failed: e"),
        (Stage::Decode, "Failed to decode audio: e"),
        (Stage::Analysis, "Thumbnail analysis failed: e"),
        (Stage::Process, "Failed to process audio: e"),
    ];
    for (stage, text) in texts {
        let e = stage_failed(stage, "e");
        assert_eq!((e.status, e.error.as_str()), (500, text));
    }
}

#[test]
fn a_finished_thumbnail_says_which_part_it_is() {
    let t = ThumbnailResult { start_time: f(38.04), duration: f(28.25), confidence: f(0.876) };
    let r = finish_thumbnail("track.mp3", "sk".to_string(), &t, audio(b"thumb"), None, miss());
    assert_eq!(header(&r.served, "x-thumbnail-confidence"), Some("0.88"));
    assert_eq!(header(&r.served, "x-thumbnail-start"), Some("38.0"));
    assert_eq!(header(&r.served, "x-thumbnail-duration"), Some("28.2"));
    assert_eq!(
        header(&r.served, "link"),
        Some("</unsafe/track.mp3?start_time=38.0&duration=28.2>; rel=canonical")
    );
    assert_eq!(header(&r.served, "content-length"), Some("5"));
    assert_eq!(r.store_key, "sk");
    assert_eq!(&r.store.into_bytes()[..], b"thumb");
    assert_eq!(&r.served.fill.unwrap().data[..], b"thumb");
    let r = finish_thumbnail("k", "sk".to_string(), &t, audio(b"thumb"), Some(b"x"), miss());
    assert_eq!(error_of(&r.served), (416, "Only byte ranges are supported"));
    assert!(r.served.fill.is_some());
}

#[test]
fn thumbnail_parameters_cut_the_part_out() {
    let p = Params { key: "a".to_string(), volume: Some(f(0.5)), ..Default::default() };
    let t = ThumbnailResult { start_time: f(1.0), duration: f(2.0), confidence: f(0.5) };
    let cut = thumbnail_params(p, &t);
    assert_eq!((cut.start_time, cut.duration), (Some(f(1.0)), Some(f(2.0))));
    assert_eq!(cut.volume, Some(f(0.5)));
    assert_eq!(cut.key, "a");
}
