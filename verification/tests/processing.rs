use streaming_engine::blob::{AudioBuffer, AudioFormat};
use streaming_engine::float64::{Float32, Float64};
use streaming_engine::processor::ffmpeg::{
    audio_format_to_output, collect_filters, is_passthrough_request, process_audio,
    process_audio_streaming, requested_format, OutputFormat, ProcessPlan, StreamPlan,
};
use streaming_engine::processor::Processor;
use streaming_engine::streamingpath::params::Params;
use streaming_engine::tags::Tags;

fn f(x: f64) -> Option<Float64> {
    Some(Float64 { bits: x.to_bits() })
}

fn mp3_frame() -> AudioBuffer {
    AudioBuffer::from_bytes_with_format(vec![0xFF, 0xFB, 0x90, 0x00], AudioFormat::Mp3)
}

fn mp3_output() -> OutputFormat {
    OutputFormat {
        format: "mp3".to_string(),
        codec: Some("libmp3lame".to_string()),
        sample_rate: None,
        channels: None,
        bit_rate: None,
        quality: None,
        compression_level: None,
    }
}

#[test]
fn test_collect_filters_empty() {
    let params = Params::default();
    assert!(collect_filters(&params).is_none());
}

#[test]
fn test_collect_filters_volume() {
    let params = Params { volume: f(0.5), ..Default::default() };
    assert_eq!(collect_filters(&params), Some("volume=0.50".to_string()));
}

#[test]
fn test_collect_filters_multiple() {
    let params = Params {
        volume: f(0.8),
        speed: f(1.5),
        lowpass: f(8000.0),
        ..Default::default()
    };
    let filters = collect_filters(&params).unwrap();
    assert!(filters.contains("atempo=1.500"));
    assert!(filters.contains("volume=0.80"));
    assert!(filters.contains("lowpass=f=8000.0"));
}

#[test]
fn test_audio_format_to_output() {
    let params = Params {
        bit_rate: Some(320),
        sample_rate: Some(48000),
        ..Default::default()
    };
    let output = audio_format_to_output(mp3_output(), &params);
    assert_eq!(output.format, "mp3");
    assert_eq!(output.codec, Some("libmp3lame".to_string()));
    assert_eq!(output.bit_rate, Some(320_000));
    assert_eq!(output.sample_rate, Some(48000));
}

#[test]
fn test_passthrough_request_same_format_no_work() {
    let input = mp3_frame();
    let params = Params::default();
    assert!(is_passthrough_request(&input, &params));
}

#[test]
fn test_passthrough_request_rejects_transcode() {
    let input = mp3_frame();
    let params = Params { format: Some(AudioFormat::Wav), ..Default::default() };
    assert!(!is_passthrough_request(&input, &params));
}

#[test]
fn all_filters_in_order() {
    let text = |s: &str| Some(s.to_string());
    let params = Params {
        speed: f(0.5),
        reverse: Some(true),
        volume: f(2.0),
        normalize: Some(true),
        lowpass: f(5000.0),
        highpass: f(20.25),
        bandpass: text("f=1000"),
        bass: f(-3.0),
        treble: f(4.55),
        echo: text("0.8:0.88:60:0.4"),
        chorus: text("c"),
        flanger: text("fl"),
        phaser: text("ph"),
        tremolo: text("tr"),
        compressor: text("co"),
        noise_reduction: text("nr"),
        fade_in: f(1.0),
        fade_out: f(2.5),
        cross_fade: f(0.125),
        custom_filters: Some(vec!["x=1".to_string(), "y=2".to_string()]),
        ..Default::default()
    };
    assert_eq!(
        collect_filters(&params).unwrap(),
        "atempo=0.500,areverse,volume=2.00,loudnorm=I=-16.0,lowpass=f=5000.0,highpass=f=20.2,\
         bandpass=f=1000,bass=g=-3.0,treble=g=4.5,aecho=0.8:0.88:60:0.4,chorus=c,flanger=fl,\
         aphaser=ph,tremolo=tr,acompressor=co,anlmdn=nr,afade=t=in:d=1.000,afade=t=out:d=2.500,\
         acrossfade=d=0.125,x=1,y=2"
    );
}

#[test]
fn neutral_values_ask_for_no_filter() {
    let params = Params {
        speed: f(1.0),
        volume: f(1.0),
        reverse: Some(false),
        normalize: Some(false),
        normalize_level: f(-23.0),
        custom_filters: Some(vec![]),
        ..Default::default()
    };
    assert!(collect_filters(&params).is_none());
    assert!(is_passthrough_request(&mp3_frame(), &params));
}

#[test]
fn normalize_level_replaces_the_default() {
    let params = Params {
        normalize: Some(true),
        normalize_level: f(-23.0),
        ..Default::default()
    };
    assert_eq!(collect_filters(&params).unwrap(), "loudnorm=I=-23.0");
}

#[test]
fn a_speed_that_is_no_number_is_handed_on() {
    let params = Params { speed: f(f64::NAN), ..Default::default() };
    assert_eq!(collect_filters(&params).unwrap(), "atempo=NaN");
}

#[test]
fn every_setting_alone_ends_passthrough() {
    let cases = vec![
        Params { codec: Some("aac".to_string()), ..Default::default() },
        Params { sample_rate: Some(8000), ..Default::default() },
        Params { channels: Some(1), ..Default::default() },
        Params { bit_rate: Some(64), ..Default::default() },
        Params { bit_depth: Some(24), ..Default::default() },
        Params { quality: f(0.5), ..Default::default() },
        Params { compression_level: Some(3), ..Default::default() },
        Params { start_time: f(1.0), ..Default::default() },
        Params { duration: f(1.0), ..Default::default() },
        Params { bass: f(0.0), ..Default::default() },
    ];
    for params in &cases {
        assert!(!is_passthrough_request(&mp3_frame(), params));
    }
}

#[test]
fn tags_end_passthrough_unless_there_are_none() {
    let params = Params { tags: Some(Tags::new()), ..Default::default() };
    assert!(is_passthrough_request(&mp3_frame(), &params));
    let mut tags = Tags::new();
    tags.insert("artist".to_string(), "a".to_string());
    let params = Params { tags: Some(tags), ..Default::default() };
    assert!(!is_passthrough_request(&mp3_frame(), &params));
}

#[test]
fn codec_of_the_request_replaces_the_one_of_the_format() {
    let params = Params {
        codec: Some("pcm_s16le".to_string()),
        channels: Some(2),
        quality: f(0.5),
        compression_level: Some(8),
        bit_rate: Some(i32::MIN),
        ..Default::default()
    };
    let output = audio_format_to_output(mp3_output(), &params);
    assert_eq!(output.codec, Some("pcm_s16le".to_string()));
    assert_eq!(output.channels, Some(2));
    assert_eq!(output.quality, Some(Float32 { bits: 0x3F00_0000 }));
    assert_eq!(output.compression_level, Some(8));
    assert_eq!(output.bit_rate, Some(i32::MIN as i64 * 1000));
}

#[test]
fn passthrough_hands_the_input_back() {
    match process_audio(&mp3_frame(), &Params::default(), mp3_output()) {
        ProcessPlan::Passthrough(b) => {
            assert_eq!(b.format(), AudioFormat::Mp3);
            assert_eq!(b.len(), 4);
            assert_eq!(&b.into_bytes()[..], &[0xFF, 0xFB, 0x90, 0x00]);
        }
        ProcessPlan::Run(_) => panic!("expected passthrough"),
    }
    match process_audio_streaming(&mp3_frame(), &Params::default(), mp3_output()) {
        StreamPlan::Once(b) => assert_eq!(&b[..], &[0xFF, 0xFB, 0x90, 0x00]),
        StreamPlan::Run(_) => panic!("expected passthrough"),
    }
}

#[test]
fn a_job_carries_what_the_request_asks_for() {
    let mut tags = Tags::new();
    tags.insert("title".to_string(), "t".to_string());
    let params = Params {
        volume: f(0.5),
        start_time: f(3.0),
        duration: f(4.0),
        tags: Some(tags),
        bit_rate: Some(320),
        ..Default::default()
    };
    assert_eq!(requested_format(&params), AudioFormat::Mp3);
    match process_audio(&mp3_frame(), &params, mp3_output()) {
        ProcessPlan::Run(job) => {
            assert_eq!(job.output_format, AudioFormat::Mp3);
            assert_eq!(job.output.format, "mp3");
            assert_eq!(job.output.codec, Some("libmp3lame".to_string()));
            assert_eq!(job.output.bit_rate, Some(320_000));
            assert_eq!(job.filters, Some("volume=0.50".to_string()));
            assert_eq!(job.start_time, f(3.0));
            assert_eq!(job.duration, f(4.0));
            assert_eq!(job.metadata.get("title").map(|s| s.as_str()), Some("t"));
            assert_eq!(job.input.len(), 4);
            let done = job.finish(vec![1, 2, 3]);
            assert_eq!(done.format(), AudioFormat::Mp3);
            assert_eq!(&done.into_bytes()[..], &[1, 2, 3]);
        }
        ProcessPlan::Passthrough(_) => panic!("expected a job"),
    }
    let params = Params { format: Some(AudioFormat::Wav), ..Default::default() };
    assert_eq!(requested_format(&params), AudioFormat::Wav);
    let wav = OutputFormat { format: "wav".to_string(), codec: None, ..mp3_output() };
    match process_audio_streaming(&mp3_frame(), &params, wav) {
        StreamPlan::Run(job) => {
            assert_eq!(job.output_format, AudioFormat::Wav);
            assert_eq!(job.output.format, "wav");
        }
        StreamPlan::Once(_) => panic!("expected a job"),
    }
}

#[test]
fn concurrency_is_configured_or_one_per_processor() {
    assert_eq!(Processor::with_cpus(Some(3), 8).max_concurrent, 3);
    assert_eq!(Processor::with_cpus(None, 8).max_concurrent, 8);
    assert_eq!(Processor::new(Some(3)).max_concurrent, 3);
    assert!(Processor::new(None).max_concurrent >= 1);
    assert_eq!(Processor::new(None).max_concurrent, num_cpus::get());
}

#[test]
fn tags_keep_one_value_for_each_name() {
    let mut tags = Tags::new();
    assert!(tags.is_empty());
    tags.insert("a".to_string(), "1".to_string());
    tags.insert("a".to_string(), "2".to_string());
    tags.insert_absent("a".to_string(), "3".to_string());
    tags.insert_absent("b".to_string(), "4".to_string());
    assert_eq!(tags.entries.len(), 2);
    assert_eq!(tags.get("a").map(|s| s.as_str()), Some("2"));
    assert_eq!(tags.get("b").map(|s| s.as_str()), Some("4"));
    assert!(tags.get("c").is_none());
    let copy = tags.copy();
    assert_eq!(copy.entries, tags.entries);
}
