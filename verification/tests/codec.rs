use streaming_engine::ffmpeg::metadata::{read_dict, ProbedFile, ProbedStream};
use streaming_engine::ffmpeg::pcm::{PcmAction, PcmCall, PcmEvent};
use streaming_engine::ffmpeg::{decode_to_pcm, extract_metadata};

fn tags(pairs: &[(&str, &str)]) -> Vec<(String, String)> {
    pairs.iter().map(|p| (p.0.to_string(), p.1.to_string())).collect()
}

#[test]
fn metadata_of_a_full_probe() {
    let m = extract_metadata(
        ProbedFile {
            format: Some("mp3".to_string()),
            duration: 1_500_000,
            bit_rate: 128_000,
            tags: tags(&[("artist", "A"), ("album", "L")]),
            stream: Some(ProbedStream {
                sample_rate: 44100,
                channels: 2,
                codec: Some("mp3float".to_string()),
                tags: tags(&[("artist", "S"), ("encoder", "E")]),
            }),
        },
        1234,
    );
    assert_eq!(m.format, "mp3");
    assert_eq!(m.duration, Some(1_500_000));
    assert_eq!(m.bit_rate, Some(128_000));
    assert_eq!(m.sample_rate, Some(44100));
    assert_eq!(m.channels, Some(2));
    assert_eq!(m.codec.as_deref(), Some("mp3float"));
    assert_eq!(m.size, Some(1234));
    assert_eq!(m.tags.entries.len(), 3);
    assert_eq!(m.tags.get("artist").map(|s| s.as_str()), Some("A"));
    assert_eq!(m.tags.get("album").map(|s| s.as_str()), Some("L"));
    assert_eq!(m.tags.get("encoder").map(|s| s.as_str()), Some("E"));
}

#[test]
fn metadata_of_an_empty_probe() {
    let m = extract_metadata(
        ProbedFile {
            format: None,
            duration: i64::MIN,
            bit_rate: 0,
            tags: vec![],
            stream: Some(ProbedStream {
                sample_rate: 0,
                channels: -1,
                codec: None,
                tags: vec![],
            }),
        },
        0,
    );
    assert_eq!(m.format, "unknown");
    assert_eq!((m.duration, m.bit_rate), (None, None));
    assert_eq!((m.sample_rate, m.channels), (None, None));
    assert!(m.codec.is_none());
    assert_eq!(m.size, Some(0));
    assert!(m.tags.is_empty());
}

#[test]
fn metadata_without_an_audio_stream() {
    let m = extract_metadata(
        ProbedFile {
            format: Some("f".to_string()),
            duration: 0,
            bit_rate: -5,
            tags: tags(&[("k", "v")]),
            stream: None,
        },
        1,
    );
    assert_eq!(m.duration, Some(0));
    assert_eq!(m.bit_rate, None);
    assert_eq!(m.tags.get("k").map(|s| s.as_str()), Some("v"));
}

#[test]
fn later_entries_of_a_dictionary_win() {
    let t = read_dict(&tags(&[("a", "1"), ("b", "2"), ("a", "3")]));
    assert_eq!(t.entries.len(), 2);
    assert_eq!(t.get("a").map(|s| s.as_str()), Some("3"));
}

#[test]
fn decoding_collects_all_frames() {
    let mut d = decode_to_pcm(1, 48000);
    assert_eq!(d.action, PcmAction::Read);
    d.step(PcmEvent::Packet(0));
    assert_eq!(d.action, PcmAction::Read);
    d.step(PcmEvent::Packet(-1));
    assert_eq!(d.action, PcmAction::Read);
    d.step(PcmEvent::Packet(1));
    assert_eq!(d.action, PcmAction::Send);
    d.step(PcmEvent::Sent);
    assert_eq!(d.action, PcmAction::Receive);
    d.step(PcmEvent::Frame(vec![1, 2]));
    d.step(PcmEvent::Frame(vec![3]));
    assert_eq!(d.action, PcmAction::Receive);
    d.step(PcmEvent::NoFrame);
    assert_eq!(d.action, PcmAction::Read);
    d.step(PcmEvent::EndOfInput);
    assert_eq!(d.action, PcmAction::SendFlush);
    d.step(PcmEvent::Sent);
    assert_eq!(d.action, PcmAction::ReceiveFlush);
    d.step(PcmEvent::Frame(vec![4]));
    d.step(PcmEvent::NoFrame);
    assert_eq!(d.action, PcmAction::FlushResampler);
    d.step(PcmEvent::Frame(vec![]));
    assert_eq!(d.action, PcmAction::Done);
    let data = d.finish().unwrap().unwrap();
    assert_eq!(data.samples, vec![1, 2, 3, 4]);
    assert_eq!(data.sample_rate, 48000);
}

#[test]
fn decoding_has_no_result_before_its_end() {
    assert!(decode_to_pcm(0, 1).finish().is_none());
}

#[test]
fn each_call_can_end_a_decoding() {
    let failing: Vec<(Vec<PcmEvent>, PcmCall)> = vec![
        (vec![], PcmCall::ReadFrame),
        (vec![PcmEvent::Packet(0)], PcmCall::SendPacket),
        (vec![PcmEvent::Packet(0), PcmEvent::Sent], PcmCall::ReceiveFrame),
        (vec![PcmEvent::Packet(0), PcmEvent::Sent], PcmCall::Convert),
        (vec![PcmEvent::EndOfInput], PcmCall::FlushPacket),
        (vec![PcmEvent::EndOfInput, PcmEvent::Sent], PcmCall::FlushFrame),
        (
            vec![PcmEvent::EndOfInput, PcmEvent::Sent, PcmEvent::NoFrame],
            PcmCall::FlushResampler,
        ),
    ];
    for (events, call) in failing {
        let mut d = decode_to_pcm(0, 8000);
        for e in events {
            d.step(e);
        }
        d.step(PcmEvent::Error(call, -22));
        assert_eq!(d.action, PcmAction::Failed(call, -22));
        assert_eq!(d.finish().unwrap().unwrap_err(), (call, -22));
    }
}
