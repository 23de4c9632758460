//! The metadata of an audio file, made of what the demuxer found in it.

use vstd::prelude::*;
use crate::tags;
use crate::tags::Tags;

verus! {

/// What the demuxer found in the audio stream of a file.
pub struct ProbedStream {
    /// The sample rate in Hz; zero or less where it is not known.
    pub sample_rate: i32,
    /// The number of channels; zero or less where it is not known.
    pub channels: i32,
    /// The name of the codec.
    pub codec: Option<String>,
    /// The tags of the stream, in the order of its dictionary.
    pub tags: Vec<(String, String)>,
}

/// What the demuxer found in a file.
pub struct ProbedFile {
    /// The name of the demuxer.
    pub format: Option<String>,
    /// The duration in microseconds; `i64::MIN` where it is not known.
    pub duration: i64,
    /// The bit rate in bits per second; zero or less where it is not known.
    pub bit_rate: i64,
    /// The tags of the file, in the order of its dictionary.
    pub tags: Vec<(String, String)>,
    /// The audio stream.
    pub stream: Option<ProbedStream>,
}

/// The metadata of an audio file.
pub struct AudioFileMetadata {
    /// The name of the format.
    pub format: String,
    /// The duration in microseconds.
    pub duration: Option<i64>,
    /// The bit rate in bits per second.
    pub bit_rate: Option<i64>,
    /// The sample rate in Hz.
    pub sample_rate: Option<i32>,
    /// The number of channels.
    pub channels: Option<i32>,
    /// The name of the codec.
    pub codec: Option<String>,
    /// The size in bytes.
    pub size: Option<i64>,
    /// The tags of the file and of its audio stream.
    pub tags: Tags,
}

/// The entries of a dictionary by their names. A later entry replaces an earlier one of
/// the same name.
pub open spec fn dict_map(entries: Seq<(String, String)>) -> Map<Seq<char>, Seq<char>>
    decreases entries.len(),
{
    if entries.len() == 0 {
        Map::empty()
    } else {
        dict_map(entries.drop_last()).insert(entries.last().0@, entries.last().1@)
    }
}

/// The tags of a file: its own, and those of its stream under names that it does not have
/// itself.
pub open spec fn merged(
    own: Map<Seq<char>, Seq<char>>,
    stream: Map<Seq<char>, Seq<char>>,
) -> Map<Seq<char>, Seq<char>> {
    stream.union_prefer_right(own)
}

/// Whether a file is described as the demuxer found it.
pub open spec fn describes(m: AudioFileMetadata, f: ProbedFile, data_len: nat) -> bool {
    &&& m.format@ == match f.format {
        Some(s) => s@,
        None => "unknown"@,
    }
    &&& m.duration == if f.duration == i64::MIN {
        None
    } else {
        Some(f.duration)
    }
    &&& m.bit_rate == if f.bit_rate > 0 {
        Some(f.bit_rate)
    } else {
        None
    }
    &&& m.sample_rate == if f.stream is Some && f.stream->Some_0.sample_rate > 0 {
        Some(f.stream->Some_0.sample_rate)
    } else {
        None
    }
    &&& m.channels == if f.stream is Some && f.stream->Some_0.channels > 0 {
        Some(f.stream->Some_0.channels)
    } else {
        None
    }
    &&& m.codec == if f.stream is Some {
        f.stream->Some_0.codec
    } else {
        None
    }
    &&& m.size is Some
    &&& m.size->Some_0 == data_len
    &&& m.tags.wf()
    &&& m.tags@ == merged(
        dict_map(f.tags@),
        if f.stream is Some {
            dict_map(f.stream->Some_0.tags@)
        } else {
            Map::empty()
        },
    )
}

/// The entries of a dictionary as tags.
pub fn read_dict(entries: &Vec<(String, String)>) -> (t: Tags)
    ensures
        t.wf(),
        t@ == dict_map(entries@),
{
    let mut t: Tags = Tags::new();
    let mut i: usize = 0;
    proof {
        assert(entries@.take(0) =~= Seq::<(String, String)>::empty());
    }
    while i < entries.len()
        invariant
            i <= entries@.len(),
            t.wf(),
            t@ == dict_map(entries@.take(i as int)),
        decreases entries.len() - i,
    {
        let name: String = entries[i].0.clone();
        let value: String = entries[i].1.clone();
        t.insert(name, value);
        proof {
            assert(entries@.take(i + 1).drop_last() =~= entries@.take(i as int));
        }
        i += 1;
    }
    proof {
        assert(entries@.take(i as int) =~= entries@);
    }
    t
}

/// Adds the tags of a stream under names that are not there yet.
fn merge_stream_tags(own: Tags, stream: &Tags) -> (t: Tags)
    requires
        own.wf(),
        stream.wf(),
    ensures
        t.wf(),
        t@ == merged(own@, stream@),
{
    let mut t: Tags = own;
    let mut i: usize = 0;
    let ghost all = stream.entries@;
    proof {
        assert(all.take(0) =~= Seq::<(String, String)>::empty());
        assert(t@ =~= merged(own@, dict_map(all.take(0))));
    }
    while i < stream.entries.len()
        invariant
            i <= stream.entries@.len(),
            all == stream.entries@,
            t.wf(),
            stream.wf(),
            t@ == merged(own@, dict_map(all.take(i as int))),
        decreases stream.entries.len() - i,
    {
        let name: String = stream.entries[i].0.clone();
        let value: String = stream.entries[i].1.clone();
        let ghost before = t@;
        t.insert_absent(name, value);
        proof {
            let (part, more) = (all.take(i as int), all.take(i + 1));
            assert(more.drop_last() =~= part);
            lemma_dict_has_entry(part, name@);
            if dict_map(part).contains_key(name@) {
                let k = choose|k: int| 0 <= k < part.len() && #[trigger] part[k].0@ == name@;
                assert(all[k].0@ != all[i as int].0@);
            }
            assert(t@ =~= merged(own@, dict_map(more)));
        }
        i += 1;
    }
    proof {
        assert(all.take(i as int) =~= all);
        lemma_tags_are_dict(*stream);
    }
    t
}

/// A name of a dictionary stands at some entry.
proof fn lemma_dict_has_entry(entries: Seq<(String, String)>, name: Seq<char>)
    ensures
        dict_map(entries).contains_key(name) ==> exists|k: int|
            0 <= k < entries.len() && #[trigger] entries[k].0@ == name,
    decreases entries.len(),
{
    if entries.len() > 0 && dict_map(entries).contains_key(name) {
        let rest = entries.drop_last();
        if entries.last().0@ == name {
            assert(entries[entries.len() - 1].0@ == name);
        } else {
            lemma_dict_has_entry(rest, name);
            let k = choose|k: int| 0 <= k < rest.len() && #[trigger] rest[k].0@ == name;
            assert(entries[k].0@ == name);
        }
    }
}

/// Tags are the dictionary of their entries.
proof fn lemma_tags_are_dict(t: Tags)
    ensures
        t@ == dict_map(t.entries@),
{
    assert forall|name: Seq<char>|
        {
            &&& t@.contains_key(name) == #[trigger] dict_map(t.entries@).contains_key(name)
            &&& t@.contains_key(name) ==> t@[name] == dict_map(t.entries@)[name]
        } by {
        lemma_values_agree(t.entries@, name);
    }
    assert(t@ =~= dict_map(t.entries@));
}

/// The value of a name in a dictionary is the one that stands beside it last.
proof fn lemma_values_agree(entries: Seq<(String, String)>, name: Seq<char>)
    ensures
        dict_map(entries).contains_key(name) == (tags::tag_value(entries, name) is Some),
        dict_map(entries).contains_key(name) ==> dict_map(entries)[name] == tags::tag_value(
            entries,
            name,
        )->Some_0,
    decreases entries.len(),
{
    if entries.len() > 0 {
        lemma_values_agree(entries.drop_last(), name);
    }
}

/// Describes a file of `data_len` bytes by what the demuxer found in it.
pub fn extract_metadata(f: ProbedFile, data_len: usize) -> (m: AudioFileMetadata)
    requires
        data_len <= i64::MAX,
    ensures
        describes(m, f, data_len as nat),
{
    let format: String = match f.format {
        Some(s) => s,
        None => "unknown".to_string(),
    };
    let duration: Option<i64> = if f.duration == i64::MIN {
        None
    } else {
        Some(f.duration)
    };
    let bit_rate: Option<i64> = if f.bit_rate > 0 {
        Some(f.bit_rate)
    } else {
        None
    };
    let own: Tags = read_dict(&f.tags);
    let size: Option<i64> = Some(data_len as i64);
    match f.stream {
        Some(stream) => {
            let stream_tags: Tags = read_dict(&stream.tags);
            let tags: Tags = merge_stream_tags(own, &stream_tags);
            AudioFileMetadata {
                format,
                duration,
                bit_rate,
                sample_rate: if stream.sample_rate > 0 {
                    Some(stream.sample_rate)
                } else {
                    None
                },
                channels: if stream.channels > 0 {
                    Some(stream.channels)
                } else {
                    None
                },
                codec: stream.codec,
                size,
                tags,
            }
        },
        None => {
            proof {
                assert(merged(own@, Map::empty()) =~= own@);
            }
            AudioFileMetadata {
                format,
                duration,
                bit_rate,
                sample_rate: None,
                channels: None,
                codec: None,
                size,
                tags: own,
            }
        },
    }
}

/// A tag of the file keeps its value whatever its stream says.
pub proof fn law_file_tags_win(
    own: Map<Seq<char>, Seq<char>>,
    stream: Map<Seq<char>, Seq<char>>,
    name: Seq<char>,
)
    ensures
        own.contains_key(name) ==> merged(own, stream).contains_key(name) && merged(
            own,
            stream,
        )[name] == own[name],
        !own.contains_key(name) && stream.contains_key(name) ==> merged(
            own,
            stream,
        ).contains_key(name) && merged(own, stream)[name] == stream[name],
        merged(own, stream).contains_key(name) ==> own.contains_key(name) || stream.contains_key(
            name,
        ),
{
}

/// A dictionary holds the names of its entries and no others, and of several entries of one name
/// the last has its say.
pub proof fn law_last_entry_of_a_name_wins(
    entries: Seq<(String, String)>,
    i: int,
    name: Seq<char>,
)
    requires
        0 <= i < entries.len(),
        forall|k: int| i < k < entries.len() ==> #[trigger] entries[k].0@ != entries[i].0@,
    ensures
        dict_map(entries).contains_key(entries[i].0@),
        dict_map(entries)[entries[i].0@] == entries[i].1@,
        dict_map(entries).contains_key(name) ==> exists|k: int|
            0 <= k < entries.len() && #[trigger] entries[k].0@ == name,
    decreases entries.len(),
{
    let rest = entries.drop_last();
    if i < entries.len() - 1 {
        assert(entries[entries.len() - 1].0@ != entries[i].0@);
        assert forall|k: int| i < k < rest.len() implies #[trigger] rest[k].0@ != rest[i].0@ by {
            assert(entries[k].0@ != entries[i].0@);
        }
        law_last_entry_of_a_name_wins(rest, i, name);
        assert(rest[i] == entries[i]);
    }
    lemma_dict_has_entry(entries, name);
}

/// What the demuxer knows stands in the metadata as it is; what it does not know does not.
pub proof fn law_metadata_holds_what_is_known(m: AudioFileMetadata, f: ProbedFile, data_len: nat)
    requires
        describes(m, f, data_len),
    ensures
        f.format is Some ==> m.format@ == f.format->Some_0@,
        f.format is None ==> m.format@ == "unknown"@,
        m.duration is None <==> f.duration == -0x8000_0000_0000_0000,
        m.duration is Some ==> m.duration->Some_0 == f.duration,
        m.bit_rate is Some <==> f.bit_rate > 0,
        m.bit_rate is Some ==> m.bit_rate->Some_0 == f.bit_rate,
        f.stream is None ==> m.sample_rate is None && m.channels is None && m.codec is None,
        f.stream matches Some(s) ==> {
            &&& m.sample_rate is Some <==> s.sample_rate > 0
            &&& m.sample_rate is Some ==> m.sample_rate->Some_0 == s.sample_rate
            &&& m.channels is Some <==> s.channels > 0
            &&& m.channels is Some ==> m.channels->Some_0 == s.channels
            &&& m.codec == s.codec
            &&& m.tags@ == merged(dict_map(f.tags@), dict_map(s.tags@))
        },
        f.stream is None ==> m.tags@ == dict_map(f.tags@),
        m.size is Some && m.size->Some_0 == data_len,
        forall|i: int, j: int|
            0 <= i < j < m.tags.entries@.len() ==> #[trigger] m.tags.entries@[i].0@
                != #[trigger] m.tags.entries@[j].0@,
{
    assert(merged(dict_map(f.tags@), Map::empty()) =~= dict_map(f.tags@));
}

} // verus!
