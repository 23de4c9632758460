//! The decoding of audio to mono samples, step by step.
//!
//! The decoder says what is to be done with the codec library, and is told what came of
//! it. Samples are single-precision numbers, held by their bit patterns.

use vstd::prelude::*;

verus! {

/// Decoded audio.
#[derive(Debug)]
pub struct PcmData {
    /// The samples, as bit patterns.
    pub samples: Vec<u32>,
    /// The sample rate in Hz.
    pub sample_rate: i32,
}

/// A call of the codec library that can fail.
#[derive(Clone, Copy, PartialEq, Eq, Structural, Debug)]
pub enum PcmCall {
    ReadFrame,
    SendPacket,
    ReceiveFrame,
    FlushPacket,
    FlushFrame,
    Convert,
    FlushResampler,
}

/// What is to be done next.
#[derive(Clone, Copy, PartialEq, Eq, Structural, Debug)]
pub enum PcmAction {
    /// Read a packet of the input.
    Read,
    /// Send the packet to the decoder.
    Send,
    /// Receive a frame from the decoder and convert it.
    Receive,
    /// Tell the decoder that there are no more packets.
    SendFlush,
    /// Receive a frame that the decoder still held, and convert it.
    ReceiveFlush,
    /// Take what the converter still holds.
    FlushResampler,
    /// Nothing: all is decoded.
    Done,
    /// Nothing: a call failed with a code.
    Failed(PcmCall, i32),
}

/// What came of an action.
pub enum PcmEvent {
    /// The input is at its end.
    EndOfInput,
    /// A packet of a stream was read.
    Packet(i32),
    /// A packet was sent.
    Sent,
    /// A frame was received and converted.
    Frame(Vec<u32>),
    /// The decoder has no more frames for now.
    NoFrame,
    /// A call failed with a code.
    Error(PcmCall, i32),
}

/// What came of an action, as the specification sees it.
pub enum PcmNews {
    EndOfInput,
    Packet(i32),
    Sent,
    Frame(Seq<u32>),
    NoFrame,
    Error(PcmCall, i32),
}

impl PcmEvent {
    /// The event, as the specification sees it.
    pub open spec fn news(self) -> PcmNews {
        match self {
            PcmEvent::EndOfInput => PcmNews::EndOfInput,
            PcmEvent::Packet(i) => PcmNews::Packet(i),
            PcmEvent::Sent => PcmNews::Sent,
            PcmEvent::Frame(v) => PcmNews::Frame(v@),
            PcmEvent::NoFrame => PcmNews::NoFrame,
            PcmEvent::Error(c, code) => PcmNews::Error(c, code),
        }
    }
}

/// Whether an event can come of an action.
pub open spec fn answers(action: PcmAction, news: PcmNews) -> bool {
    match action {
        PcmAction::Read => news is EndOfInput || news is Packet || (news matches PcmNews::Error(
            c,
            _,
        ) && c == PcmCall::ReadFrame),
        PcmAction::Send => news is Sent || (news matches PcmNews::Error(c, _) && c
            == PcmCall::SendPacket),
        PcmAction::Receive => news is Frame || news is NoFrame || (news matches PcmNews::Error(
            c,
            _,
        ) && (c == PcmCall::ReceiveFrame || c == PcmCall::Convert)),
        PcmAction::SendFlush => news is Sent || (news matches PcmNews::Error(c, _) && c
            == PcmCall::FlushPacket),
        PcmAction::ReceiveFlush => news is Frame || news is NoFrame || (
        news matches PcmNews::Error(c, _) && (c == PcmCall::FlushFrame || c == PcmCall::Convert)),
        PcmAction::FlushResampler => news is Frame || (news matches PcmNews::Error(c, _) && c
            == PcmCall::FlushResampler),
        PcmAction::Done => false,
        PcmAction::Failed(_, _) => false,
    }
}

/// The action that follows. Packets of other streams are passed over.
pub open spec fn next_action(action: PcmAction, stream: nat, news: PcmNews) -> PcmAction {
    match news {
        PcmNews::Error(c, code) => PcmAction::Failed(c, code),
        PcmNews::EndOfInput => PcmAction::SendFlush,
        PcmNews::Packet(i) => if i == stream {
            PcmAction::Send
        } else {
            PcmAction::Read
        },
        PcmNews::Sent => if action == PcmAction::Send {
            PcmAction::Receive
        } else {
            PcmAction::ReceiveFlush
        },
        PcmNews::NoFrame => if action == PcmAction::Receive {
            PcmAction::Read
        } else {
            PcmAction::FlushResampler
        },
        PcmNews::Frame(_) => if action == PcmAction::FlushResampler {
            PcmAction::Done
        } else {
            action
        },
    }
}

/// The samples that an event brings.
pub open spec fn brought(news: PcmNews) -> Seq<u32> {
    match news {
        PcmNews::Frame(data) => data,
        _ => Seq::empty(),
    }
}

/// The decoding of one input.
pub struct PcmDecoder {
    /// The audio stream of the input.
    pub stream: usize,
    /// The sample rate in Hz.
    pub sample_rate: i32,
    /// What is to be done next.
    pub action: PcmAction,
    /// The samples so far.
    pub samples: Vec<u32>,
}

/// Starts the decoding of an input, before its first packet.
pub fn decode_to_pcm(stream: usize, sample_rate: i32) -> (d: PcmDecoder)
    ensures
        d.stream == stream,
        d.sample_rate == sample_rate,
        d.action == PcmAction::Read,
        d.samples@ == Seq::<u32>::empty(),
{
    PcmDecoder { stream, sample_rate, action: PcmAction::Read, samples: Vec::new() }
}

impl PcmDecoder {
    /// Notes what came of the action.
    pub fn step(&mut self, event: PcmEvent)
        ensures
            final(self).stream == old(self).stream,
            final(self).sample_rate == old(self).sample_rate,
            final(self).action == next_action(
                old(self).action,
                old(self).stream as nat,
                event.news(),
            ),
            final(self).samples@ == old(self).samples@ + brought(event.news()),
    {
        let ghost before = self.samples@;
        proof {
            assert(before + Seq::<u32>::empty() =~= before);
        }
        match event {
            PcmEvent::EndOfInput => {
                self.action = PcmAction::SendFlush;
            },
            PcmEvent::Packet(i) => {
                self.action = if i >= 0 && i as usize == self.stream {
                    PcmAction::Send
                } else {
                    PcmAction::Read
                };
            },
            PcmEvent::Sent => {
                self.action = if self.action == PcmAction::Send {
                    PcmAction::Receive
                } else {
                    PcmAction::ReceiveFlush
                };
            },
            PcmEvent::Frame(data) => {
                self.collect_samples(&data);
                if self.action == PcmAction::FlushResampler {
                    self.action = PcmAction::Done;
                }
            },
            PcmEvent::NoFrame => {
                self.action = if self.action == PcmAction::Receive {
                    PcmAction::Read
                } else {
                    PcmAction::FlushResampler
                };
            },
            PcmEvent::Error(call, code) => {
                self.action = PcmAction::Failed(call, code);
            },
        }
    }

    /// Appends the samples of a frame.
    fn collect_samples(&mut self, data: &Vec<u32>)
        ensures
            final(self).samples@ == old(self).samples@ + data@,
            final(self).stream == old(self).stream,
            final(self).sample_rate == old(self).sample_rate,
            final(self).action == old(self).action,
    {
        let ghost before = *self;
        let mut i: usize = 0;
        proof {
            assert(before.samples@ + data@.take(0) =~= before.samples@);
        }
        while i < data.len()
            invariant
                i <= data@.len(),
                self.samples@ == before.samples@ + data@.take(i as int),
                self.stream == before.stream,
                self.sample_rate == before.sample_rate,
                self.action == before.action,
            decreases data.len() - i,
        {
            self.samples.push(data[i]);
            proof {
                assert(self.samples@ =~= before.samples@ + data@.take(i + 1));
            }
            i += 1;
        }
        proof {
            assert(data@.take(i as int) =~= data@);
        }
    }

    /// The result: the samples once all is decoded, or the call that failed. There is none
    /// while something is to be done.
    pub fn finish(self) -> (r: Option<Result<PcmData, (PcmCall, i32)>>)
        ensures
            match self.action {
                PcmAction::Done => r matches Some(Ok(d)) && d.samples == self.samples
                    && d.sample_rate == self.sample_rate,
                PcmAction::Failed(call, code) => r matches Some(Err(e)) && e == (call, code),
                _ => r is None,
            },
    {
        match self.action {
            PcmAction::Done => Some(
                Ok(PcmData { samples: self.samples, sample_rate: self.sample_rate }),
            ),
            PcmAction::Failed(call, code) => Some(Err((call, code))),
            _ => None,
        }
    }
}

/// The action and the samples after some events.
pub open spec fn decoded(stream: nat, news: Seq<PcmNews>) -> (PcmAction, Seq<u32>)
    decreases news.len(),
{
    if news.len() == 0 {
        (PcmAction::Read, Seq::empty())
    } else {
        let (action, samples) = decoded(stream, news.drop_last());
        (next_action(action, stream, news.last()), samples + brought(news.last()))
    }
}

/// Whether each event can come of the action before it.
pub open spec fn possible(stream: nat, news: Seq<PcmNews>) -> bool
    decreases news.len(),
{
    news.len() > 0 ==> possible(stream, news.drop_last()) && answers(
        decoded(stream, news.drop_last()).0,
        news.last(),
    )
}

/// The samples of the frames among some events, in order.
pub open spec fn frame_samples(news: Seq<PcmNews>) -> Seq<u32>
    decreases news.len(),
{
    if news.len() == 0 {
        Seq::empty()
    } else {
        frame_samples(news.drop_last()) + brought(news.last())
    }
}

/// The samples are those of all frames, in the order in which they came.
pub proof fn law_samples_are_all_frames_in_order(stream: nat, news: Seq<PcmNews>)
    ensures
        decoded(stream, news).1 == frame_samples(news),
    decreases news.len(),
{
    if news.len() > 0 {
        law_samples_are_all_frames_in_order(stream, news.drop_last());
    }
}

/// Whether the input was at its end, then the decoder was told so, and then it had no more
/// frames, at the given events.
pub open spec fn flushed_at(news: Seq<PcmNews>, end: int, told: int, emptied: int) -> bool {
    &&& 0 <= end < told < emptied < news.len()
    &&& news[end] is EndOfInput
    &&& news[told] is Sent
    &&& news[emptied] is NoFrame
}

/// Whether the input was at its end, and then the decoder was told so, at the given events.
spec fn told_at(news: Seq<PcmNews>, end: int, told: int) -> bool {
    &&& 0 <= end < told < news.len()
    &&& news[end] is EndOfInput
    &&& news[told] is Sent
}

/// Whether the input was at its end at the given event.
spec fn ended_at(news: Seq<PcmNews>, end: int) -> bool {
    0 <= end < news.len() && news[end] is EndOfInput
}

/// A decoding is done only once the input was at its end, the decoder was told so after that
/// and emptied after that, and the converter was emptied last.
pub proof fn law_done_means_flushed(stream: nat, news: Seq<PcmNews>)
    requires
        possible(stream, news),
        decoded(stream, news).0 == PcmAction::Done,
    ensures
        news.len() >= 4,
        news.last() is Frame,
        exists|end: int, told: int, emptied: int| #[trigger]
            flushed_at(news, end, told, emptied) && emptied < news.len() - 1,
{
    let rest = news.drop_last();
    lemma_flush_phase(stream, rest);
    assert(decoded(stream, rest).0 == PcmAction::FlushResampler);
    let (end, told, emptied) = choose|end: int, told: int, emptied: int| #[trigger]
        flushed_at(rest, end, told, emptied);
    assert(flushed_at(news, end, told, emptied));
}

/// Each phase of the flush comes after the event that leads to it.
proof fn lemma_flush_phase(stream: nat, news: Seq<PcmNews>)
    requires
        possible(stream, news),
    ensures
        ({
            let action = decoded(stream, news).0;
            &&& action == PcmAction::SendFlush ==> exists|end: int| #[trigger] ended_at(news, end)
            &&& action == PcmAction::ReceiveFlush ==> exists|end: int, told: int| #[trigger]
                told_at(news, end, told)
            &&& action == PcmAction::FlushResampler ==> exists|end: int, told: int, emptied: int|
                #[trigger] flushed_at(news, end, told, emptied)
        }),
    decreases news.len(),
{
    if news.len() > 0 {
        let rest = news.drop_last();
        lemma_flush_phase(stream, rest);
        let before = decoded(stream, rest).0;
        let action = decoded(stream, news).0;
        let n = news.len() - 1;
        assert(news[n] == news.last());
        if action == PcmAction::SendFlush {
            assert(ended_at(news, n));
        } else if action == PcmAction::ReceiveFlush {
            if before == PcmAction::SendFlush {
                let end = choose|end: int| #[trigger] ended_at(rest, end);
                assert(told_at(news, end, n));
            } else {
                let (end, told) = choose|end: int, told: int| #[trigger] told_at(rest, end, told);
                assert(told_at(news, end, told));
            }
        } else if action == PcmAction::FlushResampler {
            let (end, told) = choose|end: int, told: int| #[trigger] told_at(rest, end, told);
            assert(flushed_at(news, end, told, n));
        }
    }
}

/// A call that fails ends the decoding with its code, and there is no result.
pub proof fn law_failure_ends_decoding(
    action: PcmAction,
    stream: nat,
    call: PcmCall,
    code: i32,
    news: PcmNews,
)
    requires
        answers(action, PcmNews::Error(call, code)),
    ensures
        next_action(action, stream, PcmNews::Error(call, code)) == PcmAction::Failed(call, code),
        !answers(PcmAction::Failed(call, code), news),
{
}

/// Packets are read one after the other; those of the stream are decoded, frame by frame, until
/// the decoder has no more, and those of other streams are passed over. At the end of the input
/// the decoder is told so and emptied, and then the converter is.
pub proof fn law_steps_of_the_decoding(stream: nat, i: i32, data: Seq<u32>)
    ensures
        next_action(PcmAction::Read, stream, PcmNews::Packet(i)) == PcmAction::Send <==> i
            == stream,
        next_action(PcmAction::Read, stream, PcmNews::Packet(i)) == PcmAction::Read <==> i
            != stream,
        next_action(PcmAction::Send, stream, PcmNews::Sent) == PcmAction::Receive,
        next_action(PcmAction::Receive, stream, PcmNews::Frame(data)) == PcmAction::Receive,
        next_action(PcmAction::Receive, stream, PcmNews::NoFrame) == PcmAction::Read,
        next_action(PcmAction::Read, stream, PcmNews::EndOfInput) == PcmAction::SendFlush,
        next_action(PcmAction::SendFlush, stream, PcmNews::Sent) == PcmAction::ReceiveFlush,
        next_action(PcmAction::ReceiveFlush, stream, PcmNews::Frame(data))
            == PcmAction::ReceiveFlush,
        next_action(PcmAction::ReceiveFlush, stream, PcmNews::NoFrame)
            == PcmAction::FlushResampler,
        next_action(PcmAction::FlushResampler, stream, PcmNews::Frame(data)) == PcmAction::Done,
{
}

/// A frame brings its samples, all of them and in order; nothing else brings any.
pub proof fn law_frames_bring_their_samples(event: PcmEvent)
    ensures
        event matches PcmEvent::Frame(v) ==> brought(event.news()) == v@,
        !(event is Frame) ==> brought(event.news()).len() == 0,
        event matches PcmEvent::Packet(i) ==> event.news() == PcmNews::Packet(i),
        event matches PcmEvent::Error(call, code) ==> event.news() == PcmNews::Error(call, code),
        event is EndOfInput ==> event.news() is EndOfInput,
        event is Sent ==> event.news() is Sent,
        event is NoFrame ==> event.news() is NoFrame,
{
}

} // verus!
