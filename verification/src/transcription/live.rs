//! Transcription of a call while it is being recorded.
//!
//! From time to time the audio that came in since the last turn is transcribed, together with a
//! few seconds before it, so that no word is cut at the border. What was already transcribed is
//! then dropped.

use vstd::prelude::*;
use vstd::string::*;

use crate::text;
use crate::transcription::whisper;
use crate::transcription::whisper::{format_transcript, merge_segments, SegmentView, TimedSegment};

verus! {

/// The seconds of audio that two turns share.
pub const OVERLAP_SECS: u64 = 3;

/// The samples at 16 kHz that two turns share.
pub const OVERLAP_SAMPLES_16K: usize = 48000;

/// The new samples at 16 kHz that a turn needs: 20 seconds.
pub const MIN_NEW_SAMPLES_16K: usize = 320000;

/// How far one channel of a call is transcribed.
#[derive(Clone, Copy)]
pub struct LiveChannel {
    /// The number of samples that earlier turns have taken.
    pub cursor: usize,
    /// When the last segment that was handed out ends.
    pub last_end_ms: i64,
}

/// The samples of one turn: those from `start` to before `end`.
#[derive(Clone, Copy)]
pub struct Window {
    pub start: usize,
    pub end: usize,
    /// The cursor after this turn.
    pub new_cursor: usize,
    /// The sample at which the audio of this turn starts in the recording.
    pub offset: usize,
}

/// The number of samples that two turns share at a sample rate.
pub fn overlap_samples(rate: u32) -> (res: usize)
    ensures
        res == (if OVERLAP_SECS * rate <= usize::MAX {
            OVERLAP_SECS * rate
        } else {
            usize::MAX as int
        }),
{
    let n: u64 = OVERLAP_SECS * rate as u64;
    if n <= usize::MAX as u64 {
        n as usize
    } else {
        usize::MAX
    }
}

/// The first sample of a turn after `cursor` samples were taken.
pub open spec fn window_start(cursor: int, overlap: int) -> int {
    if cursor >= overlap {
        cursor - overlap
    } else {
        0
    }
}

/// The samples of a turn, when `buffered` samples are there: all from the overlap on. Where there
/// are none, the turn is empty and the cursor stays.
pub open spec fn window_of(cursor: usize, buffered: usize, overlap: usize) -> Window {
    let start = window_start(cursor as int, overlap as int) as usize;
    if buffered > start {
        Window { start, end: buffered, new_cursor: buffered, offset: start }
    } else {
        Window { start: buffered, end: buffered, new_cursor: cursor, offset: cursor }
    }
}

/// Whether a turn has enough new audio, by the number of its samples at 16 kHz.
pub open spec fn enough_audio(samples_16k: int) -> bool {
    let fresh = if samples_16k > OVERLAP_SAMPLES_16K {
        samples_16k - OVERLAP_SAMPLES_16K
    } else {
        samples_16k
    };
    fresh >= MIN_NEW_SAMPLES_16K
}

/// Whether a turn has enough new audio, by the number of its samples at 16 kHz.
pub fn has_enough_audio(samples_16k: usize) -> (res: bool)
    ensures
        res == enough_audio(samples_16k as int),
{
    let fresh = if samples_16k > OVERLAP_SAMPLES_16K {
        samples_16k - OVERLAP_SAMPLES_16K
    } else {
        samples_16k
    };
    fresh >= MIN_NEW_SAMPLES_16K
}

/// A segment `offset_ms` later.
pub open spec fn later(seg: SegmentView, offset_ms: int) -> SegmentView {
    SegmentView {
        start_ms: seg.start_ms + offset_ms,
        end_ms: seg.end_ms + offset_ms,
        text: seg.text,
        speaker: seg.speaker,
    }
}

/// The segments of a turn that are new: those that, moved to their place in the recording, start
/// no earlier than the last segment that was handed out ends.
pub open spec fn new_segments(
    segs: Seq<SegmentView>,
    offset_ms: int,
    last_end_ms: int,
) -> Seq<SegmentView> {
    segs.map_values(|v: SegmentView| later(v, offset_ms)).filter(
        |v: SegmentView| v.start_ms >= last_end_ms,
    )
}

/// When the last segment that was handed out ends, after some more were.
pub open spec fn end_after(last_end_ms: int, handed_out: Seq<SegmentView>) -> int {
    if handed_out.len() > 0 {
        handed_out.last().end_ms
    } else {
        last_end_ms
    }
}

/// Whether the times of some segments stay in range when `offset_ms` is added to them.
pub open spec fn movable(segs: Seq<TimedSegment>, offset_ms: int) -> bool {
    forall|i: int|
        0 <= i < segs.len() ==> whisper::is_time((#[trigger] segs[i]).start_ms + offset_ms)
            && whisper::is_time(segs[i].end_ms + offset_ms)
}

/// Whether the times of some segments stay in range when `offset_ms` is added to them.
pub fn can_move(segs: &Vec<TimedSegment>, offset_ms: i64) -> (res: bool)
    ensures
        res == movable(segs@, offset_ms as int),
{
    let mut i: usize = 0;
    while i < segs.len()
        invariant
            i <= segs@.len(),
            forall|j: int|
                0 <= j < i ==> whisper::is_time((#[trigger] segs@[j]).start_ms + offset_ms)
                    && whisper::is_time(segs@[j].end_ms + offset_ms),
        decreases segs@.len() - i,
    {
        if segs[i].start_ms.checked_add(offset_ms).is_none() || segs[i].end_ms.checked_add(
            offset_ms,
        ).is_none() {
            assert(!(whisper::is_time(segs@[i as int].start_ms + offset_ms) && whisper::is_time(
                segs@[i as int].end_ms + offset_ms,
            )));
            return false;
        }
        i += 1;
    }
    true
}

impl LiveChannel {
    /// A channel of which nothing is transcribed.
    pub fn new() -> (res: LiveChannel)
        ensures
            res.cursor == 0,
            res.last_end_ms == 0,
    {
        LiveChannel { cursor: 0, last_end_ms: 0 }
    }

    /// The samples of the next turn, when `buffered` samples are there.
    pub fn window(&self, buffered: usize, overlap: usize) -> (res: Window)
        ensures
            res == window_of(self.cursor, buffered, overlap),
            res.start <= res.end <= buffered,
    {
        let start: usize = if self.cursor >= overlap {
            self.cursor - overlap
        } else {
            0
        };
        if buffered > start {
            Window { start, end: buffered, new_cursor: buffered, offset: start }
        } else {
            Window {
                start: buffered,
                end: buffered,
                new_cursor: self.cursor,
                offset: self.cursor,
            }
        }
    }

    /// Takes the segments of a turn whose audio starts at `offset_ms`, and hands out the new ones.
    pub fn accept(&mut self, segs: &Vec<TimedSegment>, offset_ms: i64) -> (res: Vec<TimedSegment>)
        requires
            movable(segs@, offset_ms as int),
        ensures
            whisper::segment_views(res@) == new_segments(
                whisper::segment_views(segs@),
                offset_ms as int,
                old(self).last_end_ms as int,
            ),
            final(self).last_end_ms == end_after(
                old(self).last_end_ms as int,
                whisper::segment_views(res@),
            ),
            final(self).cursor == old(self).cursor,
    {
        let from = self.last_end_ms;
        let ghost moved = whisper::segment_views(segs@).map_values(
            |v: SegmentView| later(v, offset_ms as int),
        );
        let ghost fresh = |v: SegmentView| v.start_ms >= from as int;
        let mut res: Vec<TimedSegment> = Vec::new();
        let mut i: usize = 0;
        proof {
            reveal(Seq::filter);
            assert(moved.take(0).filter(fresh) =~= Seq::empty());
        }
        while i < segs.len()
            invariant
                i <= segs@.len(),
                movable(segs@, offset_ms as int),
                moved == whisper::segment_views(segs@).map_values(
                    |v: SegmentView| later(v, offset_ms as int),
                ),
                fresh == (|v: SegmentView| v.start_ms >= from as int),
                whisper::segment_views(res@) == moved.take(i as int).filter(fresh),
            decreases segs@.len() - i,
        {
            let seg = &segs[i];
            let start_ms = seg.start_ms + offset_ms;
            proof {
                reveal(Seq::filter);
                assert(moved.take(i as int + 1).drop_last() =~= moved.take(i as int));
                assert(moved[i as int] == later(seg@, offset_ms as int));
            }
            if start_ms >= from {
                let copy = TimedSegment {
                    start_ms,
                    end_ms: seg.end_ms + offset_ms,
                    text: seg.text.clone(),
                    speaker: seg.speaker.clone(),
                };
                let ghost held = res@;
                res.push(copy);
                assert(whisper::segment_views(res@) =~= whisper::segment_views(held).push(copy@));
            }
            i += 1;
        }
        assert(moved.take(i as int) =~= moved);
        let n: usize = res.len();
        if n > 0 {
            self.last_end_ms = res[n - 1].end_ms;
            assert(whisper::segment_views(res@).last() == res@[n - 1]@);
        }
        res
    }

    /// Moves on to the next turn.
    pub fn advance(&mut self, window: Window)
        ensures
            final(self).cursor == window.new_cursor,
            final(self).last_end_ms == old(self).last_end_ms,
    {
        self.cursor = window.new_cursor;
    }
}

/// The text of the new segments of both channels, where there are any.
pub open spec fn turn_text(mic: Seq<SegmentView>, sys: Seq<SegmentView>) -> Option<Seq<char>> {
    if mic.len() + sys.len() > 0 {
        Some(whisper::transcript(whisper::by_start(mic + sys)))
    } else {
        None
    }
}

/// The text of the new segments of both channels, where there are any.
pub fn chunk_text(mic: Vec<TimedSegment>, sys: Vec<TimedSegment>) -> (res: Option<String>)
    ensures
        text::opt(res) == turn_text(whisper::segment_views(mic@), whisper::segment_views(sys@)),
{
    proof {
        whisper::law_by_start(whisper::segment_views(mic@) + whisper::segment_views(sys@));
    }
    let all = merge_segments(mic, sys);
    assert(whisper::segment_views(all@).len() == all@.len());
    if all.len() == 0 {
        None
    } else {
        Some(format_transcript(all.as_slice()))
    }
}

/// What a turn brings for one channel.
pub struct Turn {
    /// The samples that were transcribed.
    pub window: Window,
    /// When they start in the recording.
    pub offset_ms: i64,
    /// The segments that were recognized in them, none where that failed.
    pub segments: Vec<TimedSegment>,
}

/// How far a call is transcribed.
pub struct LiveCall {
    pub mic: LiveChannel,
    pub sys: LiveChannel,
}

/// The new segments that a turn brings for a channel.
pub open spec fn brought(channel: LiveChannel, turn: Turn) -> Seq<SegmentView> {
    new_segments(
        whisper::segment_views(turn.segments@),
        turn.offset_ms as int,
        channel.last_end_ms as int,
    )
}

/// A channel after a turn.
pub open spec fn is_after(channel: LiveChannel, turn: Turn, before: LiveChannel) -> bool {
    &&& channel.cursor == turn.window.new_cursor
    &&& channel.last_end_ms == end_after(before.last_end_ms as int, brought(before, turn))
}

impl LiveCall {
    /// A call of which nothing is transcribed.
    pub fn new() -> (res: LiveCall)
        ensures
            res.mic.cursor == 0,
            res.mic.last_end_ms == 0,
            res.sys.cursor == 0,
            res.sys.last_end_ms == 0,
    {
        LiveCall { mic: LiveChannel::new(), sys: LiveChannel::new() }
    }

    /// Takes what a turn brings for both channels, moves on, and hands out the text of what is new.
    pub fn finish_turn(&mut self, mic: Turn, sys: Turn) -> (res: Option<String>)
        requires
            movable(mic.segments@, mic.offset_ms as int),
            movable(sys.segments@, sys.offset_ms as int),
        ensures
            text::opt(res) == turn_text(brought(old(self).mic, mic), brought(old(self).sys, sys)),
            is_after(final(self).mic, mic, old(self).mic),
            is_after(final(self).sys, sys, old(self).sys),
    {
        let mic_segments = self.mic.accept(&mic.segments, mic.offset_ms);
        let sys_segments = self.sys.accept(&sys.segments, sys.offset_ms);
        self.mic.advance(mic.window);
        self.sys.advance(sys.window);
        chunk_text(mic_segments, sys_segments)
    }
}

/// No sample between two turns is left out: the second turn starts where the first ended or, by the
/// overlap, before that.
pub proof fn law_windows_leave_no_gap(
    cursor: usize,
    buffered: usize,
    buffered_later: usize,
    overlap: usize,
)
    requires
        cursor <= buffered <= buffered_later,
    ensures
        ({
            let first = window_of(cursor, buffered, overlap);
            let second = window_of(first.new_cursor, buffered_later, overlap);
            &&& first.start <= cursor
            &&& first.end == buffered
            &&& first.new_cursor == buffered
            &&& second.start <= first.end
            &&& second.end == buffered_later
            &&& second.start == buffered_later || second.start == window_start(
                buffered as int,
                overlap as int,
            )
        }),
{
}

/// Nothing is handed out twice: the segments of a turn start no earlier than the last segment of
/// the turn before ends.
pub proof fn law_turns_do_not_repeat(
    first: Seq<SegmentView>,
    first_offset_ms: int,
    second: Seq<SegmentView>,
    second_offset_ms: int,
    last_end_ms: int,
)
    ensures
        ({
            let out = new_segments(first, first_offset_ms, last_end_ms);
            let end = end_after(last_end_ms, out);
            let more = new_segments(second, second_offset_ms, end);
            &&& forall|i: int| 0 <= i < out.len() ==> (#[trigger] out[i]).start_ms >= last_end_ms
            &&& forall|i: int|
                0 <= i < more.len() ==> out.len() > 0 ==> (#[trigger] more[i]).start_ms
                    >= out.last().end_ms
        }),
{
    broadcast use vstd::seq_lib::group_filter_ensures;

    let out = new_segments(first, first_offset_ms, last_end_ms);
    let end = end_after(last_end_ms, out);
    let more = new_segments(second, second_offset_ms, end);
    let fresh = |v: SegmentView| v.start_ms >= last_end_ms;
    let fresher = |v: SegmentView| v.start_ms >= end;
    assert forall|i: int| 0 <= i < out.len() implies (#[trigger] out[i]).start_ms
        >= last_end_ms by {
        assert(fresh(out[i]));
    }
    assert forall|i: int| 0 <= i < more.len() implies (#[trigger] more[i]).start_ms >= end by {
        assert(fresher(more[i]));
    }
}

/// A turn hands out a text exactly where a channel brings a new segment. The text is the transcript of
/// all of them, in the order of their start times, and everything that was said stands in it.
pub proof fn law_turn_hands_out_all(
    mic: Vec<TimedSegment>,
    sys: Vec<TimedSegment>,
    res: Option<String>,
)
    requires
        call_ensures(chunk_text, (mic, sys), res),
    ensures
        res is Some <==> mic@.len() > 0 || sys@.len() > 0,
        res matches Some(t) ==> t@ == whisper::transcript(
            whisper::by_start(whisper::segment_views(mic@) + whisper::segment_views(sys@)),
        ),
        forall|i: int|
            0 <= i < mic@.len() && whisper::is_said((#[trigger] mic@[i]).text@) ==> res is Some
                && text::occurs(res->0@, mic@[i].text@),
        forall|i: int|
            0 <= i < sys@.len() && whisper::is_said((#[trigger] sys@[i]).text@) ==> res is Some
                && text::occurs(res->0@, sys@[i].text@),
{
    law_turn_text(whisper::segment_views(mic@), whisper::segment_views(sys@));
    assert forall|i: int|
        0 <= i < mic@.len() && whisper::is_said((#[trigger] mic@[i]).text@) implies res is Some
        && text::occurs(res->0@, mic@[i].text@) by {
        assert(whisper::segment_views(mic@)[i] == mic@[i]@);
    }
    assert forall|i: int|
        0 <= i < sys@.len() && whisper::is_said((#[trigger] sys@[i]).text@) implies res is Some
        && text::occurs(res->0@, sys@[i].text@) by {
        assert(whisper::segment_views(sys@)[i] == sys@[i]@);
    }
}

/// There is a text exactly where there are new segments of either channel, and it holds the text of each
/// of them.
pub proof fn law_turn_text(mic: Seq<SegmentView>, sys: Seq<SegmentView>)
    ensures
        turn_text(mic, sys) is Some <==> mic.len() > 0 || sys.len() > 0,
        forall|i: int|
            0 <= i < mic.len() && whisper::is_said((#[trigger] mic[i]).text) ==> turn_text(
                mic,
                sys,
            ) is Some && text::occurs(turn_text(mic, sys)->0, mic[i].text),
        forall|i: int|
            0 <= i < sys.len() && whisper::is_said((#[trigger] sys[i]).text) ==> turn_text(
                mic,
                sys,
            ) is Some && text::occurs(turn_text(mic, sys)->0, sys[i].text),
{
    assert forall|i: int| 0 <= i < mic.len() && whisper::is_said((#[trigger] mic[i]).text) implies
        turn_text(mic, sys) is Some && text::occurs(turn_text(mic, sys)->0, mic[i].text) by {
        assert(mic.contains(mic[i]));
        whisper::law_merged_transcript_holds_every_text(mic, sys, mic[i]);
    }
    assert forall|i: int| 0 <= i < sys.len() && whisper::is_said((#[trigger] sys[i]).text) implies
        turn_text(mic, sys) is Some && text::occurs(turn_text(mic, sys)->0, sys[i].text) by {
        assert(sys.contains(sys[i]));
        whisper::law_merged_transcript_holds_every_text(mic, sys, sys[i]);
    }
}

/// Each segment of a turn is taken or dropped for itself: one that starts, in the recording, no earlier
/// than the last segment handed out ends is taken, moved there, and an earlier one is dropped.
pub proof fn law_new_segments(
    a: Seq<SegmentView>,
    b: Seq<SegmentView>,
    offset_ms: int,
    last_end_ms: int,
)
    ensures
        new_segments(a + b, offset_ms, last_end_ms) == new_segments(a, offset_ms, last_end_ms)
            + new_segments(b, offset_ms, last_end_ms),
        a.len() == 0 ==> new_segments(a, offset_ms, last_end_ms).len() == 0,
        a.len() == 1 && a[0].start_ms + offset_ms < last_end_ms ==> new_segments(
            a,
            offset_ms,
            last_end_ms,
        ).len() == 0,
        a.len() == 1 && a[0].start_ms + offset_ms >= last_end_ms ==> new_segments(
            a,
            offset_ms,
            last_end_ms,
        ) == seq![
            SegmentView {
                start_ms: a[0].start_ms + offset_ms,
                end_ms: a[0].end_ms + offset_ms,
                text: a[0].text,
                speaker: a[0].speaker,
            },
        ],
{
    let moved = |v: SegmentView| later(v, offset_ms);
    let fresh = |v: SegmentView| v.start_ms >= last_end_ms;
    assert((a + b).map_values(moved) =~= a.map_values(moved) + b.map_values(moved));
    Seq::filter_distributes_over_add(a.map_values(moved), b.map_values(moved), fresh);
    reveal(Seq::filter);
    if a.len() == 1 {
        let m = a.map_values(moved);
        assert(m.drop_last() =~= Seq::empty());
        assert(m.drop_last().filter(fresh) =~= Seq::empty());
        assert(m.last() == later(a[0], offset_ms));
    }
}

/// A segment of a turn that is new is among those that are handed out.
pub proof fn law_new_segment_is_handed_out(
    segs: Seq<SegmentView>,
    i: int,
    offset_ms: int,
    last_end_ms: int,
)
    requires
        0 <= i < segs.len(),
        segs[i].start_ms + offset_ms >= last_end_ms,
    ensures
        new_segments(segs, offset_ms, last_end_ms).contains(later(segs[i], offset_ms)),
        later(segs[i], offset_ms).text == segs[i].text,
{
    let a = segs.take(i);
    let x = seq![segs[i]];
    let b = segs.skip(i + 1);
    assert(segs =~= a + x + b);
    law_new_segments(a + x, b, offset_ms, last_end_ms);
    law_new_segments(a, x, offset_ms, last_end_ms);
    law_new_segments(x, b, offset_ms, last_end_ms);
    let all = new_segments(segs, offset_ms, last_end_ms);
    let k = new_segments(a, offset_ms, last_end_ms).len() as int;
    assert(all[k] == later(segs[i], offset_ms));
}

/// Nothing new that a turn brings on either channel is lost: its text stands in what the turn hands out.
/// A turn that brings nothing new hands out nothing, and leaves the ends where they were.
pub proof fn law_turn_loses_nothing(
    call: &mut LiveCall,
    mic: Turn,
    sys: Turn,
    res: Option<String>,
)
    requires
        call_ensures(LiveCall::finish_turn, (call, mic, sys), res),
    ensures
        forall|i: int|
            0 <= i < mic.segments@.len() && (#[trigger] mic.segments@[i]).start_ms + mic.offset_ms
                >= old(call).mic.last_end_ms && whisper::is_said(mic.segments@[i].text@)
                ==> res is Some && text::occurs(res->0@, mic.segments@[i].text@),
        forall|i: int|
            0 <= i < sys.segments@.len() && (#[trigger] sys.segments@[i]).start_ms + sys.offset_ms
                >= old(call).sys.last_end_ms && whisper::is_said(sys.segments@[i].text@)
                ==> res is Some && text::occurs(res->0@, sys.segments@[i].text@),
        res is None ==> final(call).mic.last_end_ms == old(call).mic.last_end_ms,
        res is None ==> final(call).sys.last_end_ms == old(call).sys.last_end_ms,
        final(call).mic.cursor == mic.window.new_cursor,
        final(call).sys.cursor == sys.window.new_cursor,
{
    let a = brought(old(call).mic, mic);
    let b = brought(old(call).sys, sys);
    let m = whisper::segment_views(mic.segments@);
    let n = whisper::segment_views(sys.segments@);
    law_turn_text(a, b);
    assert forall|i: int|
        0 <= i < mic.segments@.len() && (#[trigger] mic.segments@[i]).start_ms + mic.offset_ms
            >= old(call).mic.last_end_ms && whisper::is_said(mic.segments@[i].text@) implies res is Some
        && text::occurs(res->0@, mic.segments@[i].text@) by {
        assert(m[i] == mic.segments@[i]@);
        law_new_segment_is_handed_out(m, i, mic.offset_ms as int, old(call).mic.last_end_ms as int);
        let x = later(m[i], mic.offset_ms as int);
        let k = choose|k: int| 0 <= k < a.len() && a[k] == x;
        assert(whisper::is_said(a[k].text));
    }
    assert forall|i: int|
        0 <= i < sys.segments@.len() && (#[trigger] sys.segments@[i]).start_ms + sys.offset_ms
            >= old(call).sys.last_end_ms && whisper::is_said(sys.segments@[i].text@) implies res is Some
        && text::occurs(res->0@, sys.segments@[i].text@) by {
        assert(n[i] == sys.segments@[i]@);
        law_new_segment_is_handed_out(n, i, sys.offset_ms as int, old(call).sys.last_end_ms as int);
        let x = later(n[i], sys.offset_ms as int);
        let k = choose|k: int| 0 <= k < b.len() && b[k] == x;
        assert(whisper::is_said(b[k].text));
    }
}

/// A channel moves on to the end of the last segment that it hands out, and only by handing one out.
pub proof fn law_channel_moves_with_what_it_hands_out(
    channel: &mut LiveChannel,
    segs: &Vec<TimedSegment>,
    offset_ms: i64,
    res: Vec<TimedSegment>,
)
    requires
        call_ensures(LiveChannel::accept, (channel, segs, offset_ms), res),
    ensures
        res@.len() > 0 ==> final(channel).last_end_ms == res@.last().end_ms,
        res@.len() == 0 ==> final(channel).last_end_ms == old(channel).last_end_ms,
        res@.len() == 0 <==> forall|i: int|
            0 <= i < segs@.len() ==> old(channel).last_end_ms > (#[trigger] segs@[i]).start_ms
                + offset_ms,
        final(channel).cursor == old(channel).cursor,
{
    broadcast use vstd::seq_lib::group_filter_ensures;

    let v = whisper::segment_views(segs@);
    let out = whisper::segment_views(res@);
    let from = old(channel).last_end_ms as int;
    assert(out.len() == res@.len());
    assert(res@.len() > 0 ==> out.last() == res@.last()@);
    if res@.len() == 0 {
        assert forall|i: int| 0 <= i < segs@.len() implies (#[trigger] segs@[i]).start_ms + offset_ms
            < from by {
            assert(v[i] == segs@[i]@);
            if v[i].start_ms + offset_ms >= from {
                law_new_segment_is_handed_out(v, i, offset_ms as int, from);
            }
        }
    } else {
        let moved = v.map_values(|x: SegmentView| later(x, offset_ms as int));
        let fresh = |x: SegmentView| x.start_ms >= from;
        moved.lemma_filter_contains_rev(fresh, out[0]);
        assert(fresh(out[0]));
        let i = choose|i: int| 0 <= i < moved.len() && moved[i] == out[0];
        assert(moved[i] == later(segs@[i]@, offset_ms as int));
        assert(segs@[i].start_ms + offset_ms >= from);
    }
}

/// A turn takes everything that came in since the last one, and before it the samples that the two turns
/// share, as far as there are so many.
pub proof fn law_window(channel: &LiveChannel, buffered: usize, overlap: usize, w: Window)
    requires
        call_ensures(LiveChannel::window, (channel, buffered, overlap), w),
    ensures
        buffered > channel.cursor ==> w.end == buffered && w.new_cursor == buffered && w.offset
            == w.start && w.start <= channel.cursor && channel.cursor - w.start == (if overlap
            < channel.cursor {
            overlap
        } else {
            channel.cursor
        }),
        buffered == 0 ==> w.start == 0 && w.end == 0 && w.new_cursor == channel.cursor,
        w.start == w.end ==> w.new_cursor == channel.cursor,
        w.start < w.end ==> w.end == buffered && w.new_cursor == buffered,
{
}

/// A turn has enough audio exactly from twenty seconds beyond the overlap on.
pub proof fn law_enough_audio(samples_16k: int)
    ensures
        enough_audio(samples_16k) <==> samples_16k >= (20 + OVERLAP_SECS) * 16000,
{
}

/// Segments can be moved exactly where the times of each stay within 64 bits.
pub proof fn law_can_move(segs: &Vec<TimedSegment>, offset_ms: i64, res: bool)
    requires
        call_ensures(can_move, (segs, offset_ms), res),
    ensures
        res <==> forall|i: int|
            0 <= i < segs@.len() ==> -0x8000_0000_0000_0000 <= (#[trigger] segs@[i]).start_ms
                + offset_ms <= 0x7fff_ffff_ffff_ffff && -0x8000_0000_0000_0000 <= segs@[i].end_ms
                + offset_ms <= 0x7fff_ffff_ffff_ffff,
{
    if !res {
        let i = choose|i: int|
            0 <= i < segs@.len() && !(whisper::is_time((#[trigger] segs@[i]).start_ms + offset_ms)
                && whisper::is_time(segs@[i].end_ms + offset_ms));
        assert(segs@[i] == segs@[i]);
    }
}

/// Two turns share three seconds of audio, whatever the sample rate.
pub proof fn law_overlap(rate: u32, res: usize)
    requires
        call_ensures(overlap_samples, (rate,), res),
    ensures
        3 * rate <= usize::MAX ==> res == 3 * rate,
        res <= 3 * rate,
{
}

} // verus!
