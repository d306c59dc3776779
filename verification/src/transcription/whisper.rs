//! Timed segments of speech, and the transcript that is made of them.

use vstd::prelude::*;
use vstd::string::*;

use crate::text;
use crate::text::{join_texts, same_text, strip};

verus! {

/// What one speaker said from one moment to another.
#[derive(Debug, Clone)]
pub struct TimedSegment {
    pub start_ms: i64,
    pub end_ms: i64,
    pub text: String,
    pub speaker: String,
}

/// The content of a segment.
pub struct SegmentView {
    pub start_ms: int,
    pub end_ms: int,
    pub text: Seq<char>,
    pub speaker: Seq<char>,
}

impl View for TimedSegment {
    type V = SegmentView;

    open spec fn view(&self) -> SegmentView {
        SegmentView {
            start_ms: self.start_ms as int,
            end_ms: self.end_ms as int,
            text: self.text@,
            speaker: self.speaker@,
        }
    }
}

/// The contents of some segments.
pub open spec fn segment_views(s: Seq<TimedSegment>) -> Seq<SegmentView> {
    s.map_values(|x: TimedSegment| x@)
}

// ── Recognized speech ──────────────────────────────────────────────────

/// A stretch of speech as a recognizer reports it, with times counted from the start of the audio
/// that it was given.
#[derive(Debug, Clone)]
pub struct RawSegment {
    pub start_ms: i64,
    pub end_ms: i64,
    pub text: String,
}

/// Whether a stretch of speech has a text.
pub open spec fn has_text(raw: RawSegment) -> bool {
    text::stripped(raw.text@).len() > 0
}

/// The segments of one speaker: each stretch of speech that has a text, in order, `offset_ms`
/// later, with its text without white space around it.
pub open spec fn labelled(
    raw: Seq<RawSegment>,
    offset_ms: int,
    speaker: Seq<char>,
) -> Seq<SegmentView>
    decreases raw.len(),
{
    if raw.len() == 0 {
        Seq::empty()
    } else {
        let before = labelled(raw.drop_last(), offset_ms, speaker);
        let last = raw.last();
        if has_text(last) {
            before.push(
                SegmentView {
                    start_ms: offset_ms + last.start_ms,
                    end_ms: offset_ms + last.end_ms,
                    text: text::stripped(last.text@),
                    speaker,
                },
            )
        } else {
            before
        }
    }
}

/// Whether a time is in the range of the segments' times.
pub open spec fn is_time(ms: int) -> bool {
    i64::MIN <= ms <= i64::MAX
}

/// Whether the times of every stretch of speech that has a text stay in range when `offset_ms` is
/// added to them.
pub open spec fn shiftable(raw: Seq<RawSegment>, offset_ms: int) -> bool {
    forall|i: int|
        0 <= i < raw.len() && has_text(#[trigger] raw[i]) ==> is_time(offset_ms + raw[i].start_ms)
            && is_time(offset_ms + raw[i].end_ms)
}

/// Whether the times of every stretch of speech that has a text stay in range when `offset_ms` is
/// added to them.
pub fn can_shift(raw: &Vec<RawSegment>, offset_ms: i64) -> (res: bool)
    ensures
        res == shiftable(raw@, offset_ms as int),
{
    let mut i: usize = 0;
    while i < raw.len()
        invariant
            i <= raw@.len(),
            forall|j: int|
                0 <= j < i && has_text(#[trigger] raw@[j]) ==> is_time(offset_ms + raw@[j].start_ms)
                    && is_time(offset_ms + raw@[j].end_ms),
        decreases raw@.len() - i,
    {
        let words = strip(raw[i].text.as_str());
        if !words.as_str().is_empty() {
            if offset_ms.checked_add(raw[i].start_ms).is_none() || offset_ms.checked_add(
                raw[i].end_ms,
            ).is_none() {
                assert(has_text(raw@[i as int]));
                return false;
            }
        }
        i += 1;
    }
    true
}

/// The segments of one speaker, from what a recognizer reports of audio that starts at `offset_ms`.
pub fn label_segments(raw: &Vec<RawSegment>, offset_ms: i64, speaker: &str) -> (res: Vec<
    TimedSegment,
>)
    requires
        shiftable(raw@, offset_ms as int),
    ensures
        segment_views(res@) == labelled(raw@, offset_ms as int, speaker@),
{
    let mut res: Vec<TimedSegment> = Vec::new();
    let mut i: usize = 0;
    while i < raw.len()
        invariant
            i <= raw@.len(),
            shiftable(raw@, offset_ms as int),
            segment_views(res@) == labelled(raw@.take(i as int), offset_ms as int, speaker@),
        decreases raw@.len() - i,
    {
        let words = strip(raw[i].text.as_str());
        assert(raw@.take(i as int + 1).drop_last() =~= raw@.take(i as int));
        if !words.as_str().is_empty() {
            assert(has_text(raw@[i as int]));
            let seg = TimedSegment {
                start_ms: offset_ms + raw[i].start_ms,
                end_ms: offset_ms + raw[i].end_ms,
                text: words,
                speaker: speaker.to_owned(),
            };
            let ghost held = res@;
            res.push(seg);
            assert(segment_views(res@) =~= segment_views(held).push(seg@));
        }
        i += 1;
    }
    assert(raw@.take(i as int) =~= raw@);
    res
}

// ── Merging ────────────────────────────────────────────────────────────

/// The number of segments before the first one that starts later than `start_ms`.
pub open spec fn place(s: Seq<SegmentView>, start_ms: int) -> nat
    decreases s.len(),
{
    if s.len() == 0 {
        0
    } else if s.last().start_ms <= start_ms {
        s.len()
    } else {
        place(s.drop_last(), start_ms)
    }
}

/// `s` with `x` behind the last segment that does not start later.
pub open spec fn inserted(s: Seq<SegmentView>, x: SegmentView) -> Seq<SegmentView> {
    s.insert(place(s, x.start_ms) as int, x)
}

/// `s` in the order of the start times. Segments that start together stay in their order.
pub open spec fn by_start(s: Seq<SegmentView>) -> Seq<SegmentView>
    decreases s.len(),
{
    if s.len() == 0 {
        Seq::empty()
    } else {
        inserted(by_start(s.drop_last()), s.last())
    }
}

/// Whether no segment starts before the one ahead of it.
pub open spec fn is_ordered(s: Seq<SegmentView>) -> bool {
    forall|i: int, j: int| 0 <= i <= j < s.len() ==> s[i].start_ms <= s[j].start_ms
}

/// The segments of `s` that start at `start_ms`, in order.
pub open spec fn starting_at(s: Seq<SegmentView>, start_ms: int) -> Seq<SegmentView> {
    s.filter(|x: SegmentView| x.start_ms == start_ms)
}

proof fn lemma_place(s: Seq<SegmentView>, start_ms: int)
    ensures
        place(s, start_ms) <= s.len(),
        place(s, start_ms) > 0 ==> s[place(s, start_ms) - 1].start_ms <= start_ms,
        forall|i: int| place(s, start_ms) <= i < s.len() ==> (#[trigger] s[i]).start_ms > start_ms,
    decreases s.len(),
{
    if s.len() > 0 && s.last().start_ms > start_ms {
        let t = s.drop_last();
        lemma_place(t, start_ms);
        assert forall|i: int| place(s, start_ms) <= i < s.len() implies (#[trigger] s[i]).start_ms
            > start_ms by {
            if i < s.len() - 1 {
                assert(s[i] == t[i]);
            }
        }
    }
}

proof fn lemma_inserted(s: Seq<SegmentView>, x: SegmentView)
    requires
        is_ordered(s),
    ensures
        is_ordered(inserted(s, x)),
        inserted(s, x).len() == s.len() + 1,
        forall|k: int| #[trigger]
            starting_at(inserted(s, x), k) == starting_at(s, k) + starting_at(seq![x], k),
{
    lemma_place(s, x.start_ms);
    let p = place(s, x.start_ms) as int;
    let head = s.take(p);
    let tail = s.skip(p);
    assert(inserted(s, x) =~= head + seq![x] + tail);
    assert(s =~= head + tail);
    assert forall|k: int| #[trigger]
        starting_at(inserted(s, x), k) == starting_at(s, k) + starting_at(seq![x], k) by {
        let pred = |y: SegmentView| y.start_ms == k;
        Seq::filter_distributes_over_add(head + seq![x], tail, pred);
        Seq::filter_distributes_over_add(head, seq![x], pred);
        Seq::filter_distributes_over_add(head, tail, pred);
        if k == x.start_ms {
            lemma_filter_none(tail, pred);
            assert(starting_at(inserted(s, x), k) =~= starting_at(s, k) + starting_at(seq![x], k));
        } else {
            lemma_filter_none(seq![x], pred);
            assert(starting_at(inserted(s, x), k) =~= starting_at(s, k) + starting_at(seq![x], k));
        }
    }
}

proof fn lemma_filter_none(s: Seq<SegmentView>, pred: spec_fn(SegmentView) -> bool)
    requires
        forall|i: int| 0 <= i < s.len() ==> !pred(#[trigger] s[i]),
    ensures
        s.filter(pred) == Seq::<SegmentView>::empty(),
    decreases s.len(),
{
    reveal(Seq::filter);
    if s.len() > 0 {
        lemma_filter_none(s.drop_last(), pred);
    }
}

/// Ordering by start time puts the segments in order, loses none and adds none, and keeps those
/// that start together in their order.
pub proof fn law_by_start(s: Seq<SegmentView>)
    ensures
        is_ordered(by_start(s)),
        by_start(s).len() == s.len(),
        by_start(s).to_multiset() == s.to_multiset(),
        forall|k: int| #[trigger] starting_at(by_start(s), k) == starting_at(s, k),
    decreases s.len(),
{
    broadcast use vstd::seq_lib::group_to_multiset_ensures;

    if s.len() > 0 {
        let t = s.drop_last();
        let x = s.last();
        law_by_start(t);
        lemma_inserted(by_start(t), x);
        lemma_place(by_start(t), x.start_ms);
        assert(t.push(x) =~= s);
        assert(by_start(s).to_multiset() =~= by_start(t).to_multiset().insert(x));
        assert(s.to_multiset() =~= t.to_multiset().insert(x));
        assert forall|k: int| #[trigger] starting_at(by_start(s), k) == starting_at(s, k) by {
            let pred = |y: SegmentView| y.start_ms == k;
            assert(starting_at(by_start(s), k) == starting_at(by_start(t), k) + starting_at(
                seq![x],
                k,
            ));
            assert(starting_at(by_start(t), k) == starting_at(t, k));
            assert(t + seq![x] =~= s);
            Seq::filter_distributes_over_add(t, seq![x], pred);
        }
    } else {
        assert(by_start(s) =~= s);
    }
}

/// Merges the segments of two channels in the order of their start times.
pub fn merge_segments(
    mic_segments: Vec<TimedSegment>,
    sys_segments: Vec<TimedSegment>,
) -> (res: Vec<TimedSegment>)
    ensures
        segment_views(res@) == by_start(
            segment_views(mic_segments@) + segment_views(sys_segments@),
        ),
{
    let mut all = mic_segments;
    let mut more = sys_segments;
    all.append(&mut more);
    let ghost given = segment_views(all@);
    assert(given =~= segment_views(mic_segments@) + segment_views(sys_segments@));
    let n: usize = all.len();
    let mut i: usize = 0;
    assert(given.take(0).len() == 0);
    while i < n
        invariant
            i <= n,
            n == all@.len(),
            n == given.len(),
            segment_views(all@).take(i as int) =~= by_start(given.take(i as int)),
            segment_views(all@).skip(i as int) =~= given.skip(i as int),
        decreases n - i,
    {
        let start_ms = all[i].start_ms;
        let ghost done = segment_views(all@).take(i as int);
        let mut p: usize = i;
        assert(done.take(p as int) =~= done);
        while p > 0 && all[p - 1].start_ms > start_ms
            invariant
                p <= i < n,
                n == all@.len(),
                done == segment_views(all@).take(i as int),
                place(done.take(p as int), start_ms as int) == place(done, start_ms as int),
            decreases p,
        {
            assert(done.take(p as int).last() == all@[p - 1]@);
            assert(done.take(p as int).drop_last() =~= done.take(p as int - 1));
            p -= 1;
        }
        proof {
            if p > 0 {
                assert(done.take(p as int).last() == all@[p - 1]@);
            }
            assert(place(done, start_ms as int) == p);
        }
        let ghost before = segment_views(all@);
        let seg = all.remove(i);
        all.insert(p, seg);
        proof {
            law_by_start(given.take(i as int));
            let upto = given.take(i as int + 1);
            assert(upto.drop_last() =~= given.take(i as int));
            assert(given.skip(i as int)[0] == given[i as int]);
            assert(before.skip(i as int)[0] == before[i as int]);
            assert(upto.last() == seg@);
            assert(by_start(upto) == inserted(done, seg@));
            assert(segment_views(all@).take(i as int + 1) =~= inserted(done, seg@));
            assert(segment_views(all@).skip(i as int + 1) =~= before.skip(i as int).drop_first());
            assert(given.skip(i as int + 1) =~= given.skip(i as int).drop_first());
        }
        i += 1;
    }
    proof {
        assert(given.take(n as int) =~= given);
        assert(segment_views(all@).take(n as int) =~= segment_views(all@));
    }
    all
}

// ── Transcript ─────────────────────────────────────────────────────────

/// What a segment adds to the transcript: its text, under the name of its speaker where another
/// one spoke before.
pub open spec fn transcript_line(s: Seq<SegmentView>, i: int) -> Seq<char> {
    let before = if i == 0 {
        Seq::empty()
    } else {
        s[i - 1].speaker
    };
    if s[i].speaker != before {
        "\n"@ + s[i].speaker + ":\n"@ + s[i].text
    } else {
        s[i].text
    }
}

/// What each segment adds to the transcript.
pub open spec fn transcript_lines(s: Seq<SegmentView>) -> Seq<Seq<char>> {
    Seq::new(s.len(), |i: int| transcript_line(s, i))
}

/// The readable text of some segments.
pub open spec fn transcript(s: Seq<SegmentView>) -> Seq<char> {
    text::stripped(text::join(transcript_lines(s), " "@))
}

/// Formats segments into readable text with speaker labels.
pub fn format_transcript(segments: &[TimedSegment]) -> (res: String)
    ensures
        res@ == transcript(segment_views(segments@)),
{
    let mut lines: Vec<String> = Vec::new();
    let mut current_speaker = String::new();
    let mut i: usize = 0;
    while i < segments.len()
        invariant
            i <= segments@.len(),
            current_speaker@ == (if i == 0 {
                Seq::empty()
            } else {
                segments@[i - 1].speaker@
            }),
            text::texts(lines@) =~= transcript_lines(segment_views(segments@)).take(i as int),
        decreases segments@.len() - i,
    {
        let seg = &segments[i];
        let ghost held = lines@;
        if !same_text(seg.speaker.as_str(), current_speaker.as_str()) {
            current_speaker = seg.speaker.clone();
            let mut line = "\n".to_owned();
            line.append(seg.speaker.as_str());
            line.append(":\n");
            line.append(seg.text.as_str());
            lines.push(line);
        } else {
            lines.push(seg.text.clone());
        }
        proof {
            assert(lines@.last()@ == transcript_line(segment_views(segments@), i as int));
            assert(text::texts(lines@) =~= text::texts(held).push(lines@.last()@));
        }
        i += 1;
    }
    assert(transcript_lines(segment_views(segments@)).take(i as int) =~= transcript_lines(segment_views(segments@)));
    let whole = join_texts(&lines, " ");
    strip(whole.as_str())
}

// ── Laws ───────────────────────────────────────────────────────────────

/// Whether a text is more than white space and has none around it.
pub open spec fn is_said(t: Seq<char>) -> bool {
    t.len() > 0 && !text::is_white_space(t[0]) && !text::is_white_space(t.last())
}

/// Whether each of some segments has a text and a speaker, without white space around them.
pub open spec fn all_said(s: Seq<SegmentView>) -> bool {
    forall|i: int| 0 <= i < s.len() ==> is_said((#[trigger] s[i]).text) && is_said(s[i].speaker)
}

/// What a recognizer reports is labelled stretch by stretch: one that is more than white space becomes a
/// segment of the speaker, moved by the offset, with its text from its first to its last character that
/// is no white space; another one is left out.
pub proof fn law_labelled(
    a: Seq<RawSegment>,
    b: Seq<RawSegment>,
    offset_ms: int,
    speaker: Seq<char>,
)
    ensures
        labelled(a + b, offset_ms, speaker) == labelled(a, offset_ms, speaker) + labelled(
            b,
            offset_ms,
            speaker,
        ),
        a.len() == 1 ==> labelled(a, offset_ms, speaker).len() == (if exists|i: int|
            0 <= i < a[0].text@.len() && !text::is_white_space(#[trigger] a[0].text@[i]) {
            1nat
        } else {
            0nat
        }),
        forall|i: int|
            0 <= i < labelled(a, offset_ms, speaker).len() ==> {
                let x = #[trigger] labelled(a, offset_ms, speaker)[i];
                &&& x.speaker == speaker
                &&& is_said(x.text)
                &&& exists|j: int|
                    0 <= j < a.len() && x.start_ms - offset_ms == (#[trigger] a[j]).start_ms
                        && x.end_ms - offset_ms == a[j].end_ms && text::occurs(a[j].text@, x.text)
            },
    decreases a.len() + b.len(),
{
    if b.len() > 0 {
        assert((a + b).drop_last() =~= a + b.drop_last());
        law_labelled(a, b.drop_last(), offset_ms, speaker);
        assert(labelled(a + b, offset_ms, speaker) =~= labelled(a, offset_ms, speaker) + labelled(
            b,
            offset_ms,
            speaker,
        ));
    } else {
        assert(a + b =~= a);
        assert(labelled(a, offset_ms, speaker) + labelled(b, offset_ms, speaker) =~= labelled(
            a,
            offset_ms,
            speaker,
        ));
        if a.len() > 0 {
            let init = a.drop_last();
            law_labelled(init, b, offset_ms, speaker);
            let last = a.last();
            text::law_substance(last.text@);
            let before = labelled(init, offset_ms, speaker);
            let all = labelled(a, offset_ms, speaker);
            if a.len() == 1 {
                assert(before.len() == 0);
            }
            assert forall|i: int| 0 <= i < all.len() implies {
                let x = #[trigger] all[i];
                &&& x.speaker == speaker
                &&& is_said(x.text)
                &&& exists|j: int|
                    0 <= j < a.len() && x.start_ms - offset_ms == (#[trigger] a[j]).start_ms
                        && x.end_ms - offset_ms == a[j].end_ms && text::occurs(a[j].text@, x.text)
            } by {
                if i < before.len() {
                    assert(all[i] == before[i]);
                    let x = before[i];
                    let j = choose|j: int|
                        0 <= j < init.len() && x.start_ms - offset_ms == (
                        #[trigger] init[j]).start_ms && x.end_ms - offset_ms == init[j].end_ms
                            && text::occurs(init[j].text@, x.text);
                    assert(a[j] == init[j]);
                } else {
                    assert(a[a.len() - 1] == last);
                }
            }
        }
    }
}

/// A segment stands under the name of its speaker wherever someone else spoke just before, or nobody
/// did, and else follows what the speaker said before.
pub proof fn law_label(s: Seq<SegmentView>, i: int)
    requires
        0 <= i < s.len(),
    ensures
        transcript_lines(s).len() == s.len(),
        i > 0 && s[i].speaker != s[i - 1].speaker ==> transcript_lines(s)[i] == "\n"@ + s[i].speaker
            + ":\n"@ + s[i].text,
        i > 0 && s[i].speaker == s[i - 1].speaker ==> transcript_lines(s)[i] == s[i].text,
        i == 0 && s[0].speaker.len() > 0 ==> transcript_lines(s)[0] == "\n"@ + s[0].speaker + ":\n"@
            + s[0].text,
        i == 0 && s[0].speaker.len() == 0 ==> transcript_lines(s)[0] == s[0].text,
{
    assert(s[0].speaker.len() == 0 ==> s[0].speaker =~= Seq::empty());
}

/// The speaker and the text that a line of a transcript stands for, where `before` spoke last: a line
/// that starts with a line feed names its speaker, up to the first colon, and has its text after the
/// line feed that follows.
pub open spec fn read_line(line: Seq<char>, before: Seq<char>) -> (Seq<char>, Seq<char>) {
    if line.len() > 0 && line[0] == '\n' {
        let k = text::find(line, seq![':'])->0;
        (line.subrange(1, k), line.skip(k + 2))
    } else {
        (before, line)
    }
}

/// The speakers and the texts that the lines of a transcript stand for.
pub open spec fn read_lines(lines: Seq<Seq<char>>) -> Seq<(Seq<char>, Seq<char>)>
    decreases lines.len(),
{
    if lines.len() == 0 {
        Seq::empty()
    } else {
        let read = read_lines(lines.drop_last());
        let before = if read.len() > 0 {
            read.last().0
        } else {
            Seq::empty()
        };
        read.push(read_line(lines.last(), before))
    }
}

/// Who said what can be read back from the lines of a transcript: each segment stands under its own
/// speaker.
pub proof fn law_transcript_reads_back(s: Seq<SegmentView>)
    requires
        all_said(s),
        forall|i: int| 0 <= i < s.len() ==> !(#[trigger] s[i]).speaker.contains(':'),
    ensures
        read_lines(transcript_lines(s)).len() == s.len(),
        forall|i: int|
            0 <= i < s.len() ==> #[trigger] read_lines(transcript_lines(s))[i] == (
                s[i].speaker,
                s[i].text,
            ),
    decreases s.len(),
{
    let lines = transcript_lines(s);
    if s.len() > 0 {
        let init = s.drop_last();
        let n = s.len() - 1;
        assert forall|i: int| 0 <= i < init.len() implies is_said((#[trigger] init[i]).text)
            && is_said(init[i].speaker) && !init[i].speaker.contains(':') by {
            assert(init[i] == s[i]);
        }
        law_transcript_reads_back(init);
        assert(lines.drop_last() =~= transcript_lines(init)) by {
            assert forall|i: int| 0 <= i < n implies transcript_line(s, i) == transcript_line(
                init,
                i,
            ) by {}
        }
        let read = read_lines(transcript_lines(init));
        assert(n > 0 ==> read[n - 1] == (s[n - 1].speaker, s[n - 1].text));
        law_label(s, n);
        lemma_line_reads_back(s[n].speaker, s[n].text);
        assert(is_said(s[n].text));
        assert forall|i: int| 0 <= i < s.len() implies #[trigger] read_lines(lines)[i] == (
            s[i].speaker,
            s[i].text,
        ) by {
            if i < n {
                assert(read_lines(lines)[i] == read[i]);
            }
        }
    }
}

proof fn lemma_line_reads_back(speaker: Seq<char>, words: Seq<char>)
    requires
        !speaker.contains(':'),
    ensures
        forall|before: Seq<char>| #[trigger]
            read_line("\n"@ + speaker + ":\n"@ + words, before) == (speaker, words),
{
    reveal_strlit("\n");
    reveal_strlit(":\n");
    let line = "\n"@ + speaker + ":\n"@ + words;
    let k = 1 + speaker.len() as int;
    text::lemma_find_char(line, ':');
    assert(line[k] == ':');
    assert(line.contains(':'));
    let f = text::find(line, seq![':'])->0;
    if f > k {
        assert(line[k] != ':');
    }
    if f < k {
        if f > 0 {
            assert(line[f] == speaker[f - 1]);
            assert(speaker.contains(':'));
        }
    }
    assert(line.subrange(1, k) =~= speaker);
    assert(line.skip(k + 2) =~= words);
}

/// The lines of a transcript, joined.
proof fn lemma_joined_lines(s: Seq<SegmentView>)
    requires
        all_said(s),
        s.len() > 0,
    ensures
        ({
            let whole = text::join(transcript_lines(s), " "@);
            &&& whole.len() > 1
            &&& whole[0] == '\n'
            &&& !text::is_white_space(whole[1])
            &&& !text::is_white_space(whole.last())
            &&& transcript(s) == whole.drop_first()
        }),
    decreases s.len(),
{
    reveal_strlit("\n");
    reveal_strlit(":\n");
    let n = s.len() - 1;
    let lines = transcript_lines(s);
    let whole = text::join(lines, " "@);
    let line = lines[n];
    assert(is_said(s[n].text) && is_said(s[n].speaker));
    law_label(s, n);
    assert(line.last() == s[n].text.last());
    assert(lines.drop_last().push(line) =~= lines);
    text::lemma_join_push(lines.drop_last(), " "@, line);
    if n > 0 {
        let init = s.drop_last();
        lemma_init_said(s);
        lemma_joined_lines(init);
        assert(lines.drop_last() =~= transcript_lines(init));
        assert(whole[0] == text::join(transcript_lines(init), " "@)[0]);
        assert(whole[1] == text::join(transcript_lines(init), " "@)[1]);
    } else {
        assert(line[1] == s[0].speaker[0]);
    }
    assert(whole.last() == line.last());
    let e = Seq::<char>::empty();
    let inner = whole.drop_first();
    assert(whole =~= seq!['\n'] + inner + e);
    assert(inner[0] == whole[1] && inner.last() == whole.last());
    text::law_trimmed(seq!['\n'], inner, e, text::CharClass::WhiteSpace);
}

proof fn lemma_init_said(s: Seq<SegmentView>)
    requires
        all_said(s),
        s.len() > 0,
    ensures
        all_said(s.drop_last()),
        transcript_lines(s).drop_last() == transcript_lines(s.drop_last()),
{
    let init = s.drop_last();
    assert forall|i: int| 0 <= i < init.len() implies is_said((#[trigger] init[i]).text) && is_said(
        init[i].speaker,
    ) by {
        assert(init[i] == s[i]);
    }
    assert(transcript_lines(s).drop_last() =~= transcript_lines(init));
}

/// A transcript is determined by this: of no segments it is empty; the first segment stands in it under
/// the name of its speaker; and one more segment adds a blank, the name of its speaker on a line of its
/// own where someone else spoke just before, and its text.
pub proof fn law_transcript(s: Seq<SegmentView>, x: SegmentView)
    requires
        all_said(s.push(x)),
    ensures
        transcript(Seq::empty()) == Seq::<char>::empty(),
        s.len() == 0 ==> transcript(s.push(x)) == x.speaker + ":\n"@ + x.text,
        s.len() > 0 && x.speaker == s.last().speaker ==> transcript(s.push(x)) == transcript(s)
            + " "@ + x.text,
        s.len() > 0 && x.speaker != s.last().speaker ==> transcript(s.push(x)) == transcript(s)
            + " \n"@ + x.speaker + ":\n"@ + x.text,
{
    reveal_strlit("\n");
    reveal_strlit(" \n");
    reveal_strlit(" ");
    let all = s.push(x);
    let n = s.len() as int;
    assert(transcript_lines(Seq::empty()) =~= Seq::empty());
    assert(transcript(Seq::empty()) =~= Seq::empty());
    assert(all.drop_last() =~= s);
    lemma_joined_lines(all);
    lemma_init_said(all);
    law_label(all, n);
    assert(all[n] == x);
    assert(is_said(all[n].speaker));
    let lines = transcript_lines(all);
    assert(lines.drop_last().push(lines[n]) =~= lines);
    text::lemma_join_push(transcript_lines(s), " "@, lines[n]);
    if n > 0 {
        lemma_joined_lines(s);
        assert(all[n - 1] == s.last());
        let held = text::join(transcript_lines(s), " "@);
        assert((held + " "@ + lines[n]).drop_first() =~= held.drop_first() + " "@ + lines[n]);
        if x.speaker != s.last().speaker {
            assert(transcript(all) =~= transcript(s) + " \n"@ + x.speaker + ":\n"@ + x.text);
        } else {
            assert(transcript(all) =~= transcript(s) + " "@ + x.text);
        }
    } else {
        assert(transcript(all) =~= x.speaker + ":\n"@ + x.text);
    }
}

/// Everything that was said stands in the transcript.
pub proof fn law_transcript_holds_every_text(s: Seq<SegmentView>, i: int)
    requires
        0 <= i < s.len(),
        is_said(s[i].text),
    ensures
        text::occurs(transcript(s), s[i].text),
{
    let lines = transcript_lines(s);
    let whole = text::join(lines, " "@);
    let words = s[i].text;
    let e = Seq::<char>::empty();
    law_label(s, i);
    text::law_joined_parts_stand(lines, " "@, i);
    let label = "\n"@ + s[i].speaker + ":\n"@;
    assert(label + words + e =~= "\n"@ + s[i].speaker + ":\n"@ + words);
    assert(e + words + e =~= words);
    text::law_occurs_between(label, words, e);
    text::law_occurs_between(e, words, e);
    text::law_occurs_within(whole, lines[i], words);
    text::law_stripping_keeps(whole, words);
}

/// Everything that was said on either channel stands in the transcript of both.
pub proof fn law_merged_transcript_holds_every_text(
    a: Seq<SegmentView>,
    b: Seq<SegmentView>,
    x: SegmentView,
)
    requires
        a.contains(x) || b.contains(x),
        is_said(x.text),
    ensures
        by_start(a + b).contains(x),
        text::occurs(transcript(by_start(a + b)), x.text),
{
    broadcast use vstd::seq_lib::group_to_multiset_ensures;

    let all = a + b;
    let merged = by_start(all);
    law_by_start(all);
    if a.contains(x) {
        let i = choose|i: int| 0 <= i < a.len() && a[i] == x;
        assert(all[i] == x);
    } else {
        let i = choose|i: int| 0 <= i < b.len() && b[i] == x;
        assert(all[a.len() + i] == x);
    }
    assert(all.contains(x));
    assert(all.to_multiset().count(x) > 0);
    assert(merged.contains(x));
    let k = choose|k: int| 0 <= k < merged.len() && merged[k] == x;
    law_transcript_holds_every_text(merged, k);
}

/// Merging two channels, each in the order of its start times, keeps that order within each channel, and
/// the first channel comes first where two segments start together.
pub proof fn law_merge(
    mic: Vec<TimedSegment>,
    sys: Vec<TimedSegment>,
    res: Vec<TimedSegment>,
)
    requires
        call_ensures(merge_segments, (mic, sys), res),
    ensures
        res@.len() == mic@.len() + sys@.len(),
        forall|i: int, j: int| 0 <= i <= j < res@.len() ==> res@[i].start_ms <= res@[j].start_ms,
        segment_views(res@).to_multiset() == (segment_views(mic@) + segment_views(
            sys@,
        )).to_multiset(),
        forall|k: int| #[trigger]
            starting_at(segment_views(res@), k) == starting_at(segment_views(mic@), k)
                + starting_at(segment_views(sys@), k),
{
    let a = segment_views(mic@);
    let b = segment_views(sys@);
    law_by_start(a + b);
    let v = segment_views(res@);
    assert(v.len() == res@.len());
    assert forall|i: int, j: int| 0 <= i <= j < res@.len() implies res@[i].start_ms
        <= res@[j].start_ms by {
        assert(v[i].start_ms <= v[j].start_ms);
    }
    assert forall|k: int| #[trigger] starting_at(v, k) == starting_at(a, k) + starting_at(b, k) by {
        Seq::filter_distributes_over_add(a, b, |x: SegmentView| x.start_ms == k);
        assert(starting_at(v, k) == starting_at(a + b, k));
    }
}

/// A stretch of speech becomes a segment with all of its text but the white space around it.
pub proof fn law_labelled_stretch(
    raw: RawSegment,
    before: Seq<char>,
    words: Seq<char>,
    after: Seq<char>,
    offset_ms: int,
    speaker: Seq<char>,
)
    requires
        raw.text@ == before + words + after,
        forall|i: int| 0 <= i < before.len() ==> text::is_white_space(#[trigger] before[i]),
        forall|i: int| 0 <= i < after.len() ==> text::is_white_space(#[trigger] after[i]),
        words.len() == 0 || is_said(words),
    ensures
        words.len() == 0 ==> labelled(seq![raw], offset_ms, speaker).len() == 0,
        words.len() > 0 ==> labelled(seq![raw], offset_ms, speaker) == seq![
            SegmentView {
                start_ms: offset_ms + raw.start_ms,
                end_ms: offset_ms + raw.end_ms,
                text: words,
                speaker,
            },
        ],
{
    text::law_trimmed(before, words, after, text::CharClass::WhiteSpace);
    let one = seq![raw];
    assert(one.drop_last() =~= Seq::empty());
    assert(labelled(one.drop_last(), offset_ms, speaker) =~= Seq::empty());
    assert(one.last() == raw);
}

/// Stretches of speech can be moved exactly where the times of each that has a text stay within 64 bits.
pub proof fn law_can_shift(raw: &Vec<RawSegment>, offset_ms: i64, res: bool)
    requires
        call_ensures(can_shift, (raw, offset_ms), res),
    ensures
        res <==> forall|i: int|
            0 <= i < raw@.len() && (exists|j: int|
                0 <= j < raw@[i].text@.len() && !text::is_white_space(#[trigger] raw@[i].text@[j]))
                ==> -0x8000_0000_0000_0000 <= offset_ms + (#[trigger] raw@[i]).start_ms
                <= 0x7fff_ffff_ffff_ffff && -0x8000_0000_0000_0000 <= offset_ms + raw@[i].end_ms
                <= 0x7fff_ffff_ffff_ffff,
{
    assert forall|i: int| 0 <= i < raw@.len() implies (has_text(#[trigger] raw@[i]) <==> exists|
        j: int,
    |
        0 <= j < raw@[i].text@.len() && !text::is_white_space(#[trigger] raw@[i].text@[j])) by {
        text::law_substance(raw@[i].text@);
    }
    if !res {
        let i = choose|i: int|
            0 <= i < raw@.len() && has_text(#[trigger] raw@[i]) && !(is_time(
                offset_ms + raw@[i].start_ms,
            ) && is_time(offset_ms + raw@[i].end_ms));
        assert(has_text(raw@[i]));
    }
}

/// The words of a transcript are those of its lines, in their order, whatever was said: none is left out
/// and none is added.
pub proof fn law_words_of_transcript(s: Seq<SegmentView>, x: SegmentView)
    ensures
        s.len() == 0 ==> text::words(transcript(s)).len() == 0,
        text::words(transcript(s.push(x))) == text::words(transcript(s)) + text::words(
            transcript_lines(s.push(x)).last(),
        ),
{
    reveal_strlit(" ");
    assert(" "@ =~= seq![' ']);
    let all = s.push(x);
    let lines = transcript_lines(all);
    let held = text::join(transcript_lines(s), " "@);
    assert(lines.drop_last() =~= transcript_lines(s));
    assert(lines.drop_last().push(lines.last()) =~= lines);
    text::lemma_join_push(transcript_lines(s), " "@, lines.last());
    text::law_words_of_stripped(held);
    text::law_words_of_stripped(text::join(lines, " "@));
    if s.len() > 0 {
        text::law_words(held, ' ', lines.last());
        assert(held + seq![' '] + lines.last() == text::join(lines, " "@));
    } else {
        text::law_words(held, ' ', held);
        assert(held =~= Seq::empty());
        assert(text::words(held) + text::words(lines.last()) =~= text::words(lines.last()));
    }
}

} // verus!
