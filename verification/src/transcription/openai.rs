//! Transcription by the OpenAI service.

use vstd::prelude::*;
use vstd::string::*;

use crate::audio::mixer;
use crate::audio::mixer::TARGET_SAMPLE_RATE;
use crate::text;
use crate::text::strip;
use crate::transcription::whisper;
use crate::transcription::whisper::{
    can_shift, label_segments, RawSegment, SegmentView, TimedSegment,
};

verus! {

/// The model that transcribes.
pub const OPENAI_TRANSCRIPTION_MODEL: &'static str = "whisper-1";

/// The samples of one upload: ten minutes at 16 kHz, whose WAV file is below the upload limit of
/// 25 MB.
pub const CHUNK_SAMPLES: usize = 9600000;

/// A part of the audio that is uploaded at once.
#[derive(Debug, Clone, Copy)]
pub struct ChunkSpan {
    /// The first sample.
    pub start: usize,
    /// The first sample after the part.
    pub end: usize,
    /// When the part starts in the audio.
    pub offset_ms: i64,
}

/// The time at which a sample at 16 kHz is played.
pub open spec fn sample_ms(sample: int) -> int {
    sample * 1000 / 16000
}

/// The number of uploads that so many samples need.
pub open spec fn chunk_count(samples: int) -> int {
    (samples + CHUNK_SAMPLES - 1) / CHUNK_SAMPLES as int
}

/// The part with index `i` of so many samples.
pub open spec fn is_chunk(span: ChunkSpan, i: int, samples: int) -> bool {
    &&& span.start == i * CHUNK_SAMPLES
    &&& span.end == (if (i + 1) * CHUNK_SAMPLES <= samples {
        (i + 1) * CHUNK_SAMPLES
    } else {
        samples
    })
    &&& span.offset_ms == sample_ms(i * CHUNK_SAMPLES)
}

/// Cuts audio of so many samples into parts of at most ten minutes.
pub fn chunk_spans(samples: usize) -> (res: Vec<ChunkSpan>)
    requires
        samples * 1000 <= i64::MAX,
    ensures
        res@.len() == chunk_count(samples as int),
        forall|i: int| 0 <= i < res@.len() ==> is_chunk(#[trigger] res@[i], i, samples as int),
{
    let mut res: Vec<ChunkSpan> = Vec::new();
    let mut start: usize = 0;
    let ghost mut k: int = 0;
    while start < samples
        invariant
            samples * 1000 <= i64::MAX,
            k == res@.len(),
            start == (if k * CHUNK_SAMPLES <= samples {
                k * CHUNK_SAMPLES
            } else {
                samples as int
            }),
            k > 0 ==> (k - 1) * CHUNK_SAMPLES < samples,
            forall|i: int| 0 <= i < res@.len() ==> is_chunk(#[trigger] res@[i], i, samples as int),
        decreases samples - start,
    {
        let end: usize = if samples - start >= CHUNK_SAMPLES {
            start + CHUNK_SAMPLES
        } else {
            samples
        };
        let offset_ms: i64 = start as i64 * 1000 / TARGET_SAMPLE_RATE as i64;
        proof {
            assert((k + 1) * CHUNK_SAMPLES == k * CHUNK_SAMPLES + CHUNK_SAMPLES)
                by (nonlinear_arith);
            k = k + 1;
        }
        res.push(ChunkSpan { start, end, offset_ms });
        start = end;
    }
    proof {
        let c = CHUNK_SAMPLES as int;
        assert(k == (samples + c - 1) / c) by (nonlinear_arith)
            requires
                c == 9600000,
                k * c >= samples,
                samples >= 0,
                k == 0 || (k - 1) * c < samples,
                k >= 0,
        ;
    }
    res
}

/// The parts follow one another without a gap, cover all samples, and none is empty or longer than
/// ten minutes.
pub proof fn law_chunks_cover_the_audio(spans: Seq<ChunkSpan>, samples: int)
    requires
        samples >= 0,
        spans.len() == chunk_count(samples),
        forall|i: int| 0 <= i < spans.len() ==> is_chunk(#[trigger] spans[i], i, samples),
    ensures
        samples > 0 ==> spans.len() > 0 && spans[0].start == 0 && spans.last().end == samples,
        forall|i: int, j: int|
            #![trigger spans[i], spans[j]]
            0 <= i && j == i + 1 && j < spans.len() ==> spans[i].end == spans[j].start,
        forall|i: int|
            0 <= i < spans.len() ==> 0 < (#[trigger] spans[i]).end - spans[i].start
                <= CHUNK_SAMPLES,
{
    let c = CHUNK_SAMPLES as int;
    let n = spans.len() as int;
    assert(n * c >= samples && (n > 0 ==> (n - 1) * c < samples)) by (nonlinear_arith)
        requires
            c == 9600000,
            n == (samples + c - 1) / c,
            samples >= 0,
    ;
    assert forall|i: int| 0 <= i < n implies 0 < (#[trigger] spans[i]).end - spans[i].start
        <= CHUNK_SAMPLES by {
        assert(is_chunk(spans[i], i, samples));
        assert((i + 1) * c == i * c + c) by (nonlinear_arith);
        assert(i * c <= (n - 1) * c) by (nonlinear_arith)
            requires
                i <= n - 1,
                c == 9600000,
        ;
    }
    assert forall|i: int, j: int|
        #![trigger spans[i], spans[j]]
        0 <= i && j == i + 1 && j < n implies spans[i].end == spans[j].start by {
        assert(is_chunk(spans[i], i, samples));
        assert(is_chunk(spans[j], j, samples));
        assert(j * c <= (n - 1) * c) by (nonlinear_arith)
            requires
                j <= n - 1,
                c == 9600000,
        ;
    }
    if samples > 0 {
        assert(n > 0) by (nonlinear_arith)
            requires
                n * c >= samples,
                samples > 0,
                c == 9600000,
        ;
        assert(is_chunk(spans[0], 0, samples));
        assert(is_chunk(spans[n - 1], n - 1, samples));
        assert((n - 1 + 1) * c == n * c) by (nonlinear_arith);
    }
}

/// The WAV file of one part is below the upload limit.
pub proof fn law_chunk_is_below_upload_limit(samples: Seq<i16>)
    requires
        samples.len() <= CHUNK_SAMPLES,
    ensures
        mixer::wav_file(samples, TARGET_SAMPLE_RATE as int).len() < 25000000,
{
    mixer::law_wav_length(samples, TARGET_SAMPLE_RATE as int);
}

/// The name under which the audio of a speaker, given in lowercase, is uploaded.
pub fn upload_name_in(lower: &str) -> (res: String)
    ensures
        res@ == lower@ + ".wav"@,
{
    let mut name = lower.to_owned();
    name.append(".wav");
    name
}

/// The name under which the audio of a speaker is uploaded.
pub fn upload_name(speaker: &str) -> (res: String)
    ensures
        res@ == text::written_lowercase(speaker@) + ".wav"@,
        (forall|i: int| 0 <= i < speaker@.len() ==> text::is_common(#[trigger] speaker@[i]))
            ==> res@ == text::lowercase(speaker@) + ".wav"@,
{
    let lowered = speaker.to_lowercase();
    upload_name_in(lowered.as_str())
}

/// What the service answers: the whole text, how long the audio is, and the stretches of speech.
pub struct Transcription {
    pub text: String,
    pub duration_ms: Option<i64>,
    pub segments: Option<Vec<RawSegment>>,
}

/// The stretches of speech in an answer.
pub open spec fn reported(t: Transcription) -> Seq<RawSegment> {
    match t.segments {
        Some(v) => v@,
        None => Seq::empty(),
    }
}

/// How long the audio is, by the answer or else by its samples.
pub open spec fn spoken_ms(t: Transcription, samples: int) -> int {
    match t.duration_ms {
        Some(ms) => ms as int,
        None => sample_ms(samples),
    }
}

/// The segments of one part: the stretches of speech where the answer has any; else the whole text,
/// where there is one, as a single segment.
pub open spec fn answered(
    t: Transcription,
    samples: int,
    speaker: Seq<char>,
    offset_ms: int,
) -> Seq<SegmentView> {
    if reported(t).len() > 0 {
        whisper::labelled(reported(t), offset_ms, speaker)
    } else if text::stripped(t.text@).len() == 0 {
        Seq::empty()
    } else {
        seq![
            SegmentView {
                start_ms: offset_ms,
                end_ms: offset_ms + spoken_ms(t, samples),
                text: text::stripped(t.text@),
                speaker,
            },
        ]
    }
}

/// Whether the times that the segments of one part need are in range.
pub open spec fn times_fit(t: Transcription, samples: int, offset_ms: int) -> bool {
    if reported(t).len() > 0 {
        whisper::shiftable(reported(t), offset_ms)
    } else {
        text::stripped(t.text@).len() > 0 ==> whisper::is_time(offset_ms + spoken_ms(t, samples))
            && (t.duration_ms is None ==> samples * 1000 <= i64::MAX)
    }
}

/// Whether the times that the segments of one part need are in range.
pub fn times_in_range(t: &Transcription, samples: usize, offset_ms: i64) -> (res: bool)
    ensures
        res == times_fit(*t, samples as int, offset_ms as int),
{
    if let Some(segments) = &t.segments {
        if segments.len() > 0 {
            return can_shift(segments, offset_ms);
        }
    }
    let words = strip(t.text.as_str());
    if words.as_str().is_empty() {
        return true;
    }
    match t.duration_ms {
        Some(ms) => offset_ms.checked_add(ms).is_some(),
        None => {
            let n: u128 = samples as u128 * 1000;
            if n > i64::MAX as u128 {
                return false;
            }
            let ms: i64 = samples as i64 * 1000 / TARGET_SAMPLE_RATE as i64;
            offset_ms.checked_add(ms).is_some()
        },
    }
}

/// The segments of one part, from the answer of the service.
pub fn chunk_segments(
    t: &Transcription,
    samples: usize,
    speaker: &str,
    offset_ms: i64,
) -> (res: Vec<TimedSegment>)
    requires
        times_fit(*t, samples as int, offset_ms as int),
    ensures
        whisper::segment_views(res@) == answered(*t, samples as int, speaker@, offset_ms as int),
{
    if let Some(segments) = &t.segments {
        if segments.len() > 0 {
            return label_segments(segments, offset_ms, speaker);
        }
    }
    let words = strip(t.text.as_str());
    let mut res: Vec<TimedSegment> = Vec::new();
    if !words.as_str().is_empty() {
        let duration_ms: i64 = match t.duration_ms {
            Some(ms) => ms,
            None => samples as i64 * 1000 / TARGET_SAMPLE_RATE as i64,
        };
        res.push(
            TimedSegment {
                start_ms: offset_ms,
                end_ms: offset_ms + duration_ms,
                text: words,
                speaker: speaker.to_owned(),
            },
        );
    }
    assert(whisper::segment_views(res@) =~= answered(
        *t,
        samples as int,
        speaker@,
        offset_ms as int,
    ));
    res
}

/// What the service answered, from the status of its response, the body, and what the body was parsed
/// into. There is nothing where the response is no success or its body could not be parsed, in this
/// order.
pub fn answer_of_response(
    success: bool,
    status: &str,
    body: &str,
    parsed: Option<Transcription>,
) -> (res: Result<Transcription, String>)
    ensures
        if !success {
            res matches Err(e) && e@ == "OpenAI transcription API fejl "@ + status@ + ": "@ + body@
        } else {
            match parsed {
                Some(t) => res == Ok::<Transcription, String>(t),
                None => res matches Err(e) && e@
                    == "Kunne ikke parse OpenAI transcription svar"@,
            }
        },
{
    if !success {
        let mut out = "OpenAI transcription API fejl ".to_owned();
        out.append(status);
        out.append(": ");
        out.append(body);
        return Err(out);
    }
    match parsed {
        Some(t) => Ok(t),
        None => Err("Kunne ikke parse OpenAI transcription svar".to_owned()),
    }
}

/// The message for a speaker whose audio could not be transcribed.
pub fn speaker_error(speaker: &str) -> (res: String)
    ensures
        res@ == "OpenAI-transskription fejlede for "@ + speaker@,
{
    let mut out = "OpenAI-transskription fejlede for ".to_owned();
    out.append(speaker);
    out
}

// ── Laws ───────────────────────────────────────────────────────────────

/// The parts of the audio follow one another without a gap, from its first sample to its last, and each is
/// placed at the time at which its first sample is played: a millisecond is sixteen samples.
pub proof fn law_chunk_spans(samples: usize, res: Vec<ChunkSpan>)
    requires
        call_ensures(chunk_spans, (samples,), res),
    ensures
        samples > 0 ==> res@.len() > 0 && res@[0].start == 0 && res@.last().end == samples,
        samples == 0 ==> res@.len() == 0,
        forall|i: int| 0 < i < res@.len() ==> (#[trigger] res@[i]).start == res@[i - 1].end,
        forall|i: int|
            0 <= i < res@.len() ==> (#[trigger] res@[i]).start < res@[i].end && res@[i].end
                - res@[i].start <= CHUNK_SAMPLES && res@[i].offset_ms * 16 == res@[i].start,
{
    law_chunks_cover_the_audio(res@, samples as int);
    assert forall|i: int| 0 <= i < res@.len() implies (#[trigger] res@[i]).start < res@[i].end
        && res@[i].end - res@[i].start <= CHUNK_SAMPLES && res@[i].offset_ms * 16
        == res@[i].start by {
        assert(is_chunk(res@[i], i, samples as int));
    }
    assert forall|i: int| 0 < i < res@.len() implies (#[trigger] res@[i]).start == res@[i
        - 1].end by {
        assert(is_chunk(res@[i], i, samples as int));
        assert(is_chunk(res@[i - 1], i - 1, samples as int));
    }
}

/// What the service heard is not lost: where it reports no stretches of speech but a text, the text becomes
/// a segment as long as the audio; where it reports some, each that has a text becomes one. All are placed
/// where the part starts, under the name of the speaker.
pub proof fn law_answered(
    t: &Transcription,
    samples: usize,
    speaker: &str,
    offset_ms: i64,
    res: Vec<TimedSegment>,
)
    requires
        times_fit(*t, samples as int, offset_ms as int),
        call_ensures(chunk_segments, (t, samples, speaker, offset_ms), res),
    ensures
        forall|i: int|
            0 <= i < res@.len() ==> (#[trigger] res@[i]).speaker@ == speaker@ && whisper::is_said(
                res@[i].text@,
            ),
        t.segments is None || t.segments->0@.len() == 0 ==> ({
            let heard = exists|i: int|
                0 <= i < t.text@.len() && !text::is_white_space(#[trigger] t.text@[i]);
            &&& res@.len() == (if heard {
                1nat
            } else {
                0nat
            })
            &&& heard ==> res@[0].text@ == text::stripped(t.text@) && res@[0].start_ms == offset_ms
            &&& heard ==> (t.duration_ms matches Some(ms) ==> res@[0].end_ms - res@[0].start_ms
                == ms)
            &&& heard && t.duration_ms is None ==> res@[0].end_ms - res@[0].start_ms == samples as int
                / 16
        }),
        t.segments is Some && t.segments->0@.len() > 0 ==> whisper::segment_views(res@)
            == whisper::labelled(t.segments->0@, offset_ms as int, speaker@),
        t.segments is Some && (exists|i: int|
            0 <= i < t.segments->0@.len() && whisper::has_text(#[trigger] t.segments->0@[i]))
            ==> res@.len() > 0,
{
    let v = whisper::segment_views(res@);
    assert(v.len() == res@.len());
    assert forall|i: int| 0 <= i < res@.len() implies v[i] == (#[trigger] res@[i])@ by {}
    text::law_substance(t.text@);
    text::law_stripped(t.text@);
    let raw = reported(*t);
    let none = Seq::<RawSegment>::empty();
    whisper::law_labelled(raw, none, offset_ms as int, speaker@);
    if raw.len() > 0 {
        assert forall|i: int| 0 <= i < res@.len() implies (#[trigger] res@[i]).speaker@ == speaker@
            && whisper::is_said(res@[i].text@) by {
            assert(v[i] == res@[i]@);
            let x = whisper::labelled(raw, offset_ms as int, speaker@)[i];
            assert(x.speaker == speaker@);
        }
        if exists|i: int| 0 <= i < raw.len() && whisper::has_text(#[trigger] raw[i]) {
            let i = choose|i: int| 0 <= i < raw.len() && whisper::has_text(#[trigger] raw[i]);
            lemma_text_is_labelled(raw, i, offset_ms as int, speaker@);
        }
    } else {
        assert forall|i: int| 0 <= i < res@.len() implies (#[trigger] res@[i]).speaker@ == speaker@
            && whisper::is_said(res@[i].text@) by {
            assert(v[i] == res@[i]@);
        }
        if res@.len() > 0 {
            assert(v[0] == res@[0]@);
        }
        assert(sample_ms(samples as int) == samples as int / 16);
    }
}

proof fn lemma_text_is_labelled(raw: Seq<RawSegment>, i: int, offset_ms: int, speaker: Seq<char>)
    requires
        0 <= i < raw.len(),
        whisper::has_text(raw[i]),
    ensures
        whisper::labelled(raw, offset_ms, speaker).len() > 0,
    decreases raw.len(),
{
    if i < raw.len() - 1 {
        lemma_text_is_labelled(raw.drop_last(), i, offset_ms, speaker);
    }
}

/// An answer of the service is taken exactly where it is a success that could be parsed; else the error
/// tells what the service said.
pub proof fn law_answer_of_response(
    success: bool,
    status: &str,
    body: &str,
    parsed: Option<Transcription>,
    res: Result<Transcription, String>,
)
    requires
        call_ensures(answer_of_response, (success, status, body, parsed), res),
    ensures
        res is Ok <==> success && parsed is Some,
        res matches Ok(t) ==> parsed == Some(t),
        !success ==> text::occurs(res->Err_0@, status@) && text::occurs(res->Err_0@, body@),
{
    if !success {
        let none = Seq::<char>::empty();
        let head = "OpenAI transcription API fejl "@;
        let e = res->Err_0@;
        assert(e =~= head + status@ + (": "@ + body@));
        text::law_occurs_between(head, status@, ": "@ + body@);
        assert(e =~= (head + status@ + ": "@) + body@ + none);
        text::law_occurs_between(head + status@ + ": "@, body@, none);
    }
}

/// A short answer, of a part that starts within the first years of a recording, always has its times in
/// range.
pub proof fn law_times_in_range(t: &Transcription, samples: usize, offset_ms: i64, res: bool)
    requires
        call_ensures(times_in_range, (t, samples, offset_ms), res),
        0 <= offset_ms <= 0x3fff_ffff_ffff_ffff,
        samples <= CHUNK_SAMPLES,
        t.duration_ms matches Some(ms) ==> 0 <= ms <= 0x3fff_ffff_ffff_ffff,
        t.segments matches Some(v) ==> forall|i: int|
            0 <= i < v@.len() ==> 0 <= (#[trigger] v@[i]).start_ms <= 0x3fff_ffff_ffff_ffff && 0
                <= v@[i].end_ms <= 0x3fff_ffff_ffff_ffff,
    ensures
        res,
{
}

/// The audio of a speaker is uploaded under a name that holds the speaker's, in lowercase, and says that it
/// is a WAV file.
pub proof fn law_upload_name(speaker: &str, res: String)
    requires
        call_ensures(upload_name, (speaker,), res),
        text::is_lower_text(speaker@),
    ensures
        res@ == speaker@ + ".wav"@,
{
    assert forall|i: int| 0 <= i < speaker@.len() implies text::is_common(
        #[trigger] speaker@[i],
    ) by {}
    text::lemma_lower_text(speaker@);
}

} // verus!
