//! The course of a recording, from its start to its transcript.

use vstd::prelude::*;
use vstd::string::*;

use crate::settings;
use crate::settings::random_uuid;
use crate::text;
use crate::transcription::whisper;
use crate::transcription::whisper::{format_transcript, merge_segments, SegmentView, TimedSegment};

verus! {

// ── Start ──────────────────────────────────────────────────────────────

/// An identifier for a new recording.
pub fn new_recording_id() -> (res: String)
    ensures
        settings::is_random_uuid(res@),
{
    random_uuid()
}

/// How the capture of the system's sound fared.
pub enum SystemCapture {
    /// It could not be set up; the reason is given.
    NotCreated(String),
    /// It could not be started.
    NotStarted,
    /// It did not start in time.
    TimedOut,
    Running,
}

/// How many seconds the capture of the system's sound may take to start.
pub const SYSTEM_START_SECS: u64 = 5;

/// What the user is warned of: a recording goes on with the microphone alone where the system's sound
/// is not captured.
pub open spec fn warning(capture: SystemCapture) -> Option<Seq<char>> {
    match capture {
        SystemCapture::NotCreated(reason) => Some(
            "Systemlyd kunne ikke optages: "@ + reason@
                + ". Kun mikrofon optages. Giv 'Screen Recording'-tilladelse i Systemindstillinger for at optage begge sider."@,
        ),
        SystemCapture::NotStarted => Some("Systemlyd kunne ikke starte. Kun mikrofon optages."@),
        SystemCapture::TimedOut => Some(
            "Systemlyd-optagelse timed out. Kun mikrofon optages. Tjek Screen Recording-tilladelse."@,
        ),
        SystemCapture::Running => None,
    }
}

/// What the user is warned of.
pub fn recording_warning(capture: &SystemCapture) -> (res: Option<String>)
    ensures
        text::opt(res) == warning(*capture),
{
    match capture {
        SystemCapture::NotCreated(reason) => {
            let mut message = "Systemlyd kunne ikke optages: ".to_owned();
            message.append(reason.as_str());
            message.append(
                ". Kun mikrofon optages. Giv 'Screen Recording'-tilladelse i Systemindstillinger for at optage begge sider.",
            );
            Some(message)
        },
        SystemCapture::NotStarted => Some(
            "Systemlyd kunne ikke starte. Kun mikrofon optages.".to_owned(),
        ),
        SystemCapture::TimedOut => Some(
            "Systemlyd-optagelse timed out. Kun mikrofon optages. Tjek Screen Recording-tilladelse.".to_owned(),
        ),
        SystemCapture::Running => None,
    }
}

// ── Transcript ─────────────────────────────────────────────────────────

/// The label of what the microphone recorded.
pub const MIC_SPEAKER: &'static str = "Sælger";

/// The label of the system's sound.
pub const SYSTEM_SPEAKER: &'static str = "Lead";

/// Refuses to transcribe without a speech model.
pub fn transcribe_recording(model_downloaded: bool) -> (res: Result<(), String>)
    ensures
        match res {
            Ok(()) => model_downloaded,
            Err(e) => !model_downloaded && e@ == "Whisper-model er ikke downloadet endnu"@,
        },
{
    if model_downloaded {
        Ok(())
    } else {
        Err("Whisper-model er ikke downloadet endnu".to_owned())
    }
}

/// Whether the transcription of a recording that has ended is announced and made: without a speech model
/// nothing is told of it.
pub fn announces(model_downloaded: bool) -> (res: bool)
    ensures
        res == model_downloaded,
{
    model_downloaded
}

/// Which channels of a recording are transcribed: the microphone's where its file is there, and the
/// system's where the recording has one and its file is there.
pub fn channels_to_transcribe(mic_exists: bool, has_system: bool, system_exists: bool) -> (res: (
    bool,
    bool,
))
    ensures
        res.0 == mic_exists,
        res.1 == (has_system && system_exists),
{
    (mic_exists, has_system && system_exists)
}

/// What is told of a transcription.
pub enum TranscriptEvent {
    Complete(String),
    Failed,
}

/// What is told of a transcription that came to a text, or to none.
pub fn transcript_event(transcript: Option<String>) -> (res: TranscriptEvent)
    ensures
        match transcript {
            Some(t) => if t@.len() > 0 {
                res == TranscriptEvent::Complete(t)
            } else {
                res is Failed
            },
            None => res is Failed,
        },
{
    match transcript {
        Some(t) => if t.as_str().is_empty() {
            TranscriptEvent::Failed
        } else {
            TranscriptEvent::Complete(t)
        },
        None => TranscriptEvent::Failed,
    }
}

/// The segments of a channel, none where it could not be transcribed.
pub open spec fn channel(segments: Option<Vec<TimedSegment>>) -> Seq<SegmentView> {
    match segments {
        Some(v) => whisper::segment_views(v@),
        None => Seq::empty(),
    }
}

/// What is told of the transcription of a recording, from the segments of its channels: the speech
/// model could be loaded, or not, and a channel could be transcribed, or not.
pub fn auto_transcribe(
    model_loaded: bool,
    mic: Option<Vec<TimedSegment>>,
    system: Option<Vec<TimedSegment>>,
) -> (res: TranscriptEvent)
    ensures
        ({
            let text = whisper::transcript(whisper::by_start(channel(mic) + channel(system)));
            if model_loaded && text.len() > 0 {
                res matches TranscriptEvent::Complete(t) && t@ == text
            } else {
                res is Failed
            }
        }),
{
    if !model_loaded {
        return transcript_event(None);
    }
    let ghost both = channel(mic) + channel(system);
    let mic = match mic {
        Some(v) => v,
        None => Vec::new(),
    };
    let system = match system {
        Some(v) => v,
        None => Vec::new(),
    };
    assert(whisper::segment_views(mic@) + whisper::segment_views(system@) =~= both);
    let merged = merge_segments(mic, system);
    transcript_event(Some(format_transcript(merged.as_slice())))
}

// ── Laws ───────────────────────────────────────────────────────────────

/// A recording in which something was said comes to a transcript, which holds everything that was said
/// on either channel; one in which nothing was, or that no model could transcribe, to none.
pub proof fn law_everything_said_is_transcribed(
    model_loaded: bool,
    mic: Option<Vec<TimedSegment>>,
    system: Option<Vec<TimedSegment>>,
    res: TranscriptEvent,
)
    requires
        call_ensures(auto_transcribe, (model_loaded, mic, system), res),
    ensures
        !model_loaded ==> res is Failed,
        channel(mic).len() == 0 && channel(system).len() == 0 ==> res is Failed,
        res matches TranscriptEvent::Complete(t) ==> t@.len() > 0 && t@ == whisper::transcript(
            whisper::by_start(channel(mic) + channel(system)),
        ),
        forall|i: int|
            model_loaded && mic is Some && 0 <= i < mic->0@.len() && whisper::is_said(
                (#[trigger] mic->0@[i]).text@,
            ) ==> (res matches TranscriptEvent::Complete(t) && text::occurs(
                t@,
                mic->0@[i].text@,
            )),
        forall|i: int|
            model_loaded && system is Some && 0 <= i < system->0@.len() && whisper::is_said(
                (#[trigger] system->0@[i]).text@,
            ) ==> (res matches TranscriptEvent::Complete(t) && text::occurs(
                t@,
                system->0@[i].text@,
            )),
{
    let a = channel(mic);
    let b = channel(system);
    let whole = whisper::transcript(whisper::by_start(a + b));
    if a.len() == 0 && b.len() == 0 {
        assert(a + b =~= Seq::empty());
        let none = Seq::<SegmentView>::empty();
        assert(whisper::transcript_lines(none) =~= Seq::empty());
        assert(whole =~= Seq::empty());
    }
    assert forall|i: int|
        model_loaded && mic is Some && 0 <= i < mic->0@.len() && whisper::is_said(
            (#[trigger] mic->0@[i]).text@,
        ) implies (res matches TranscriptEvent::Complete(t) && text::occurs(
        t@,
        mic->0@[i].text@,
    )) by {
        assert(a[i] == mic->0@[i]@);
        whisper::law_merged_transcript_holds_every_text(a, b, a[i]);
    }
    assert forall|i: int|
        model_loaded && system is Some && 0 <= i < system->0@.len() && whisper::is_said(
            (#[trigger] system->0@[i]).text@,
        ) implies (res matches TranscriptEvent::Complete(t) && text::occurs(
        t@,
        system->0@[i].text@,
    )) by {
        assert(b[i] == system->0@[i]@);
        whisper::law_merged_transcript_holds_every_text(a, b, b[i]);
    }
}

/// The user is warned exactly where the system's sound is not captured, and told that the microphone
/// alone is recorded, and why where a reason is known.
pub proof fn law_warning(capture: &SystemCapture, res: Option<String>)
    requires
        call_ensures(recording_warning, (capture,), res),
    ensures
        res is None <==> *capture is Running,
        res matches Some(w) ==> text::occurs(w@, "Kun mikrofon optages."@),
        *capture matches SystemCapture::NotCreated(reason) ==> text::occurs(res->0@, reason@),
{
    reveal_strlit("Kun mikrofon optages.");
    let said = "Kun mikrofon optages."@;
    match *capture {
        SystemCapture::NotCreated(reason) => {
            reveal_strlit("Systemlyd kunne ikke optages: ");
            reveal_strlit(
                ". Kun mikrofon optages. Giv 'Screen Recording'-tilladelse i Systemindstillinger for at optage begge sider.",
            );
            let head = "Systemlyd kunne ikke optages: "@;
            let tail =
                ". Kun mikrofon optages. Giv 'Screen Recording'-tilladelse i Systemindstillinger for at optage begge sider."@;
            text::law_occurs_between(head, reason@, tail);
            assert(tail.subrange(2, 2int + said.len()) =~= said);
            assert(text::occurs_at(tail, said, 2));
            let e = Seq::<char>::empty();
            assert(head + reason@ + tail =~= (head + reason@) + tail + e);
            text::law_occurs_between(head + reason@, tail, e);
            text::law_occurs_within(head + reason@ + tail, tail, said);
        },
        SystemCapture::NotStarted => {
            reveal_strlit("Systemlyd kunne ikke starte. Kun mikrofon optages.");
            let w = "Systemlyd kunne ikke starte. Kun mikrofon optages."@;
            assert(w.subrange(29, 29int + said.len()) =~= said);
            assert(text::occurs_at(w, said, 29));
        },
        SystemCapture::TimedOut => {
            reveal_strlit(
                "Systemlyd-optagelse timed out. Kun mikrofon optages. Tjek Screen Recording-tilladelse.",
            );
            let w =
                "Systemlyd-optagelse timed out. Kun mikrofon optages. Tjek Screen Recording-tilladelse."@;
            assert(w.subrange(31, 31int + said.len()) =~= said);
            assert(text::occurs_at(w, said, 31));
        },
        SystemCapture::Running => {},
    }
}

/// A transcription that came to a text is told of with it, and one that came to none as failed.
pub proof fn law_transcript_event(transcript: Option<String>, res: TranscriptEvent)
    requires
        call_ensures(transcript_event, (transcript,), res),
    ensures
        res is Complete <==> transcript is Some && transcript->0@.len() > 0,
        res matches TranscriptEvent::Complete(t) ==> transcript == Some(t),
{
}

/// A transcription that is asked for is refused exactly where one that was not asked for is not announced.
pub proof fn law_no_model_no_transcription(
    model_downloaded: bool,
    asked: Result<(), String>,
    announced: bool,
)
    requires
        call_ensures(transcribe_recording, (model_downloaded,), asked),
        call_ensures(announces, (model_downloaded,), announced),
    ensures
        asked is Ok <==> announced,
        announced <==> model_downloaded,
{
}

/// A channel is transcribed exactly where there is something to read of it.
pub proof fn law_channels(mic_exists: bool, has_system: bool, system_exists: bool, res: (bool, bool))
    requires
        call_ensures(channels_to_transcribe, (mic_exists, has_system, system_exists), res),
    ensures
        res.0 <==> mic_exists,
        !res.1 <==> !has_system || !system_exists,
{
}

} // verus!
