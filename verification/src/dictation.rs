//! Dictation: what is spoken while a key is held is written into the application in front, or is a
//! command to the assistant. On macOS the key is Fn.

use vstd::prelude::*;
use vstd::slice::*;
use vstd::string::*;

use crate::settings::TranscriptionProvider;
use crate::text;
use crate::text::{
    chars_of, find_leading_phrase, index_after_lower, join_texts, lower, non_blank, text_of,
    trim_start, CharClass,
};
use crate::transcription::whisper::TimedSegment;

verus! {

// ── The Fn key ─────────────────────────────────────────────────────────

/// The type of an event that tells of modifier keys.
pub const EVENT_FLAGS_CHANGED: u32 = 12;

/// The flag of an event during which the Fn key is held.
pub const EVENT_FLAG_FN: u64 = 0x0080_0000;

/// What follows from a keyboard event.
#[derive(Debug, Clone, Copy, PartialEq, Eq, Structural)]
pub struct KeyReaction {
    /// Where the key that is held for dictation went down or up: whether it is down now.
    pub change: Option<bool>,
    /// Whether the event is kept from the other applications.
    pub suppress: bool,
}

/// The change that is told of where a key was down, or not, and now is, or not.
pub open spec fn change(was_down: bool, down: bool) -> Option<bool> {
    if was_down != down {
        Some(down)
    } else {
        None
    }
}

/// Watches the Fn key.
pub struct FnKey {
    pub down: bool,
}

/// Whether the Fn key is down after an event, given whether it was before.
pub open spec fn fn_down_after(was_down: bool, event_type: u32, flags: u64) -> bool {
    if event_type == EVENT_FLAGS_CHANGED {
        flags & EVENT_FLAG_FN != 0
    } else {
        was_down
    }
}

impl FnKey {
    /// The key before the first event.
    pub fn new() -> (res: FnKey)
        ensures
            !res.down,
    {
        FnKey { down: false }
    }

    /// Takes in an event. The event with which the key goes down is suppressed, so that the system
    /// does not act on it.
    pub fn event(&mut self, event_type: u32, flags: u64) -> (res: KeyReaction)
        ensures
            final(self).down == fn_down_after(old(self).down, event_type, flags),
            res.change == change(old(self).down, final(self).down),
            res.suppress == (final(self).down && !old(self).down),
    {
        if event_type != EVENT_FLAGS_CHANGED {
            return KeyReaction { change: None, suppress: false };
        }
        let fn_down = (flags & EVENT_FLAG_FN) != 0;
        let was_down = self.down;
        self.down = fn_down;
        if fn_down == was_down {
            return KeyReaction { change: None, suppress: false };
        }
        KeyReaction { change: Some(fn_down), suppress: fn_down }
    }
}

/// The changes that are told of while a key goes through some states, from the state `down` on.
pub open spec fn changes(down: bool, states: Seq<bool>) -> Seq<bool>
    decreases states.len(),
{
    if states.len() == 0 {
        Seq::empty()
    } else {
        let rest = changes(states[0], states.drop_first());
        match change(down, states[0]) {
            Some(c) => seq![c] + rest,
            None => rest,
        }
    }
}

/// The change that is told of at the `i`th time, from the state `down` on, if changes come in turns.
pub open spec fn turn(down: bool, i: int) -> bool {
    if i % 2 == 0 {
        !down
    } else {
        down
    }
}

/// However the key is pressed, what is told of it is told in turns: it goes down, up, down, and so
/// on.
pub proof fn law_changes_come_in_turns(down: bool, states: Seq<bool>)
    ensures
        forall|i: int|
            0 <= i < changes(down, states).len() ==> #[trigger] changes(down, states)[i] == turn(
                down,
                i,
            ),
    decreases states.len(),
{
    if states.len() > 0 {
        let rest = changes(states[0], states.drop_first());
        law_changes_come_in_turns(states[0], states.drop_first());
        assert forall|i: int| 0 <= i < changes(down, states).len() implies #[trigger] changes(
            down,
            states,
        )[i] == turn(down, i) by {
            if states[0] == down {
                assert(rest[i] == turn(down, i));
            } else if i > 0 {
                assert(rest[i - 1] == turn(states[0], i - 1));
                assert(changes(down, states)[i] == rest[i - 1]);
            }
        }
    }
}

// ── Recording while the key is held ────────────────────────────────────

/// What the microphone is to do.
#[derive(Debug, Clone, Copy, PartialEq, Eq, Structural)]
pub enum MicAction {
    Start,
    /// Stop, and hand out what was recorded.
    Stop,
    Nothing,
}

/// Records while the key is held.
pub struct Coordinator {
    /// Whether the microphone runs.
    pub recording: bool,
}

impl Coordinator {
    /// Nothing is recorded at the start.
    pub fn new() -> (res: Coordinator)
        ensures
            !res.recording,
    {
        Coordinator { recording: false }
    }

    /// The key went down or up. When it goes up, the microphone no longer runs.
    pub fn key(&mut self, down: bool) -> (res: MicAction)
        ensures
            res == (if down {
                MicAction::Start
            } else if old(self).recording {
                MicAction::Stop
            } else {
                MicAction::Nothing
            }),
            final(self).recording == (down && old(self).recording),
    {
        if down {
            MicAction::Start
        } else if self.recording {
            self.recording = false;
            MicAction::Stop
        } else {
            MicAction::Nothing
        }
    }

    /// The microphone started, or did not. One that was running before runs on where the new one did
    /// not start.
    pub fn mic_started(&mut self, started: bool)
        ensures
            final(self).recording == (started || old(self).recording),
    {
        if started {
            self.recording = true;
        }
    }
}

/// Whether what was recorded is transcribed, by the number of its samples.
pub fn transcribes(samples: usize) -> (res: bool)
    ensures
        res == (samples > 0),
{
    samples > 0
}

// ── Transcription ──────────────────────────────────────────────────────

/// The label of what is dictated.
pub const SPEAKER: &'static str = "Diktation";

/// What is shown where the transcription needs a key and there is none.
pub const MISSING_KEY: &'static str = "OpenAI-transskription kræver en API-nøgle i indstillinger.";

/// Who transcribes what was dictated.
pub enum Route {
    /// The speech model, which is loaded.
    Model,
    /// The speech model, which has to be loaded first.
    LoadModel,
    /// The speech model is missing.
    NoModel,
    /// The service, with this key.
    Service(String),
    /// There is no key for the service.
    NoKey,
}

/// Whether the speech model is loaded when the application starts.
pub fn preloads_model(provider: TranscriptionProvider, downloaded: bool) -> (res: bool)
    ensures
        res == (provider == TranscriptionProvider::Local && downloaded),
{
    provider == TranscriptionProvider::Local && downloaded
}

/// Who transcribes what was dictated.
pub fn route(
    provider: TranscriptionProvider,
    loaded: bool,
    downloaded: bool,
    api_key: Option<&str>,
) -> (res: Route)
    ensures
        match provider {
            TranscriptionProvider::Local => if loaded {
                res is Model
            } else if downloaded {
                res is LoadModel
            } else {
                res is NoModel
            },
            TranscriptionProvider::Openai => match text::substance(text::opt_str(api_key)) {
                Some(key) => res matches Route::Service(k) && k@ == key,
                None => res is NoKey,
            },
        },
{
    match provider {
        TranscriptionProvider::Local => if loaded {
            Route::Model
        } else if downloaded {
            Route::LoadModel
        } else {
            Route::NoModel
        },
        TranscriptionProvider::Openai => match non_blank(api_key) {
            Some(key) => Route::Service(key),
            None => Route::NoKey,
        },
    }
}

/// The texts of some segments.
pub open spec fn segment_texts(segments: Seq<TimedSegment>) -> Seq<Seq<char>> {
    segments.map_values(|s: TimedSegment| s.text@)
}

/// What was said: the texts of the segments with blanks between.
pub fn spoken_text(segments: &[TimedSegment]) -> (res: String)
    ensures
        res@ == text::join(segment_texts(segments@), seq![' ']),
{
    let mut parts: Vec<String> = Vec::new();
    let mut i: usize = 0;
    while i < segments.len()
        invariant
            i <= segments@.len(),
            parts@.len() == i,
            forall|j: int| 0 <= j < i ==> (#[trigger] parts@[j])@ == segments@[j].text@,
        decreases segments@.len() - i,
    {
        parts.push(segments[i].text.clone());
        i += 1;
    }
    proof {
        reveal_strlit(" ");
        assert(text::texts(parts@) =~= segment_texts(segments@));
        assert(" "@ =~= seq![' ']);
    }
    join_texts(&parts, " ")
}

// ── Commands ───────────────────────────────────────────────────────────

/// What follows one of `triggers` at the start of a text, without the separators before it, if the
/// text starts with one, whatever its case.
pub open spec fn command_after(s: Seq<char>, triggers: Seq<Seq<char>>) -> Option<Seq<char>> {
    match text::leading_phrase(text::lowercase(s), triggers, 0) {
        Some(j) => Some(
            text::trimmed_start(
                text::after_lower(s, triggers[j].len() as int),
                CharClass::CommandSeparator,
            ),
        ),
        None => None,
    }
}

/// What follows one of `triggers` at the start of a text.
pub fn find_command(s: &str, triggers: &[&str]) -> (res: Option<String>)
    ensures
        text::opt(res) == command_after(s@, text::views(triggers@)),
{
    let lowered = lower(s);
    match find_leading_phrase(lowered.as_str(), triggers) {
        Some(j) => {
            let trigger = chars_of(triggers[j]);
            assert(text::views(triggers@)[j as int] == trigger@);
            let chars = chars_of(s);
            let k = index_after_lower(chars.as_slice(), trigger.len());
            let rest = slice_subrange(chars.as_slice(), k, chars.len());
            assert(rest@ =~= s@.skip(k as int));
            Some(text_of(trim_start(rest, CharClass::CommandSeparator)))
        },
        None => None,
    }
}

/// A text that starts with a trigger, in whatever case, has for its command what follows the trigger.
pub proof fn lemma_command_after(
    call: Seq<char>,
    rest: Seq<char>,
    triggers: Seq<Seq<char>>,
    j: int,
)
    requires
        text::prefix_free(triggers),
        0 <= j < triggers.len(),
        text::lowercase(call) == triggers[j],
        call.len() > 0 ==> text::is_common(call.last()),
    ensures
        command_after(call + rest, triggers) == Some(
            text::trimmed_start(rest, CharClass::CommandSeparator),
        ),
{
    text::lemma_lowercase_concat(call, rest);
    let lowered = text::lowercase(call + rest);
    assert(lowered.subrange(0, triggers[j].len() as int) =~= triggers[j]);
    text::lemma_only_leading_phrase(lowered, triggers, j);
    text::lemma_after_lower_concat(call, rest);
}

/// The phrases with which a command to the assistant starts.
pub open spec fn command_triggers() -> Seq<Seq<char>> {
    seq!["hey anna"@, "hej anna"@, "hey, anna"@, "hej, anna"@]
}

/// The command to the assistant in a text, where the text starts with a trigger.
pub fn extract_anna_command(s: &str) -> (res: Option<String>)
    ensures
        text::opt(res) == command_after(s@, command_triggers()),
{
    let triggers: [&str; 4] = ["hey anna", "hej anna", "hey, anna", "hej, anna"];
    assert(text::views(triggers@) =~= command_triggers());
    find_command(s, triggers.as_slice())
}

/// What a dictation comes to.
pub enum Outcome {
    /// Nothing was said.
    Silence,
    /// A command to the assistant.
    Command(String),
    /// A text to insert.
    Insert(String),
}

/// The outcome of a text, given the command in it.
pub fn outcome_of(spoken: String, command: Option<String>) -> (res: Outcome)
    ensures
        match command {
            Some(c) => res == Outcome::Command(c),
            None => res == Outcome::Insert(spoken),
        },
{
    match command {
        Some(command) => Outcome::Command(command),
        None => Outcome::Insert(spoken),
    }
}

/// Whether a dictation comes to an outcome: of segments that were transcribed, the command in what was
/// said, or else the whole of it.
pub open spec fn comes_to(segments: Seq<TimedSegment>, outcome: Outcome) -> bool {
    let spoken = text::join(segment_texts(segments), seq![' ']);
    if segments.len() == 0 {
        outcome is Silence
    } else {
        match command_after(spoken, command_triggers()) {
            Some(command) => outcome matches Outcome::Command(c) && c@ == command,
            None => outcome matches Outcome::Insert(t) && t@ == spoken,
        }
    }
}

/// What a dictation comes to.
pub fn dictation_outcome(segments: &[TimedSegment]) -> (res: Outcome)
    ensures
        comes_to(segments@, res),
{
    if segments.len() == 0 {
        return Outcome::Silence;
    }
    let spoken = spoken_text(segments);
    let command = extract_anna_command(spoken.as_str());
    outcome_of(spoken, command)
}

/// What is said after a call of the assistant, in whatever case the call is written, is the command,
/// without the separators between.
pub proof fn law_command_follows_call(call: Seq<char>, rest: Seq<char>)
    requires
        command_triggers().contains(text::lowercase(call)),
        call.len() > 0 ==> text::is_common(call.last()),
    ensures
        command_after(call + rest, command_triggers()) == Some(
            text::trimmed_start(rest, CharClass::CommandSeparator),
        ),
{
    let triggers = command_triggers();
    reveal_strlit("hey anna");
    reveal_strlit("hej anna");
    reveal_strlit("hey, anna");
    reveal_strlit("hej, anna");
    assert forall|i: int, j: int|
        #![trigger triggers[i], triggers[j]]
        0 <= i < triggers.len() && 0 <= j < triggers.len() && i != j implies !text::occurs_at(
        triggers[i],
        triggers[j],
        0,
    ) by {
        if text::occurs_at(triggers[i], triggers[j], 0) {
            let head = triggers[i].subrange(0, triggers[j].len() as int);
            assert(head[2] == triggers[j][2]);
            assert(head[3] == triggers[j][3]);
        }
    }
    let j = choose|j: int| 0 <= j < triggers.len() && triggers[j] == text::lowercase(call);
    lemma_command_after(call, rest, triggers, j);
}

// ── Laws ───────────────────────────────────────────────────────────────

/// Whether a text is a call of the assistant, in whatever case.
pub open spec fn is_call(call: Seq<char>) -> bool {
    let lower = text::lowercase(call);
    &&& lower == "hey anna"@ || lower == "hej anna"@ || lower == "hey, anna"@ || lower
        == "hej, anna"@
    &&& text::is_common(call.last())
}

/// Whether a text starts with a call of the assistant, in whatever case.
pub open spec fn starts_with_call(s: Seq<char>) -> bool {
    let lower = text::lowercase(s);
    ||| text::occurs_at(lower, "hey anna"@, 0)
    ||| text::occurs_at(lower, "hej anna"@, 0)
    ||| text::occurs_at(lower, "hey, anna"@, 0)
    ||| text::occurs_at(lower, "hej, anna"@, 0)
}

/// Whether `command` is what a call and the separators after it leave of `rest`.
pub open spec fn is_command_in(command: Seq<char>, rest: Seq<char>) -> bool {
    let n = rest.len() - command.len();
    &&& n >= 0
    &&& command == rest.skip(n)
    &&& forall|i: int|
        0 <= i < n ==> #[trigger] rest[i] == ',' || rest[i] == '.' || rest[i] == ' ' || rest[i]
            == '\n'
    &&& command.len() > 0 ==> command[0] != ',' && command[0] != '.' && command[0] != ' '
        && command[0] != '\n'
}

/// A command is found exactly in a text that starts with a call.
proof fn lemma_command_needs_call(s: Seq<char>)
    ensures
        command_after(s, command_triggers()) is Some <==> starts_with_call(s),
{
    let lower = text::lowercase(s);
    let triggers = command_triggers();
    text::lemma_leading_phrase(lower, triggers, 0);
    assert(triggers[0] == "hey anna"@);
    assert(triggers[1] == "hej anna"@);
    assert(triggers[2] == "hey, anna"@);
    assert(triggers[3] == "hej, anna"@);
}

/// No dictation is lost: it comes to silence only where nothing was transcribed, to a command exactly
/// where what was said starts with a call of the assistant, and else to the whole of what was said.
pub proof fn law_dictation_is_not_lost(segments: &[TimedSegment], outcome: Outcome)
    requires
        call_ensures(dictation_outcome, (segments,), outcome),
    ensures
        comes_to(segments@, outcome),
        outcome is Silence <==> segments@.len() == 0,
        segments@.len() > 0 ==> (outcome is Command <==> starts_with_call(
            text::join(segment_texts(segments@), " "@),
        )),
        segments@.len() > 0 ==> (outcome is Insert <==> !starts_with_call(
            text::join(segment_texts(segments@), " "@),
        )),
        outcome matches Outcome::Insert(t) ==> t@ == text::join(segment_texts(segments@), " "@),
{
    reveal_strlit(" ");
    assert(" "@ =~= seq![' ']);
    lemma_command_needs_call(text::join(segment_texts(segments@), " "@));
}

/// A dictation of a single segment comes to the segment's own text, or to the command in it.
pub proof fn law_single_segment(segments: Seq<TimedSegment>, outcome: Outcome)
    requires
        segments.len() == 1,
        comes_to(segments, outcome),
    ensures
        !starts_with_call(segments[0].text@) ==> (outcome matches Outcome::Insert(t) && t@
            == segments[0].text@),
        starts_with_call(segments[0].text@) ==> outcome is Command,
{
    let texts = segment_texts(segments);
    assert(texts[0] == segments[0].text@);
    text::law_join(texts, texts, seq![' ']);
    lemma_command_needs_call(segments[0].text@);
}

/// What is inserted holds the text of every segment, and nothing but these texts with blanks between:
/// of two dictations, one after the other, it is what the first and the second have to say.
pub proof fn law_inserted_text_is_all_that_was_said(
    first: Seq<TimedSegment>,
    second: Seq<TimedSegment>,
    outcome: Outcome,
)
    requires
        comes_to(first + second, outcome),
        outcome is Insert,
    ensures
        forall|i: int|
            0 <= i < first.len() ==> text::occurs(outcome->Insert_0@, #[trigger] first[i].text@),
        forall|i: int|
            0 <= i < second.len() ==> text::occurs(outcome->Insert_0@, #[trigger] second[i].text@),
        forall|a: Outcome, b: Outcome|
            first.len() > 0 && second.len() > 0 && #[trigger] comes_to(first, a)
                && #[trigger] comes_to(second, b) && a is Insert && b is Insert
                ==> outcome->Insert_0@ == a->Insert_0@ + " "@ + b->Insert_0@,
{
    reveal_strlit(" ");
    assert(" "@ =~= seq![' ']);
    let sep = seq![' '];
    let all = segment_texts(first + second);
    assert(all =~= segment_texts(first) + segment_texts(second));
    assert forall|i: int| 0 <= i < first.len() implies text::occurs(
        outcome->Insert_0@,
        #[trigger] first[i].text@,
    ) by {
        assert(all[i] == first[i].text@);
        text::law_joined_parts_stand(all, sep, i);
    }
    assert forall|i: int| 0 <= i < second.len() implies text::occurs(
        outcome->Insert_0@,
        #[trigger] second[i].text@,
    ) by {
        assert(all[first.len() + i] == second[i].text@);
        text::law_joined_parts_stand(all, sep, first.len() + i);
    }
    text::law_join(segment_texts(first), segment_texts(second), sep);
}

/// A dictation that starts with a call, in whatever case the call is written and wherever the segments
/// part, comes to the command that follows it.
pub proof fn law_call_comes_to_its_command(
    segments: Seq<TimedSegment>,
    call: Seq<char>,
    rest: Seq<char>,
    outcome: Outcome,
)
    requires
        segments.len() > 0,
        text::join(segment_texts(segments), " "@) == call + rest,
        is_call(call),
        comes_to(segments, outcome),
    ensures
        outcome matches Outcome::Command(c) && is_command_in(c@, rest),
{
    reveal_strlit(" ");
    assert(" "@ =~= seq![' ']);
    let triggers = command_triggers();
    assert(triggers[0] == "hey anna"@);
    assert(triggers[1] == "hej anna"@);
    assert(triggers[2] == "hey, anna"@);
    assert(triggers[3] == "hej, anna"@);
    assert(triggers.contains(text::lowercase(call)));
    law_command_follows_call(call, rest);
    lemma_command_in(rest);
}

/// What the separators at the start of a text leave of it is the command in it.
pub proof fn lemma_command_in(rest: Seq<char>)
    ensures
        is_command_in(text::trimmed_start(rest, CharClass::CommandSeparator), rest),
{
    let class = CharClass::CommandSeparator;
    let command = text::trimmed_start(rest, class);
    text::lemma_trimmed_start(rest, class);
    assert forall|i: int| 0 <= i < rest.len() - command.len() implies #[trigger] rest[i] == ','
        || rest[i] == '.' || rest[i] == ' ' || rest[i] == '\n' by {
        assert(text::in_class(rest[i], class));
    }
}

/// A command is extracted exactly from a text that starts with a call, and is what follows the call.
pub proof fn law_command_is_extracted(s: &str, call: Seq<char>, rest: Seq<char>, res: Option<String>)
    requires
        call_ensures(extract_anna_command, (s,), res),
    ensures
        res is Some <==> starts_with_call(s@),
        s@ == call + rest && is_call(call) ==> is_command_in(res->0@, rest),
{
    lemma_command_needs_call(s@);
    if s@ == call + rest && is_call(call) {
        let triggers = command_triggers();
        assert(triggers[0] == "hey anna"@);
        assert(triggers[1] == "hej anna"@);
        assert(triggers[2] == "hey, anna"@);
        assert(triggers[3] == "hej, anna"@);
        assert(triggers.contains(text::lowercase(call)));
        law_command_follows_call(call, rest);
        lemma_command_in(rest);
    }
}

/// The Fn key is down exactly while the system's last word on the modifier keys says that it is held.
pub proof fn law_fn_key_follows_the_flag(was_down: bool, event_type: u32, flags: u64)
    ensures
        event_type == 12 ==> (fn_down_after(was_down, event_type, flags) <==> flags & 0x0080_0000u64
            == 0x0080_0000u64),
        event_type != 12 ==> fn_down_after(was_down, event_type, flags) == was_down,
{
    assert(flags & 0x0080_0000u64 != 0 <==> flags & 0x0080_0000u64 == 0x0080_0000u64)
        by (bit_vector);
}

/// Each change of the Fn key is told of once, and only the event with which it goes down is kept from
/// the other applications.
pub proof fn law_fn_key_event(key: &mut FnKey, event_type: u32, flags: u64, res: KeyReaction)
    requires
        call_ensures(FnKey::event, (key, event_type, flags), res),
    ensures
        event_type == 12 ==> final(key).down == (flags & 0x0080_0000u64 == 0x0080_0000u64),
        event_type != 12 ==> final(key).down == old(key).down,
        res.change is Some <==> old(key).down != final(key).down,
        res.change matches Some(down) ==> down == final(key).down,
        res.suppress <==> res.change == Some(true),
{
    law_fn_key_follows_the_flag(old(key).down, event_type, flags);
}

/// While the key is held the microphone runs: it is started when the key goes down and, where it
/// started, stopped when the key goes up, and not again before the next time.
pub proof fn law_held_key_records(
    before: &mut Coordinator,
    down: MicAction,
    started: bool,
    running: &mut Coordinator,
    held: &mut Coordinator,
    up: MicAction,
    after: &mut Coordinator,
    again: MicAction,
)
    requires
        call_ensures(Coordinator::key, (before, true), down),
        *old(running) == *final(before),
        call_ensures(Coordinator::mic_started, (running, started), ()),
        *old(held) == *final(running),
        call_ensures(Coordinator::key, (held, false), up),
        *old(after) == *final(held),
        call_ensures(Coordinator::key, (after, false), again),
    ensures
        down == MicAction::Start,
        started ==> up == MicAction::Stop,
        !started && !old(before).recording ==> up == MicAction::Nothing,
        !started && old(before).recording ==> up == MicAction::Stop,
        again == MicAction::Nothing,
        !final(held).recording && !final(after).recording,
{
}

/// Whoever transcribes, it is someone who can: the model only where it is there, and the service only
/// with a key that is more than white space.
pub proof fn law_route(
    provider: TranscriptionProvider,
    loaded: bool,
    downloaded: bool,
    api_key: Option<&str>,
    res: Route,
)
    requires
        call_ensures(route, (provider, loaded, downloaded, api_key), res),
    ensures
        res is Model || res is LoadModel || res is NoModel <==> provider
            == TranscriptionProvider::Local,
        provider == TranscriptionProvider::Local ==> (res is Model <==> loaded) && (res is NoModel
            <==> !loaded && !downloaded),
        provider == TranscriptionProvider::Openai ==> (res is Service <==> api_key is Some && exists|
            i: int,
        |
            0 <= i < api_key->0@.len() && !text::is_white_space(#[trigger] api_key->0@[i])),
        res matches Route::Service(k) ==> k@.len() > 0 && text::occurs(api_key->0@, k@)
            && !text::is_white_space(k@[0]) && !text::is_white_space(k@.last()),
{
    text::law_substance(match api_key {
        Some(k) => k@,
        None => Seq::empty(),
    });
}

/// What was recorded is transcribed exactly where anything was: where the microphone stops with a sample.
pub proof fn law_any_sample_is_transcribed(samples: usize, res: bool)
    requires
        call_ensures(transcribes, (samples,), res),
    ensures
        !res <==> samples == 0,
{
}

/// The speech model is loaded at the start exactly where a dictation would otherwise have to load it.
pub proof fn law_preloaded_model(
    provider: TranscriptionProvider,
    downloaded: bool,
    api_key: Option<&str>,
    preloads: bool,
    res: Route,
)
    requires
        call_ensures(preloads_model, (provider, downloaded), preloads),
        call_ensures(route, (provider, false, downloaded, api_key), res),
    ensures
        preloads <==> res is LoadModel,
{
}

} // verus!
