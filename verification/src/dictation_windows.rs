//! Dictation on Windows, where the keys are Ctrl and the space bar.

use vstd::prelude::*;
use vstd::string::*;

use crate::dictation;
use crate::dictation::{find_command, outcome_of, spoken_text, KeyReaction, MicAction, Outcome};
use crate::text;
use crate::transcription::cleaner;
use crate::transcription::cleaner::clean;
use crate::transcription::whisper::TimedSegment;
use crate::tray::TrayState;

verus! {

// ── Ctrl and the space bar ─────────────────────────────────────────────

pub const WM_KEYDOWN: u32 = 0x0100;

pub const WM_KEYUP: u32 = 0x0101;

pub const WM_SYSKEYDOWN: u32 = 0x0104;

pub const WM_SYSKEYUP: u32 = 0x0105;

pub const VK_SPACE: u32 = 0x20;

/// A keyboard event that the system tells of.
#[derive(Debug, Clone, Copy)]
pub struct KeyEvent {
    /// Whether the event is one to act on.
    pub code: i32,
    pub message: u32,
    pub vk_code: u32,
    /// Whether Ctrl is held.
    pub ctrl_down: bool,
}

impl KeyEvent {
    /// A key goes down.
    pub open spec fn is_down(self) -> bool {
        self.message == WM_KEYDOWN || self.message == WM_SYSKEYDOWN
    }

    /// A key goes up.
    pub open spec fn is_up(self) -> bool {
        self.message == WM_KEYUP || self.message == WM_SYSKEYUP
    }

    /// Whether the event is for dictation: the space bar goes down while Ctrl is held, or up after
    /// that, whether Ctrl is still held or not.
    pub open spec fn is_hotkey(self, active: bool) -> bool {
        self.code >= 0 && self.vk_code == VK_SPACE && (self.is_down() && self.ctrl_down
            || self.is_up() && active)
    }
}

/// Whether the keys are down after an event, given whether they were before.
pub open spec fn hotkey_down_after(was_down: bool, event: KeyEvent) -> bool {
    if event.is_hotkey(was_down) {
        event.is_down()
    } else {
        was_down
    }
}

/// Watches Ctrl and the space bar.
pub struct HotKey {
    pub down: bool,
}

impl HotKey {
    /// The keys before the first event.
    pub fn new() -> (res: HotKey)
        ensures
            !res.down,
    {
        HotKey { down: false }
    }

    /// Takes in an event. Events that are for dictation are kept from the other applications.
    pub fn event(&mut self, event: KeyEvent) -> (res: KeyReaction)
        ensures
            final(self).down == hotkey_down_after(old(self).down, event),
            res.change == dictation::change(old(self).down, final(self).down),
            res.suppress == event.is_hotkey(old(self).down),
    {
        let is_down = event.message == WM_KEYDOWN || event.message == WM_SYSKEYDOWN;
        let is_up = event.message == WM_KEYUP || event.message == WM_SYSKEYUP;
        if event.code >= 0 && event.vk_code == VK_SPACE && ((is_down && event.ctrl_down) || (is_up
            && self.down)) {
            let was_down = self.down;
            self.down = is_down;
            let change = if was_down != is_down {
                Some(is_down)
            } else {
                None
            };
            KeyReaction { change, suppress: true }
        } else {
            KeyReaction { change: None, suppress: false }
        }
    }
}

/// An event that the keys take no part in leaves the other applications undisturbed, and what is kept
/// from them is the space bar alone.
pub proof fn law_only_space_is_suppressed(active: bool, event: KeyEvent)
    ensures
        event.is_hotkey(active) ==> event.vk_code == VK_SPACE,
        !event.ctrl_down && !active ==> !event.is_hotkey(active),
        !event.is_hotkey(active) ==> hotkey_down_after(active, event) == active,
{
}

// ── Recording while the keys are held ──────────────────────────────────

/// What is shown while something is dictated.
#[derive(Debug, Clone, Copy, PartialEq, Eq, Structural)]
pub struct Display {
    /// Where it is told whether something is recorded: whether it is.
    pub recording: Option<bool>,
    /// The icon.
    pub icon: TrayState,
}

/// What is shown when the keys go down or up.
pub fn display_on_key(down: bool) -> (res: Display)
    ensures
        res == (if down {
            Display { recording: Some(true), icon: TrayState::Recording }
        } else {
            Display { recording: Some(false), icon: TrayState::Thinking }
        }),
{
    if down {
        Display { recording: Some(true), icon: TrayState::Recording }
    } else {
        Display { recording: Some(false), icon: TrayState::Thinking }
    }
}

/// What is shown when the microphone was to start.
pub fn display_on_start(started: bool) -> (res: Option<Display>)
    ensures
        res == (if started {
            None
        } else {
            Some(Display { recording: Some(false), icon: TrayState::Normal })
        }),
{
    if started {
        None
    } else {
        Some(Display { recording: Some(false), icon: TrayState::Normal })
    }
}

/// What is shown when the keys went up, given what the microphone did and how many samples it
/// recorded: the icon goes back to normal where there is nothing to transcribe.
pub fn display_on_stop(mic: MicAction, samples: usize) -> (res: Option<Display>)
    ensures
        res == (if mic == MicAction::Nothing || mic == MicAction::Stop && samples == 0 {
            Some(Display { recording: None, icon: TrayState::Normal })
        } else {
            None
        }),
{
    if mic == MicAction::Nothing || (mic == MicAction::Stop && samples == 0) {
        Some(Display { recording: None, icon: TrayState::Normal })
    } else {
        None
    }
}

// ── Commands ───────────────────────────────────────────────────────────

/// The phrases with which a command to the assistant starts.
pub open spec fn command_triggers() -> Seq<Seq<char>> {
    seq!["anna"@]
}

/// The command to the assistant in a text, where the text starts with the trigger.
pub fn extract_anna_command(s: &str) -> (res: Option<String>)
    ensures
        text::opt(res) == dictation::command_after(s@, command_triggers()),
{
    let triggers: [&str; 1] = ["anna"];
    assert(text::views(triggers@) =~= command_triggers());
    find_command(s, triggers.as_slice())
}

/// Whether a dictation comes to an outcome: of segments that were transcribed, the command in what was
/// said, once that is cleaned, or else the whole of it.
pub open spec fn comes_to(segments: Seq<TimedSegment>, outcome: Outcome) -> bool {
    let spoken = cleaner::cleaned(text::join(dictation::segment_texts(segments), seq![' ']));
    if segments.len() == 0 {
        outcome is Silence
    } else {
        match dictation::command_after(spoken, command_triggers()) {
            Some(command) => outcome matches Outcome::Command(c) && c@ == command,
            None => outcome matches Outcome::Insert(t) && t@ == spoken,
        }
    }
}

/// What a dictation comes to.
pub fn dictation_outcome(segments: &[TimedSegment]) -> (res: Outcome)
    ensures
        comes_to(segments@, res),
{
    if segments.len() == 0 {
        return Outcome::Silence;
    }
    let raw = spoken_text(segments);
    let cleaned = clean(raw.as_str());
    let command = extract_anna_command(cleaned.as_str());
    outcome_of(cleaned, command)
}

/// What is said after a call of the assistant, in whatever case the call is written, is the command,
/// without the separators between.
pub proof fn law_command_follows_call(call: Seq<char>, rest: Seq<char>)
    requires
        text::lowercase(call) == "anna"@,
        call.len() > 0 ==> text::is_common(call.last()),
    ensures
        dictation::command_after(call + rest, command_triggers()) == Some(
            text::trimmed_start(rest, text::CharClass::CommandSeparator),
        ),
{
    dictation::lemma_command_after(call, rest, command_triggers(), 0);
}

// ── Laws ───────────────────────────────────────────────────────────────

/// Whether a text starts with a call of the assistant, in whatever case.
pub open spec fn starts_with_call(s: Seq<char>) -> bool {
    text::occurs_at(text::lowercase(s), "anna"@, 0)
}

proof fn lemma_command_needs_call(s: Seq<char>)
    ensures
        dictation::command_after(s, command_triggers()) is Some <==> starts_with_call(s),
{
    text::lemma_leading_phrase(text::lowercase(s), command_triggers(), 0);
    assert(command_triggers()[0] == "anna"@);
}

/// No dictation is lost: it comes to silence only where nothing was transcribed, to a command exactly
/// where the clean sentence of what was said starts with a call of the assistant, and else to the whole
/// of that sentence.
pub proof fn law_dictation_is_not_lost(segments: &[TimedSegment], outcome: Outcome)
    requires
        call_ensures(dictation_outcome, (segments,), outcome),
    ensures
        comes_to(segments@, outcome),
        outcome is Silence <==> segments@.len() == 0,
        segments@.len() > 0 ==> ({
            let clean = cleaner::cleaned(text::join(dictation::segment_texts(segments@), " "@));
            &&& outcome is Command <==> starts_with_call(clean)
            &&& outcome is Insert <==> !starts_with_call(clean)
            &&& outcome matches Outcome::Insert(t) ==> t@ == clean
        }),
{
    reveal_strlit(" ");
    assert(" "@ =~= seq![' ']);
    lemma_command_needs_call(
        cleaner::cleaned(text::join(dictation::segment_texts(segments@), " "@)),
    );
}

/// A dictation of a single segment comes to the clean sentence of the segment's text, or to the command
/// in it.
pub proof fn law_single_segment(segments: Seq<TimedSegment>, outcome: Outcome)
    requires
        segments.len() == 1,
        comes_to(segments, outcome),
    ensures
        ({
            let clean = cleaner::cleaned(segments[0].text@);
            &&& !starts_with_call(clean) ==> (outcome matches Outcome::Insert(t) && t@ == clean)
            &&& starts_with_call(clean) ==> outcome is Command
        }),
{
    let texts = dictation::segment_texts(segments);
    assert(texts[0] == segments[0].text@);
    text::law_join(texts, texts, seq![' ']);
    lemma_command_needs_call(cleaner::cleaned(segments[0].text@));
}

/// A dictation whose clean sentence starts with a call, in whatever case, comes to the command that
/// follows it.
pub proof fn law_call_comes_to_its_command(
    segments: Seq<TimedSegment>,
    call: Seq<char>,
    rest: Seq<char>,
    outcome: Outcome,
)
    requires
        segments.len() > 0,
        cleaner::cleaned(text::join(dictation::segment_texts(segments), " "@)) == call + rest,
        text::lowercase(call) == "anna"@,
        text::is_common(call.last()),
        comes_to(segments, outcome),
    ensures
        outcome matches Outcome::Command(c) && dictation::is_command_in(c@, rest),
{
    reveal_strlit(" ");
    assert(" "@ =~= seq![' ']);
    law_command_follows_call(call, rest);
    dictation::lemma_command_in(rest);
}

/// The keys go down with the space bar while Ctrl is held, and up with the space bar, whether Ctrl is
/// still held or not; these events are kept from the other applications, and no others. A change is told
/// of once.
pub proof fn law_hotkey(key: &mut HotKey, event: KeyEvent, res: KeyReaction)
    requires
        call_ensures(HotKey::event, (key, event), res),
    ensures
        ({
            let pressed = event.code >= 0 && event.vk_code == 0x20 && (event.message == 0x100
                || event.message == 0x104) && event.ctrl_down;
            let released = event.code >= 0 && event.vk_code == 0x20 && (event.message == 0x101
                || event.message == 0x105);
            &&& pressed ==> final(key).down && res.suppress
            &&& released ==> !final(key).down && res.suppress == old(key).down
            &&& !pressed && !released ==> final(key).down == old(key).down && !res.suppress
            &&& res.change is Some <==> old(key).down != final(key).down
            &&& res.change matches Some(down) ==> down == final(key).down
        }),
{
}

/// The icon shows a recording while the keys are held, goes on to thinking when they are let go, and back
/// to normal where there is nothing to think about.
pub proof fn law_display(
    held: Display,
    released: Display,
    started: bool,
    on_start: Option<Display>,
    mic: MicAction,
    samples: usize,
    on_stop: Option<Display>,
)
    requires
        call_ensures(display_on_key, (true,), held),
        call_ensures(display_on_key, (false,), released),
        call_ensures(display_on_start, (started,), on_start),
        call_ensures(display_on_stop, (mic, samples), on_stop),
    ensures
        held.recording == Some(true) && held.icon == TrayState::Recording,
        released.recording == Some(false) && released.icon == TrayState::Thinking,
        on_start is Some <==> !started,
        on_start matches Some(d) ==> d.recording == Some(false) && d.icon == TrayState::Normal,
        mic == MicAction::Stop && samples > 0 ==> on_stop is None,
        mic == MicAction::Stop && samples == 0 ==> on_stop is Some,
        mic == MicAction::Nothing ==> on_stop is Some,
        on_stop matches Some(d) ==> d.recording is None && d.icon == TrayState::Normal,
{
}

} // verus!
