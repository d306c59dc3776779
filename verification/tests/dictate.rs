use call_recorder::dictation;
use call_recorder::dictation::{
    preloads_model, route, spoken_text, transcribes, Coordinator, FnKey, KeyReaction, MicAction, Outcome, Route,
    MISSING_KEY, SPEAKER,
};
use call_recorder::dictation_windows;
use call_recorder::dictation_windows::{
    display_on_key, display_on_start, display_on_stop, Display, HotKey, KeyEvent,
};
use call_recorder::settings::TranscriptionProvider;
use call_recorder::transcription::whisper::TimedSegment;
use call_recorder::tray::TrayState;

fn said(texts: &[&str]) -> Vec<TimedSegment> {
    texts
        .iter()
        .map(|t| TimedSegment {
            start_ms: 0,
            end_ms: 0,
            text: t.to_string(),
            speaker: SPEAKER.to_string(),
        })
        .collect()
}

#[test]
fn fn_key_is_told_of_when_it_changes() {
    let mut key = FnKey::new();
    let nothing = KeyReaction { change: None, suppress: false };
    assert_eq!(key.event(10, 0x0080_0000), nothing);
    assert_eq!(key.event(12, 0x0010_0000), nothing);
    assert_eq!(key.event(12, 0x0090_0000), KeyReaction { change: Some(true), suppress: true });
    assert_eq!(key.event(12, 0x0080_0000), nothing);
    assert_eq!(key.event(12, 0), KeyReaction { change: Some(false), suppress: false });
}

fn key_event(message: u32, vk_code: u32, ctrl_down: bool) -> KeyEvent {
    KeyEvent { code: 0, message, vk_code, ctrl_down }
}

#[test]
fn hotkey_is_told_of_when_it_changes() {
    let mut key = HotKey::new();
    let nothing = KeyReaction { change: None, suppress: false };
    assert_eq!(key.event(key_event(0x0100, 0x20, false)), nothing);
    assert_eq!(key.event(key_event(0x0101, 0x20, true)), nothing);
    assert_eq!(key.event(key_event(0x0100, 0x41, true)), nothing);
    let ignored = KeyEvent { code: -1, message: 0x0100, vk_code: 0x20, ctrl_down: true };
    assert_eq!(key.event(ignored), nothing);
    assert_eq!(
        key.event(key_event(0x0100, 0x20, true)),
        KeyReaction { change: Some(true), suppress: true }
    );
    assert_eq!(
        key.event(key_event(0x0104, 0x20, true)),
        KeyReaction { change: None, suppress: true }
    );
    assert_eq!(
        key.event(key_event(0x0101, 0x20, false)),
        KeyReaction { change: Some(false), suppress: true }
    );
    assert_eq!(
        key.event(key_event(0x0104, 0x20, true)),
        KeyReaction { change: Some(true), suppress: true }
    );
    assert_eq!(
        key.event(key_event(0x0105, 0x20, true)),
        KeyReaction { change: Some(false), suppress: true }
    );
}

#[test]
fn microphone_runs_while_the_key_is_held() {
    let mut coordinator = Coordinator::new();
    assert_eq!(coordinator.key(false), MicAction::Nothing);
    assert_eq!(coordinator.key(true), MicAction::Start);
    coordinator.mic_started(false);
    assert_eq!(coordinator.key(false), MicAction::Nothing);
    assert_eq!(coordinator.key(true), MicAction::Start);
    coordinator.mic_started(true);
    assert_eq!(coordinator.key(false), MicAction::Stop);
    assert_eq!(coordinator.key(false), MicAction::Nothing);
    assert!(transcribes(1));
    assert!(!transcribes(0));
}

#[test]
fn windows_shows_what_happens() {
    assert_eq!(
        display_on_key(true),
        Display { recording: Some(true), icon: TrayState::Recording }
    );
    assert_eq!(
        display_on_key(false),
        Display { recording: Some(false), icon: TrayState::Thinking }
    );
    assert_eq!(display_on_start(true), None);
    assert_eq!(
        display_on_start(false),
        Some(Display { recording: Some(false), icon: TrayState::Normal })
    );
    let normal = Some(Display { recording: None, icon: TrayState::Normal });
    assert_eq!(display_on_stop(MicAction::Nothing, 0), normal);
    assert_eq!(display_on_stop(MicAction::Stop, 0), normal);
    assert_eq!(display_on_stop(MicAction::Stop, 1), None);
}

#[test]
fn transcription_is_routed() {
    let local = TranscriptionProvider::Local;
    let openai = TranscriptionProvider::Openai;
    assert!(matches!(route(local, true, false, None), Route::Model));
    assert!(matches!(route(local, false, true, None), Route::LoadModel));
    assert!(matches!(route(local, false, false, Some("k")), Route::NoModel));
    assert!(matches!(route(openai, true, true, Some(" k ")), Route::Service(k) if k == "k"));
    assert!(matches!(route(openai, true, true, Some(" ")), Route::NoKey));
    assert!(matches!(route(openai, true, true, None), Route::NoKey));
    assert_eq!(MISSING_KEY, "OpenAI-transskription kræver en API-nøgle i indstillinger.");
    assert!(preloads_model(local, true));
    assert!(!preloads_model(local, false));
    assert!(!preloads_model(openai, true));
}

#[test]
fn commands_start_with_a_trigger() {
    assert_eq!(dictation::extract_anna_command("Hej Anna, skriv").as_deref(), Some("skriv"));
    assert_eq!(dictation::extract_anna_command("HEY, ANNA.\n skriv.").as_deref(), Some("skriv."));
    assert_eq!(dictation::extract_anna_command("hej anna").as_deref(), Some(""));
    assert_eq!(dictation::extract_anna_command("skriv hej anna"), None);
    assert_eq!(dictation_windows::extract_anna_command("Anna, skriv").as_deref(), Some("skriv"));
    assert_eq!(dictation_windows::extract_anna_command("Hey Anna, skriv"), None);
    assert_eq!(dictation_windows::extract_anna_command("ANNA İ").as_deref(), Some("İ"));
}

#[test]
fn dictation_is_inserted_or_asked() {
    assert_eq!(spoken_text(&said(&["en", "to"])), "en to");
    assert!(matches!(dictation::dictation_outcome(&[]), Outcome::Silence));
    match dictation::dictation_outcome(&said(&["øh en", "to"])) {
        Outcome::Insert(t) => assert_eq!(t, "øh en to"),
        _ => panic!(),
    }
    match dictation::dictation_outcome(&said(&["Hej Anna", "skriv en mail"])) {
        Outcome::Command(c) => assert_eq!(c, "skriv en mail"),
        _ => panic!(),
    }
}

#[test]
fn dictation_on_windows_is_cleaned_first() {
    assert!(matches!(dictation_windows::dictation_outcome(&[]), Outcome::Silence));
    match dictation_windows::dictation_outcome(&said(&["øh en", "to"])) {
        Outcome::Insert(t) => assert_eq!(t, "En to."),
        _ => panic!(),
    }
    match dictation_windows::dictation_outcome(&said(&["øh anna", "vis skærmen"])) {
        Outcome::Command(c) => assert_eq!(c, "se på skærmen."),
        _ => panic!(),
    }
    match dictation_windows::dictation_outcome(&said(&["İİİİ hov nej", "ab"])) {
        Outcome::Insert(t) => assert_eq!(t, "Ab."),
        _ => panic!(),
    }
}
