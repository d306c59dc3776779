use call_recorder::number::{parse_u32, to_decimal};
use call_recorder::paths::settings_path;
use call_recorder::recording::{
    announces, auto_transcribe, channels_to_transcribe, new_recording_id, recording_warning,
    transcribe_recording, transcript_event, SystemCapture, TranscriptEvent, MIC_SPEAKER, SYSTEM_SPEAKER,
};
use call_recorder::settings::{Settings, TranscriptionProvider};
use call_recorder::state::{AnnaStateData, AppState};
use call_recorder::transcription::whisper::TimedSegment;
use call_recorder::tray::{icon_file, menu_action, MenuAction, TrayState};

#[test]
fn recording_can_be_started_once() {
    let mut state = AppState::new("data".to_string());
    assert!(!state.is_recording());
    assert_eq!(state.check_idle(), Ok(()));
    assert_eq!(state.end_recording(), Err("Ingen aktiv optagelse".to_string()));
    state.begin_recording("x".to_string());
    assert!(state.is_recording());
    assert_eq!(state.check_idle(), Err("Optagelse er allerede i gang".to_string()));
    assert_eq!(state.end_recording(), Ok("x".to_string()));
    assert!(!state.is_recording());
}

#[test]
fn recording_has_an_identifier_of_its_own() {
    let id = new_recording_id();
    assert_eq!(uuid::Uuid::parse_str(&id).unwrap().get_version_num(), 4);
    assert_ne!(id, new_recording_id());
}

#[test]
fn directories_are_below_the_data_directory() {
    let state = AppState::new("data/".to_string());
    assert_eq!(state.recordings_dir(), "data/recordings");
    assert_eq!(state.models_dir(), "data/models");
    assert_eq!(settings_path("data/"), "data/settings.json");
    let verbatim = settings_path("\\\\?\\C:\\data");
    assert!(verbatim.starts_with("\\\\?\\") && verbatim.ends_with("settings.json"));
    let path = settings_path("data");
    assert_ne!(path, "datasettings.json");
    assert!(path.starts_with("data") && path.ends_with("settings.json"));
}

#[test]
fn panel_shows_what_it_is_given() {
    let mut state = AppState::new("data".to_string());
    state.begin_recording("x".to_string());
    state.set_anna_state(AnnaStateData::new("p", Some("r"), None, Some("b"), true));
    let shown = state.anna.as_ref().unwrap();
    assert_eq!(shown.prompt, "p");
    assert_eq!(shown.response.as_deref(), Some("r"));
    assert_eq!(shown.insert_text, None);
    assert_eq!(shown.target_bundle_id.as_deref(), Some("b"));
    assert!(shown.is_error);
    assert!(state.is_recording());
}

#[test]
fn settings_have_defaults() {
    let settings = Settings::load(None);
    assert_eq!(settings.transcription_provider, TranscriptionProvider::Local);
    assert_eq!(settings.installation_id, "");
    let read = Settings {
        transcription_provider: TranscriptionProvider::Openai,
        installation_id: "i".to_string(),
    };
    let loaded = Settings::load(Some(read));
    assert_eq!(loaded.installation_id, "i");
    assert_eq!(loaded.transcription_provider, TranscriptionProvider::Openai);
    assert_eq!(TranscriptionProvider::default(), TranscriptionProvider::Local);
}

#[test]
fn installation_gets_one_identifier() {
    let mut settings = Settings::load(None);
    assert!(settings.ensure_installation_id());
    let id = settings.installation_id.clone();
    assert_eq!(id.len(), 36);
    assert_eq!(uuid::Uuid::parse_str(&id).unwrap().get_version_num(), 4);
    assert_eq!(id, id.to_lowercase());
    assert!(!settings.ensure_installation_id());
    assert_eq!(settings.installation_id, id);
    let mut blank = Settings {
        transcription_provider: TranscriptionProvider::Local,
        installation_id: "  ".to_string(),
    };
    assert!(blank.adopt_installation_id("ny".to_string()));
    assert_eq!(blank.installation_id, "ny");
    assert!(!blank.adopt_installation_id("nyere".to_string()));
    assert_eq!(blank.installation_id, "ny");
}

#[test]
fn tray_has_icons_and_a_menu() {
    assert_eq!(icon_file(TrayState::Normal), "32x32.png");
    assert_eq!(icon_file(TrayState::Recording), "tray-recording.png");
    assert_eq!(icon_file(TrayState::Thinking), "tray-thinking.png");
    assert_eq!(menu_action("start"), MenuAction::StartRecording);
    assert_eq!(menu_action("stop"), MenuAction::StopRecording);
    assert_eq!(menu_action("open"), MenuAction::OpenWindow);
    assert_eq!(menu_action("quit"), MenuAction::Quit);
    assert_eq!(menu_action("andet"), MenuAction::Ignore);
}

#[test]
fn user_is_warned_where_the_system_is_not_recorded() {
    assert_eq!(
        recording_warning(&SystemCapture::NotCreated("x".to_string())).as_deref(),
        Some("Systemlyd kunne ikke optages: x. Kun mikrofon optages. Giv 'Screen Recording'-tilladelse i Systemindstillinger for at optage begge sider.")
    );
    assert_eq!(
        recording_warning(&SystemCapture::NotStarted).as_deref(),
        Some("Systemlyd kunne ikke starte. Kun mikrofon optages.")
    );
    assert_eq!(
        recording_warning(&SystemCapture::TimedOut).as_deref(),
        Some("Systemlyd-optagelse timed out. Kun mikrofon optages. Tjek Screen Recording-tilladelse.")
    );
    assert_eq!(recording_warning(&SystemCapture::Running), None);
}

#[test]
fn transcription_needs_the_model() {
    assert_eq!(transcribe_recording(true), Ok(()));
    assert_eq!(
        transcribe_recording(false),
        Err("Whisper-model er ikke downloadet endnu".to_string())
    );
    assert!(announces(true));
    assert!(!announces(false));
    assert_eq!(channels_to_transcribe(true, true, true), (true, true));
    assert_eq!(channels_to_transcribe(false, true, false), (false, false));
    assert_eq!(channels_to_transcribe(true, false, true), (true, false));
}

fn segment(start_ms: i64, text: &str, speaker: &str) -> TimedSegment {
    TimedSegment { start_ms, end_ms: start_ms, text: text.to_string(), speaker: speaker.to_string() }
}

#[test]
fn transcript_is_told_of() {
    let mic = vec![segment(5, "Hej", MIC_SPEAKER)];
    let system = vec![segment(1, "Goddag", SYSTEM_SPEAKER)];
    match auto_transcribe(true, Some(mic.clone()), Some(system)) {
        TranscriptEvent::Complete(t) => assert_eq!(t, "Lead:\nGoddag \nSælger:\nHej"),
        TranscriptEvent::Failed => panic!(),
    }
    assert!(matches!(
        auto_transcribe(true, Some(mic.clone()), None),
        TranscriptEvent::Complete(t) if t == "Sælger:\nHej"
    ));
    assert!(matches!(auto_transcribe(true, None, None), TranscriptEvent::Failed));
    assert!(matches!(auto_transcribe(false, Some(mic), None), TranscriptEvent::Failed));
    assert!(matches!(transcript_event(Some(String::new())), TranscriptEvent::Failed));
}

#[test]
fn numbers_are_written_and_read() {
    assert_eq!(to_decimal(0), "0");
    assert_eq!(to_decimal(18446744073709551615), "18446744073709551615");
    assert_eq!(parse_u32("0042"), Some(42));
    assert_eq!(parse_u32(""), None);
    assert_eq!(parse_u32("+"), None);
    assert_eq!(parse_u32("-1"), None);
    assert_eq!(parse_u32("4294967296"), None);
}
