//! What the application remembers while it runs.

use vstd::prelude::*;
use vstd::string::*;

use crate::paths;
use crate::paths::join_path;
use crate::text;
use crate::text::own;

verus! {

/// What the assistant panel shows.
pub struct AnnaStateData {
    pub prompt: String,
    pub response: Option<String>,
    pub insert_text: Option<String>,
    pub target_bundle_id: Option<String>,
    pub is_error: bool,
}

/// The content of what the assistant panel shows.
pub struct AnnaView {
    pub prompt: Seq<char>,
    pub response: Option<Seq<char>>,
    pub insert_text: Option<Seq<char>>,
    pub target_bundle_id: Option<Seq<char>>,
    pub is_error: bool,
}

impl View for AnnaStateData {
    type V = AnnaView;

    open spec fn view(&self) -> AnnaView {
        AnnaView {
            prompt: self.prompt@,
            response: text::opt(self.response),
            insert_text: text::opt(self.insert_text),
            target_bundle_id: text::opt(self.target_bundle_id),
            is_error: self.is_error,
        }
    }
}

impl AnnaStateData {
    /// The state with owned copies of the given texts.
    pub fn new(
        prompt: &str,
        response: Option<&str>,
        insert_text: Option<&str>,
        target_bundle_id: Option<&str>,
        is_error: bool,
    ) -> (res: AnnaStateData)
        ensures
            res@ == (AnnaView {
                prompt: prompt@,
                response: text::opt_str(response),
                insert_text: text::opt_str(insert_text),
                target_bundle_id: text::opt_str(target_bundle_id),
                is_error,
            }),
    {
        AnnaStateData {
            prompt: prompt.to_owned(),
            response: own(response),
            insert_text: own(insert_text),
            target_bundle_id: own(target_bundle_id),
            is_error,
        }
    }
}

/// The name of the directory of the recordings.
pub const RECORDINGS_DIR: &'static str = "recordings";

/// The name of the directory of the speech models.
pub const MODELS_DIR: &'static str = "models";

/// What the application remembers while it runs: which recording is active, where its data is, and
/// what the assistant panel shows.
pub struct AppState {
    /// The identifier of the active recording.
    pub recording: Option<String>,
    pub data_dir: String,
    pub anna: Option<AnnaStateData>,
}

impl AppState {
    /// The same state with another recording active, or none.
    pub open spec fn with_recording(self, recording: Option<String>) -> AppState {
        AppState { recording, data_dir: self.data_dir, anna: self.anna }
    }

    /// The state at the start: nothing is recorded and nothing shown.
    pub fn new(data_dir: String) -> (res: AppState)
        ensures
            res.recording is None,
            res.data_dir == data_dir,
            res.anna is None,
    {
        AppState { recording: None, data_dir, anna: None }
    }

    /// The directory of the recordings.
    pub fn recordings_dir(&self) -> (res: String)
        ensures
            paths::is_place(self.data_dir@, "recordings"@, res@),
    {
        proof {
            reveal_strlit("recordings");
            reveal_strlit(".");
            reveal_strlit("..");
        }
        join_path(self.data_dir.as_str(), RECORDINGS_DIR)
    }

    /// The directory of the speech models.
    pub fn models_dir(&self) -> (res: String)
        ensures
            paths::is_place(self.data_dir@, "models"@, res@),
    {
        proof {
            reveal_strlit("models");
            reveal_strlit(".");
            reveal_strlit("..");
        }
        join_path(self.data_dir.as_str(), MODELS_DIR)
    }

    /// Whether a recording is active.
    pub fn is_recording(&self) -> (res: bool)
        ensures
            res == (self.recording is Some),
    {
        self.recording.is_some()
    }

    /// Refuses a new recording while one is active.
    pub fn check_idle(&self) -> (res: Result<(), String>)
        ensures
            match res {
                Ok(()) => self.recording is None,
                Err(e) => self.recording is Some && e@ == "Optagelse er allerede i gang"@,
            },
    {
        if self.recording.is_some() {
            Err("Optagelse er allerede i gang".to_owned())
        } else {
            Ok(())
        }
    }

    /// Remembers that a recording is active.
    pub fn begin_recording(&mut self, id: String)
        ensures
            *final(self) == old(self).with_recording(Some(id)),
    {
        self.recording = Some(id);
    }

    /// Forgets the active recording and hands out its identifier; without one, refuses.
    pub fn end_recording(&mut self) -> (res: Result<String, String>)
        ensures
            match res {
                Ok(id) => old(self).recording == Some(id),
                Err(e) => old(self).recording is None && e@ == "Ingen aktiv optagelse"@,
            },
            *final(self) == old(self).with_recording(None),
    {
        match self.recording.take() {
            Some(id) => Ok(id),
            None => Err("Ingen aktiv optagelse".to_owned()),
        }
    }

    /// Shows something in the assistant panel.
    pub fn set_anna_state(&mut self, shown: AnnaStateData)
        ensures
            final(self).anna == Some(shown),
            final(self).recording == old(self).recording,
            final(self).data_dir == old(self).data_dir,
    {
        self.anna = Some(shown);
    }
}

/// A recording that is begun in an idle state can be ended once, which hands out its identifier and
/// leaves the state as it was.
pub proof fn law_recording_ends_as_it_began(state: AppState, id: String)
    requires
        state.recording is None,
    ensures
        state.with_recording(Some(id)).recording == Some(id),
        state.with_recording(Some(id)).with_recording(None) == state,
{
}

/// A recording that is begun while none is active can be ended, once: that hands out its identifier and
/// leaves nothing active. While it is active no other is let begin.
pub proof fn law_recording(
    state: &mut AppState,
    id: String,
    active: &AppState,
    busy: Result<(), String>,
    running: bool,
    ending: &mut AppState,
    ended: Result<String, String>,
    idle: &mut AppState,
    again: Result<String, String>,
)
    requires
        call_ensures(AppState::begin_recording, (state, id), ()),
        *active == *final(state),
        call_ensures(AppState::check_idle, (active,), busy),
        call_ensures(AppState::is_recording, (active,), running),
        *old(ending) == *final(state),
        call_ensures(AppState::end_recording, (ending,), ended),
        *old(idle) == *final(ending),
        call_ensures(AppState::end_recording, (idle,), again),
    ensures
        busy is Err,
        running,
        ended == Ok::<String, String>(id),
        again is Err,
        final(idle).recording is None,
        final(idle).data_dir == old(state).data_dir,
        final(idle).anna == old(state).anna,
{
}

} // verus!
