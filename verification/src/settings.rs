//! The user's settings.

use vstd::prelude::*;
use vstd::string::*;

use crate::text;
use crate::text::strip;

verus! {

/// Who turns speech into text.
#[derive(Debug, Clone, Copy, PartialEq, Eq, Structural)]
pub enum TranscriptionProvider {
    Local,
    Openai,
}

impl Default for TranscriptionProvider {
    /// The local speech model: no audio leaves the computer unless the user asks for it.
    fn default() -> (res: Self)
        ensures
            res == TranscriptionProvider::Local,
    {
        TranscriptionProvider::Local
    }
}

#[derive(Debug, Clone)]
pub struct Settings {
    pub transcription_provider: TranscriptionProvider,
    pub installation_id: String,
}

impl Default for Settings {
    fn default() -> (res: Self)
        ensures
            res.transcription_provider == TranscriptionProvider::Local,
            res.installation_id@ == Seq::<char>::empty(),
    {
        Settings {
            transcription_provider: TranscriptionProvider::default(),
            installation_id: String::new(),
        }
    }
}

/// Whether a character is a hexadecimal digit in lowercase.
pub open spec fn is_lower_hex(c: char) -> bool {
    '0' <= c <= '9' || 'a' <= c <= 'f'
}

/// The text form of a random UUID: 36 characters, hyphens between the groups of 8, 4, 4, 4 and 12
/// digits, version 4 and the variant of the standard.
pub open spec fn is_random_uuid(s: Seq<char>) -> bool {
    &&& s.len() == 36
    &&& forall|i: int|
        0 <= i < 36 ==> if i == 8 || i == 13 || i == 18 || i == 23 {
            #[trigger] s[i] == '-'
        } else {
            is_lower_hex(s[i])
        }
    &&& s[14] == '4'
    &&& s[19] == '8' || s[19] == '9' || s[19] == 'a' || s[19] == 'b'
}

/// `Uuid::new_v4`, as text: a random UUID. Which one is left to chance.
#[verifier::external_body]
pub(crate) fn random_uuid() -> (res: String)
    ensures
        is_random_uuid(res@),
{
    uuid::Uuid::new_v4().to_string()
}

impl Settings {
    /// The settings that were read, or the default ones where none could be read.
    pub fn load(read: Option<Settings>) -> (res: Settings)
        ensures
            match read {
                Some(s) => res == s,
                None => res.transcription_provider == TranscriptionProvider::Local
                    && res.installation_id@ == Seq::<char>::empty(),
            },
    {
        match read {
            Some(s) => s,
            None => Settings::default(),
        }
    }

    /// Whether there is an installation identifier.
    pub open spec fn has_installation_id(self) -> bool {
        text::stripped(self.installation_id@).len() > 0
    }

    /// Takes `fresh` as the installation identifier where there is none, and tells whether it did.
    pub fn adopt_installation_id(&mut self, fresh: String) -> (res: bool)
        ensures
            res == !old(self).has_installation_id(),
            final(self).installation_id == (if res {
                fresh
            } else {
                old(self).installation_id
            }),
            final(self).transcription_provider == old(self).transcription_provider,
    {
        let current = strip(self.installation_id.as_str());
        if !current.as_str().is_empty() {
            return false;
        }
        self.installation_id = fresh;
        true
    }

    /// Gives the installation an identifier where it has none, and tells whether it did.
    pub fn ensure_installation_id(&mut self) -> (res: bool)
        ensures
            res == !old(self).has_installation_id(),
            final(self).transcription_provider == old(self).transcription_provider,
            final(self).has_installation_id(),
            res ==> is_random_uuid(final(self).installation_id@),
            !res ==> *final(self) == *old(self),
    {
        let current = strip(self.installation_id.as_str());
        if !current.as_str().is_empty() {
            return false;
        }
        let fresh = random_uuid();
        proof {
            lemma_uuid_is_not_blank(fresh@);
        }
        self.adopt_installation_id(fresh)
    }
}

proof fn lemma_uuid_is_not_blank(s: Seq<char>)
    requires
        is_random_uuid(s),
    ensures
        text::stripped(s).len() > 0,
{
    assert(is_lower_hex(s[0]));
    assert(text::trimmed_start(s, text::CharClass::WhiteSpace) == s);
    assert(is_lower_hex(s[35]));
    assert(text::trimmed_end(s, text::CharClass::WhiteSpace) == s);
}

// ── Laws ───────────────────────────────────────────────────────────────

/// An installation has an identifier exactly where that is more than white space.
pub proof fn law_installation_id(s: Settings)
    ensures
        s.has_installation_id() <==> exists|i: int|
            0 <= i < s.installation_id@.len() && !text::is_white_space(
                #[trigger] s.installation_id@[i],
            ),
{
    text::law_substance(s.installation_id@);
    text::law_stripped(s.installation_id@);
}

/// An installation that has an identifier keeps it for good, and one that has none gets one, once.
pub proof fn law_installation_id_is_kept(
    first: &mut Settings,
    got: bool,
    second: &mut Settings,
    again: bool,
)
    requires
        call_ensures(Settings::ensure_installation_id, (first,), got),
        *old(second) == *final(first),
        call_ensures(Settings::ensure_installation_id, (second,), again),
    ensures
        final(first).has_installation_id(),
        got <==> !old(first).has_installation_id(),
        !got ==> final(first).installation_id == old(first).installation_id,
        !again,
        final(second).installation_id == final(first).installation_id,
        final(second).transcription_provider == old(first).transcription_provider,
{
}

/// Settings that were read are used as they are; without any, no audio leaves the computer.
pub proof fn law_load(read: Option<Settings>, res: Settings)
    requires
        call_ensures(Settings::load, (read,), res),
    ensures
        read matches Some(s) ==> res == s,
        read is None ==> res.transcription_provider == TranscriptionProvider::Local
            && !res.has_installation_id(),
{
    if read is None {
        text::law_substance(res.installation_id@);
        text::law_stripped(res.installation_id@);
    }
}

} // verus!
