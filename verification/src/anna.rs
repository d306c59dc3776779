//! The assistant: what is asked of the language model, and what is made of its answers.

use vstd::prelude::*;
use vstd::slice::*;
use vstd::string::*;
use vstd::utf8::*;

use base64::engine::general_purpose::STANDARD;
use base64::Engine;

use crate::number;
use crate::number::parse_u32;
use crate::state::{AnnaStateData, AnnaView};
use crate::text;
use crate::text::{
    chars_of, contains_any, decode_lossy, find_text, is_one_of, lend, lower, non_blank, same_text,
    strip, text_of,
};

verus! {

// ── What a prompt asks for ─────────────────────────────────────────────

/// The phrases that ask for the whole screen.
pub open spec fn full_screen_phrases() -> Seq<Seq<char>> {
    seq![
        "hele skærmen"@,
        "hele skærm"@,
        "hele desktop"@,
        "entire screen"@,
        "full screen"@,
    ]
}

/// The phrases that ask the assistant to look at the screen.
pub open spec fn screen_phrases() -> Seq<Seq<char>> {
    seq!["skærm"@, "skærmen"@, "skærmbillede"@, "screenshot"@, "se på"@]
}

/// The phrases that ask for a text to insert.
pub open spec fn draft_phrases() -> Seq<Seq<char>> {
    seq![
        "hjælp mig med et svar"@,
        "hjælp mig med svar"@,
        "skriv et svar"@,
        "formuler et svar"@,
        "svar til"@,
        "svar på"@,
        "skriv en besked"@,
        "formuler en besked"@,
        "skriv en mail"@,
        "formuler en mail"@,
        "udkast"@,
    ]
}

/// Whether a prompt, in lowercase, asks for the whole screen.
pub fn mentions_full_screen(lower: &str) -> (res: bool)
    ensures
        res == text::occurs_any(lower@, full_screen_phrases()),
{
    let phrases: [&str; 5] = [
        "hele skærmen",
        "hele skærm",
        "hele desktop",
        "entire screen",
        "full screen",
    ];
    assert(text::views(phrases@) =~= full_screen_phrases());
    contains_any(lower, phrases.as_slice())
}

/// Whether a prompt, in lowercase, asks to look at the screen.
pub fn mentions_screen(lower: &str) -> (res: bool)
    ensures
        res == text::occurs_any(lower@, screen_phrases()),
{
    let phrases: [&str; 5] = ["skærm", "skærmen", "skærmbillede", "screenshot", "se på"];
    assert(text::views(phrases@) =~= screen_phrases());
    contains_any(lower, phrases.as_slice())
}

/// Whether a prompt, in lowercase, asks for a text to insert.
pub fn mentions_draft(lower: &str) -> (res: bool)
    ensures
        res == text::occurs_any(lower@, draft_phrases()),
{
    let phrases: [&str; 11] = [
        "hjælp mig med et svar",
        "hjælp mig med svar",
        "skriv et svar",
        "formuler et svar",
        "svar til",
        "svar på",
        "skriv en besked",
        "formuler en besked",
        "skriv en mail",
        "formuler en mail",
        "udkast",
    ];
    assert(text::views(phrases@) =~= draft_phrases());
    contains_any(lower, phrases.as_slice())
}

/// Whether a prompt asks for the whole screen, whatever its case.
pub fn wants_full_screen(prompt: &str) -> (res: bool)
    ensures
        res == text::occurs_any(text::lowercase(prompt@), full_screen_phrases()),
{
    let lowered = lower(prompt);
    mentions_full_screen(lowered.as_str())
}

/// Whether a prompt asks to look at the screen, whatever its case.
pub fn needs_screenshot(prompt: &str) -> (res: bool)
    ensures
        res == text::occurs_any(text::lowercase(prompt@), screen_phrases()),
{
    let lowered = lower(prompt);
    mentions_screen(lowered.as_str())
}

/// Whether a prompt asks for a text to insert, whatever its case.
pub fn wants_insert_text(prompt: &str) -> (res: bool)
    ensures
        res == text::occurs_any(text::lowercase(prompt@), draft_phrases()),
{
    let lowered = lower(prompt);
    mentions_draft(lowered.as_str())
}

// ── Screenshot ─────────────────────────────────────────────────────────

/// What a screenshot is taken of.
#[derive(Clone, Copy, PartialEq, Eq, Debug)]
pub enum ScreenshotSource {
    FullScreen,
    /// The window with this number.
    Window(u32),
}

/// What to take a screenshot of: the frontmost window where there is one, unless the prompt asks
/// for the whole screen.
pub fn screenshot_source(full_screen: bool, window_id: Option<u32>) -> (res: ScreenshotSource)
    ensures
        res == (match window_id {
            Some(id) => if full_screen {
                ScreenshotSource::FullScreen
            } else {
                ScreenshotSource::Window(id)
            },
            None => ScreenshotSource::FullScreen,
        }),
{
    match window_id {
        Some(id) => if full_screen {
            ScreenshotSource::FullScreen
        } else {
            ScreenshotSource::Window(id)
        },
        None => ScreenshotSource::FullScreen,
    }
}

/// The window number in what the window script printed.
pub fn parse_window_id(success: bool, stdout: &[u8]) -> (res: Option<u32>)
    ensures
        (match res {
            Some(id) => Some(id as nat),
            None => None,
        }) == (if success {
            number::parsed(text::stripped(text::utf8_text(stdout@)), u32::MAX as nat)
        } else {
            None
        }),
        success && valid_utf8(stdout@) ==> (match res {
            Some(id) => Some(id as nat),
            None => None,
        }) == number::parsed(text::stripped(decode_utf8(stdout@)), u32::MAX as nat),
{
    if !success {
        return None;
    }
    let txt = decode_lossy(stdout);
    let txt = strip(txt.as_str());
    parse_u32(txt.as_str())
}

// ── Frontmost application ──────────────────────────────────────────────

/// The application's own bundle identifier.
pub open spec fn own_bundle_id() -> Seq<char> {
    "dk.holion.call-recorder"@
}

/// What stands before the first tab, or all of it.
pub open spec fn before_tab(s: Seq<char>) -> Seq<char> {
    match text::find(s, seq!['\t']) {
        Some(k) => s.take(k),
        None => s,
    }
}

/// What stands after the first tab, or nothing.
pub open spec fn after_tab(s: Seq<char>) -> Seq<char> {
    match text::find(s, seq!['\t']) {
        Some(k) => s.skip(k + 1),
        None => Seq::empty(),
    }
}

/// The bundle identifier and the name of the frontmost application, from the line that names them
/// with a tab between. The own application does not count, and an empty name is none.
pub open spec fn app_info(line: Seq<char>) -> (Option<Seq<char>>, Option<Seq<char>>) {
    let bundle = before_tab(line);
    let name = after_tab(line);
    if bundle.len() == 0 || bundle == own_bundle_id() {
        (None, None)
    } else {
        (
            Some(bundle),
            if name.len() == 0 {
                None
            } else {
                Some(name)
            },
        )
    }
}

/// Reads the bundle identifier and the name of an application from the line that names them.
pub fn read_app_info(line: &str) -> (res: (Option<String>, Option<String>))
    ensures
        (text::opt(res.0), text::opt(res.1)) == app_info(line@),
{
    let chars = chars_of(line);
    let n: usize = chars.len();
    let tab: [char; 1] = ['\t'];
    assert(tab@ =~= seq!['\t']);
    proof {
        text::lemma_find(line@, seq!['\t']);
    }
    let (bundle, name) = match find_text(chars.as_slice(), tab.as_slice()) {
        Some(k) => {
            let head = slice_subrange(chars.as_slice(), 0, k);
            let tail = slice_subrange(chars.as_slice(), k + 1, n);
            assert(head@ =~= line@.take(k as int));
            assert(tail@ =~= line@.skip(k + 1));
            (text_of(head), text_of(tail))
        },
        None => (line.to_owned(), String::new()),
    };
    if bundle.as_str().is_empty() || same_text(bundle.as_str(), "dk.holion.call-recorder") {
        return (None, None);
    }
    if name.as_str().is_empty() {
        (Some(bundle), None)
    } else {
        (Some(bundle), Some(name))
    }
}

/// The frontmost application, from what the application script printed.
pub fn frontmost_app_info(success: bool, stdout: &[u8]) -> (res: (Option<String>, Option<String>))
    ensures
        (text::opt(res.0), text::opt(res.1)) == (if success {
            app_info(text::stripped(text::utf8_text(stdout@)))
        } else {
            (None, None)
        }),
        success && valid_utf8(stdout@) ==> (text::opt(res.0), text::opt(res.1)) == app_info(
            text::stripped(decode_utf8(stdout@)),
        ),
{
    if !success {
        return (None, None);
    }
    let raw = decode_lossy(stdout);
    let line = strip(raw.as_str());
    read_app_info(line.as_str())
}

/// The bundle identifiers of the browsers that answer to Chromium's script commands.
pub open spec fn chromium_bundle_ids() -> Seq<Seq<char>> {
    seq![
        "company.thebrowser.Browser"@,
        "com.google.Chrome"@,
        "com.brave.Browser"@,
        "com.microsoft.edgemac"@,
        "org.chromium.Chromium"@,
        "com.operasoftware.Opera"@,
        "com.vivaldi.Vivaldi"@,
    ]
}

/// Whether a bundle identifier is that of a Chromium browser.
pub fn is_chromium_browser(bundle_id: &str) -> (res: bool)
    ensures
        res == chromium_bundle_ids().contains(bundle_id@),
{
    let ids: [&str; 7] = [
        "company.thebrowser.Browser",
        "com.google.Chrome",
        "com.brave.Browser",
        "com.microsoft.edgemac",
        "org.chromium.Chromium",
        "com.operasoftware.Opera",
        "com.vivaldi.Vivaldi",
    ];
    assert(text::views(ids@) =~= chromium_bundle_ids());
    is_one_of(bundle_id, ids.as_slice())
}

/// The script that asks a browser for the title of its active tab.
pub open spec fn tab_script(app_name: Seq<char>, bundle_id: Seq<char>) -> Option<Seq<char>> {
    if bundle_id == "com.apple.Safari"@ {
        Some("tell application \"Safari\" to get name of current tab of front window"@)
    } else if chromium_bundle_ids().contains(bundle_id) {
        Some(
            "tell application \""@ + app_name
                + "\" to get title of active tab of front window"@,
        )
    } else {
        None
    }
}

/// The script that asks the frontmost browser for the title of its active tab; none where the
/// application is no browser.
pub fn tab_title_script(app_name: &str, bundle_id: &str) -> (res: Option<String>)
    ensures
        text::opt(res) == tab_script(app_name@, bundle_id@),
{
    if same_text(bundle_id, "com.apple.Safari") {
        Some(
            "tell application \"Safari\" to get name of current tab of front window".to_owned(),
        )
    } else if is_chromium_browser(bundle_id) {
        let mut script = "tell application \"".to_owned();
        script.append(app_name);
        script.append("\" to get title of active tab of front window");
        Some(script)
    } else {
        None
    }
}

/// The tab title in what the tab script printed.
pub fn parse_tab_title(success: bool, stdout: &[u8]) -> (res: Option<String>)
    ensures
        text::opt(res) == (if success {
            text::substance(Some(text::utf8_text(stdout@)))
        } else {
            None
        }),
        success && valid_utf8(stdout@) ==> text::opt(res) == text::substance(
            Some(decode_utf8(stdout@)),
        ),
{
    if !success {
        return None;
    }
    let raw = decode_lossy(stdout);
    non_blank(Some(raw.as_str()))
}

/// What the model is told of the application in front.
pub open spec fn context_text(
    app_name: Option<Seq<char>>,
    tab: Option<Seq<char>>,
) -> Option<Seq<char>> {
    match (app_name, tab) {
        (Some(name), Some(title)) => Some(
            "Aktiv app: "@ + name + ".\nAktiv tab: \""@ + title + "\"."@,
        ),
        (Some(name), None) => Some("Aktiv app: "@ + name + "."@),
        (None, _) => None,
    }
}

/// What the model is told of the application in front.
pub fn app_context(app_name: Option<&str>, tab_title: Option<&str>) -> (res: Option<String>)
    ensures
        text::opt(res) == context_text(text::opt_str(app_name), text::opt_str(tab_title)),
{
    match app_name {
        Some(name) => {
            let mut out = "Aktiv app: ".to_owned();
            out.append(name);
            match tab_title {
                Some(title) => {
                    out.append(".\nAktiv tab: \"");
                    out.append(title);
                    out.append("\".");
                },
                None => {
                    out.append(".");
                },
            }
            Some(out)
        },
        None => None,
    }
}

// ── Request ────────────────────────────────────────────────────────────

/// What the model is told about its task.
pub const SYSTEM: &'static str =
    "Du er Anna, en hjælpsom AI-assistent for et dansk salgsteam. \
    Svar præcist og kortfattet på samme sprog som i samtalen/teksten i screenshotet. \
    Hvis sproget i screenshotet er uklart, svar på dansk. \
    Når du foreslår tekst, skal du matche konteksten i screenshotet: \
    Hvis det ligner e-mail, så brug passende formel/professionel tone. \
    Hvis det ligner chat/Slack/Teams/SMS, så brug en kortere og mere uformel tone. \
    For chat/Slack/Teams/SMS: skriv 1-3 korte linjer, ingen emnelinje, \
    ingen e-mail-opbygning, og ingen signatur medmindre tråden tydeligt bruger signaturer. \
    Start ikke automatisk med 'Hej [navn],' i chat-kontekst medmindre den eksisterende tråd gør det. \
    Hvis mediet er uklart, vælg chat-stil frem for formel e-mail-stil. \
    Spejl så vidt muligt tonen i den tekst, der allerede står i tråden, medmindre brugeren beder om noget andet. \
    Returnér ALTID gyldig JSON med formatet: \
    {\"answer\":\"...\",\"insert_text\":\"... eller null\"}. \
    Brug kun insert_text når brugerens intention tydeligt er at få skrevet/formuleret tekst, \
    som skal indsættes et andet sted (fx svar, besked, mail, opslag, tekstudkast). \
    Brug null når intentionen ikke er tydelig. \
    Hvis intentionen ER tydelig, skal insert_text være den rene tekst der skal indsættes \
    (uden introduktioner som 'Du kan svare ved at skrive:').";

/// The character of a base64 digit.
pub open spec fn base64_char(v: int) -> char {
    if v < 26 {
        ('A' as u32 + v) as char
    } else if v < 52 {
        ('a' as u32 + (v - 26)) as char
    } else if v < 62 {
        ('0' as u32 + (v - 52)) as char
    } else if v == 62 {
        '+'
    } else {
        '/'
    }
}

/// The standard base64 encoding with padding: three bytes make four characters of six bits each.
pub open spec fn base64(b: Seq<u8>) -> Seq<char>
    decreases b.len(),
{
    if b.len() == 0 {
        Seq::empty()
    } else if b.len() == 1 {
        seq![base64_char(b[0] as int / 4), base64_char(b[0] as int % 4 * 16), '=', '=']
    } else if b.len() == 2 {
        seq![
            base64_char(b[0] as int / 4),
            base64_char(b[0] as int % 4 * 16 + b[1] as int / 16),
            base64_char(b[1] as int % 16 * 4),
            '=',
        ]
    } else {
        seq![
            base64_char(b[0] as int / 4),
            base64_char(b[0] as int % 4 * 16 + b[1] as int / 16),
            base64_char(b[1] as int % 16 * 4 + b[2] as int / 64),
            base64_char(b[2] as int % 64),
        ] + base64(b.skip(3))
    }
}

/// Whether the base64 encoding of `len` bytes fits in memory.
pub open spec fn base64_fits(len: nat) -> bool {
    (len + 2) / 3 * 4 <= isize::MAX
}

/// `Engine::encode` of the engine `base64::engine::general_purpose::STANDARD`: the standard
/// base64 encoding of the bytes, with padding.
#[verifier::external_body]
fn encode_base64(bytes: &[u8]) -> (res: String)
    requires
        base64_fits(bytes@.len()),
    ensures
        res@ == base64(bytes@),
{
    STANDARD.encode(bytes)
}

/// A part of a message.
pub enum ContentPart {
    Text(String),
    /// The address of an image, to be looked at in high detail.
    ImageUrl(String),
}

/// The content of a message.
pub enum MessageContent {
    Plain(String),
    Parts(Vec<ContentPart>),
}

/// The content of a part of a message.
pub enum PartView {
    Text(Seq<char>),
    ImageUrl(Seq<char>),
}

/// The content of a message, as texts.
pub enum ContentView {
    Plain(Seq<char>),
    Parts(Seq<PartView>),
}

impl View for ContentPart {
    type V = PartView;

    open spec fn view(&self) -> PartView {
        match self {
            ContentPart::Text(t) => PartView::Text(t@),
            ContentPart::ImageUrl(u) => PartView::ImageUrl(u@),
        }
    }
}

impl View for MessageContent {
    type V = ContentView;

    open spec fn view(&self) -> ContentView {
        match self {
            MessageContent::Plain(t) => ContentView::Plain(t@),
            MessageContent::Parts(parts) => ContentView::Parts(
                parts@.map_values(|p: ContentPart| p@),
            ),
        }
    }
}

/// What the user message holds: the context of the application in front, the guidance where there
/// is a screenshot, the prompt, and the screenshot. A prompt alone is plain text.
pub open spec fn user_content_view(
    prompt: Seq<char>,
    guidance: Seq<char>,
    screenshot: Option<Seq<u8>>,
    context: Option<Seq<char>>,
) -> ContentView {
    let head: Seq<PartView> = match context {
        Some(c) => seq![PartView::Text(c)],
        None => Seq::empty(),
    };
    match screenshot {
        Some(bytes) => ContentView::Parts(
            head + seq![
                PartView::Text(guidance),
                PartView::Text(prompt),
                PartView::ImageUrl("data:image/jpeg;base64,"@ + base64(bytes)),
            ],
        ),
        None => match context {
            Some(c) => ContentView::Parts(head + seq![PartView::Text(prompt)]),
            None => ContentView::Plain(prompt),
        },
    }
}

/// Writes the user message.
pub fn user_content(
    prompt: &str,
    guidance: &str,
    screenshot: Option<&[u8]>,
    context: Option<&str>,
) -> (res: MessageContent)
    requires
        screenshot matches Some(bytes) ==> base64_fits(bytes@.len()),
    ensures
        res@ == user_content_view(
            prompt@,
            guidance@,
            match screenshot {
                Some(bytes) => Some(bytes@),
                None => None,
            },
            text::opt_str(context),
        ),
{
    let mut parts: Vec<ContentPart> = Vec::new();
    if let Some(c) = context {
        parts.push(ContentPart::Text(c.to_owned()));
    }
    match screenshot {
        Some(bytes) => {
            let encoded = encode_base64(bytes);
            let mut url = "data:image/jpeg;base64,".to_owned();
            url.append(encoded.as_str());
            parts.push(ContentPart::Text(guidance.to_owned()));
            parts.push(ContentPart::Text(prompt.to_owned()));
            parts.push(ContentPart::ImageUrl(url));
        },
        None => {
            if context.is_none() {
                return MessageContent::Plain(prompt.to_owned());
            }
            parts.push(ContentPart::Text(prompt.to_owned()));
        },
    }
    let res = MessageContent::Parts(parts);
    proof {
        let ghost_screenshot = match screenshot {
            Some(bytes) => Some(bytes@),
            None => None,
        };
        let want = user_content_view(prompt@, guidance@, ghost_screenshot, text::opt_str(context));
        assert(res@->Parts_0 =~= want->Parts_0);
    }
    res
}

/// A message of a conversation with the model.
pub struct ChatMessage {
    pub role: &'static str,
    pub content: MessageContent,
}

/// A request to the model.
pub struct ChatRequest {
    pub model: &'static str,
    pub messages: Vec<ChatMessage>,
    pub max_tokens: u32,
}

/// The request that asks the model to answer a user message.
pub fn chat_request(user: MessageContent) -> (res: ChatRequest)
    ensures
        res.model@ == "gpt-4o"@,
        res.max_tokens == 1000,
        res.messages@.len() == 2,
        res.messages@[0].role@ == "system"@,
        res.messages@[0].content@ == ContentView::Plain(SYSTEM@),
        res.messages@[1].role@ == "user"@,
        res.messages@[1].content == user,
{
    let system = ChatMessage {
        role: "system",
        content: MessageContent::Plain(SYSTEM.to_owned()),
    };
    let mut messages: Vec<ChatMessage> = Vec::new();
    messages.push(system);
    messages.push(ChatMessage { role: "user", content: user });
    ChatRequest { model: "gpt-4o", messages, max_tokens: 1000 }
}

// ── Answer ─────────────────────────────────────────────────────────────

/// What the model answers: a text to show, and a text to insert elsewhere.
pub struct AnnaPayload {
    pub answer: String,
    pub insert_text: Option<String>,
}

/// The content of an answer.
pub struct PayloadView {
    pub answer: Seq<char>,
    pub insert_text: Option<Seq<char>>,
}

impl View for AnnaPayload {
    type V = PayloadView;

    open spec fn view(&self) -> PayloadView {
        PayloadView { answer: self.answer@, insert_text: text::opt(self.insert_text) }
    }
}

/// The index of the last `c` in `s`.
pub open spec fn last_index(s: Seq<char>, c: char) -> Option<int>
    decreases s.len(),
{
    if s.len() == 0 {
        None
    } else if s.last() == c {
        Some(s.len() - 1)
    } else {
        last_index(s.drop_last(), c)
    }
}

/// The part of an answer from the first opening brace to the last closing one, where that comes
/// later. This is the JSON of an answer that has a fence or a remark around it.
pub open spec fn braced(raw: Seq<char>) -> Option<Seq<char>> {
    match (text::find(raw, seq!['{']), last_index(raw, '}')) {
        (Some(a), Some(b)) => if b > a {
            Some(raw.subrange(a, b + 1))
        } else {
            None
        },
        _ => None,
    }
}

/// The part of an answer from the first opening brace to the last closing one.
pub fn braced_part(raw: &str) -> (res: Option<String>)
    ensures
        text::opt(res) == braced(raw@),
{
    let chars = chars_of(raw);
    let n: usize = chars.len();
    let open: [char; 1] = ['{'];
    assert(open@ =~= seq!['{']);
    match find_text(chars.as_slice(), open.as_slice()) {
        None => None,
        Some(a) => {
            let mut end: usize = n;
            assert(raw@.take(end as int) =~= raw@);
            while end > 0 && chars[end - 1] != '}'
                invariant
                    end <= n,
                    n == chars@.len(),
                    chars@ == raw@,
                    last_index(raw@.take(end as int), '}') == last_index(raw@, '}'),
                decreases end,
            {
                assert(raw@.take(end as int).drop_last() =~= raw@.take(end as int - 1));
                end -= 1;
            }
            if end > 0 && end - 1 > a {
                Some(text_of(slice_subrange(chars.as_slice(), a, end)))
            } else {
                None
            }
        },
    }
}

/// The payload of an answer: that of the whole text where it is valid JSON, else that of the braced
/// part where that is, else the text itself.
pub open spec fn payload_of(
    raw: Seq<char>,
    whole: Option<PayloadView>,
    part: Option<PayloadView>,
) -> PayloadView {
    match (whole, part) {
        (Some(p), _) => p,
        (None, Some(p)) => p,
        (None, None) => PayloadView { answer: text::stripped(raw), insert_text: None },
    }
}

/// The payload of an answer, given what its whole text and its braced part were read as.
pub fn parse_anna_payload(
    raw: &str,
    whole: Option<AnnaPayload>,
    part: Option<AnnaPayload>,
) -> (res: AnnaPayload)
    ensures
        res@ == payload_of(
            raw@,
            match whole {
                Some(p) => Some(p@),
                None => None,
            },
            match part {
                Some(p) => Some(p@),
                None => None,
            },
        ),
{
    if let Some(p) = whole {
        return p;
    }
    if let Some(p) = part {
        return p;
    }
    AnnaPayload { answer: strip(raw), insert_text: None }
}

/// The phrases with which the model declines.
pub open spec fn refusal_phrases() -> Seq<Seq<char>> {
    seq![
        "i'm sorry, i can't assist with that"@,
        "i can't assist with that"@,
        "i can’t assist with that"@,
        "i'm sorry, i can't help with that"@,
        "jeg kan ikke hjælpe med det"@,
        "beklager, men jeg kan ikke hjælpe med det"@,
    ]
}

/// Whether an answer is a refusal: it was filtered, it names a refusal, or its text, given in
/// lowercase, declines.
pub open spec fn is_refusal(
    lower: Seq<char>,
    finish_reason: Option<Seq<char>>,
    refusal: Option<Seq<char>>,
) -> bool {
    ||| finish_reason == Some("content_filter"@)
    ||| text::substance(refusal) is Some
    ||| text::occurs_any(lower, refusal_phrases())
}

/// Whether an answer, whose text is given in lowercase, is a refusal.
pub fn refusal_verdict(
    lower: &str,
    finish_reason: Option<&str>,
    refusal: Option<&str>,
) -> (res: bool)
    ensures
        res == is_refusal(lower@, text::opt_str(finish_reason), text::opt_str(refusal)),
{
    if let Some(reason) = finish_reason {
        if same_text(reason, "content_filter") {
            return true;
        }
    }
    if non_blank(refusal).is_some() {
        return true;
    }
    let phrases: [&str; 6] = [
        "i'm sorry, i can't assist with that",
        "i can't assist with that",
        "i can’t assist with that",
        "i'm sorry, i can't help with that",
        "jeg kan ikke hjælpe med det",
        "beklager, men jeg kan ikke hjælpe med det",
    ];
    assert(text::views(phrases@) =~= refusal_phrases());
    contains_any(lower, phrases.as_slice())
}

/// Whether an answer is a refusal.
pub fn looks_like_refusal(
    text: &str,
    finish_reason: Option<&str>,
    refusal: Option<&str>,
) -> (res: bool)
    ensures
        res == is_refusal(
            text::lowercase(text@),
            text::opt_str(finish_reason),
            text::opt_str(refusal),
        ),
{
    let lowered = lower(text);
    refusal_verdict(lowered.as_str(), finish_reason, refusal)
}

/// One of the answers that a response offers.
pub struct Choice {
    pub finish_reason: Option<String>,
    pub content: String,
    pub refusal: Option<String>,
}

/// What an offered answer says.
pub enum Reading {
    /// It has no text; the payload is the refusal that it names, if any.
    Empty { payload: AnnaPayload, refused: bool },
    /// It has this text.
    Text { raw: String, refused: bool },
}

/// The first answer that a response offers.
pub fn first_choice(choices: Vec<Choice>) -> (res: Result<Choice, String>)
    ensures
        match res {
            Ok(c) => choices@.len() > 0 && c == choices@[0],
            Err(e) => choices@.len() == 0 && e@ == "Tomt svar fra OpenAI"@,
        },
{
    let mut choices = choices;
    if choices.len() == 0 {
        Err("Tomt svar fra OpenAI".to_owned())
    } else {
        Ok(choices.remove(0))
    }
}

/// Reads an offered answer. Its text counts without white space around it.
pub fn read_choice(choice: &Choice) -> (res: Reading)
    ensures
        match res {
            Reading::Empty { payload, refused } => {
                let named = match text::opt(choice.refusal) {
                    Some(t) => t,
                    None => Seq::empty(),
                };
                &&& text::stripped(choice.content@).len() == 0
                &&& payload@ == (PayloadView { answer: named, insert_text: None })
                &&& refused == is_refusal(
                    text::lowercase(named),
                    text::opt(choice.finish_reason),
                    Some(named),
                )
            },
            Reading::Text { raw, refused } => {
                &&& text::stripped(choice.content@).len() > 0
                &&& raw@ == text::stripped(choice.content@)
                &&& refused == is_refusal(
                    text::lowercase(raw@),
                    text::opt(choice.finish_reason),
                    text::opt(choice.refusal),
                )
            },
        },
{
    let raw = strip(choice.content.as_str());
    let reason = lend(&choice.finish_reason);
    if raw.as_str().is_empty() {
        let named = match &choice.refusal {
            Some(t) => t.clone(),
            None => String::new(),
        };
        let refused = looks_like_refusal(named.as_str(), reason, Some(named.as_str()));
        Reading::Empty { payload: AnnaPayload { answer: named, insert_text: None }, refused }
    } else {
        let refused = looks_like_refusal(raw.as_str(), reason, lend(&choice.refusal));
        Reading::Text { raw, refused }
    }
}

/// The message for a response that is not a success.
pub open spec fn failure(status: Seq<char>, body: Seq<char>) -> Seq<char> {
    "OpenAI API fejl "@ + status + ": "@ + body
}

/// Whether a response is a success, from its status and its body.
pub fn answer_result(success: bool, status: &str, body: &str) -> (res: Result<(), String>)
    ensures
        match res {
            Ok(()) => success,
            Err(e) => !success && e@ == failure(status@, body@),
        },
{
    if success {
        return Ok(());
    }
    let mut out = "OpenAI API fejl ".to_owned();
    out.append(status);
    out.append(": ");
    out.append(body);
    Err(out)
}

/// The body of a response.
pub enum ResponseBody {
    /// It could not be read; the reason is given.
    Unread(String),
    /// It is this text, and was parsed into the answers that it offers, or not, for the reason given.
    Read { text: String, choices: Result<Vec<Choice>, String> },
}

/// The answer that a response gives: the first one that it offers. There is none where the response is
/// no success, its body could not be read or parsed, or it offers none, in this order.
pub fn answer_of_response(success: bool, status: &str, body: ResponseBody) -> (res: Result<
    Choice,
    String,
>)
    ensures
        match body {
            ResponseBody::Unread(reason) => res matches Err(e) && e@ == (if success {
                "Kunne ikke læse OpenAI JSON-svar: "@ + reason@
            } else {
                failure(status@, Seq::empty())
            }),
            ResponseBody::Read { text, choices } => if !success {
                res matches Err(e) && e@ == failure(status@, text@)
            } else {
                match choices {
                    Err(reason) => res matches Err(e) && e@
                        == "Kunne ikke parse OpenAI JSON-svar: "@ + reason@,
                    Ok(offered) => if offered@.len() > 0 {
                        res == Ok::<Choice, String>(offered@[0])
                    } else {
                        res matches Err(e) && e@ == "Tomt svar fra OpenAI"@
                    },
                }
            },
        },
{
    match body {
        ResponseBody::Unread(reason) => {
            let empty = String::new();
            match answer_result(success, status, empty.as_str()) {
                Err(e) => Err(e),
                Ok(()) => {
                    let mut out = "Kunne ikke læse OpenAI JSON-svar: ".to_owned();
                    out.append(reason.as_str());
                    Err(out)
                },
            }
        },
        ResponseBody::Read { text, choices } => match answer_result(
            success,
            status,
            text.as_str(),
        ) {
            Err(e) => Err(e),
            Ok(()) => match choices {
                Err(reason) => {
                    let mut out = "Kunne ikke parse OpenAI JSON-svar: ".to_owned();
                    out.append(reason.as_str());
                    Err(out)
                },
                Ok(offered) => first_choice(offered),
            },
        },
    }
}

/// The size above which the model may ignore a screenshot.
pub const LARGE_SCREENSHOT: usize = 8_000_000;

/// A warning for a screenshot that is so large that the model may ignore it.
pub fn screenshot_warning(len: usize) -> (res: Option<&'static str>)
    ensures
        match res {
            Some(w) => len > LARGE_SCREENSHOT && w@
                == "ADVARSEL: screenshot er over 8 MB; OpenAI kan ignorere billed-input i Chat Completions"@,
            None => len <= LARGE_SCREENSHOT,
        },
{
    if len > LARGE_SCREENSHOT {
        Some(
            "ADVARSEL: screenshot er over 8 MB; OpenAI kan ignorere billed-input i Chat Completions",
        )
    } else {
        None
    }
}

// ── Retries ────────────────────────────────────────────────────────────

/// The attempts to get an answer, in their order.
#[derive(Clone, Copy, PartialEq, Eq, Debug)]
pub enum Attempt {
    Primary,
    /// With a narrower guidance, after a refusal.
    Retry,
    /// With the demand for a text to insert.
    Strict,
}

/// The guidance that goes with a screenshot in an attempt.
pub open spec fn guidance_text(attempt: Attempt) -> Seq<char> {
    match attempt {
        Attempt::Primary =>
            "Der er vedhæftet et skærmbillede. Brug det aktivt til dit svar. \
            Skriv ikke, at du ikke kan se billedet. Hvis noget er uklart, skriv præcist hvad der er uklart. \
            Tilpas formalitet og længde til mediet i screenshotet (mail vs chat)."@,
        Attempt::Retry =>
            "Brugeren ønsker hjælp til at formulere et venligt, harmløst tekstsvar. \
            Brug samme sprog som i samtalen/teksten i screenshotet. Hvis uklart, brug dansk. \
            Svar kort, konkret og uden ekstra sikkerhedsformuleringer."@,
        Attempt::Strict =>
            "VIGTIGT: Returnér KUN gyldig JSON i formatet \
            {\"answer\":\"...\",\"insert_text\":\"...\"}. \
            insert_text MÅ IKKE være null eller tom. \
            insert_text skal være den nøjagtige tekst, der skal indsættes direkte, \
            uden introduktioner eller forklaringer."@,
    }
}

/// The guidance that goes with a screenshot in an attempt.
pub fn guidance(attempt: Attempt) -> (res: &'static str)
    ensures
        res@ == guidance_text(attempt),
{
    match attempt {
        Attempt::Primary =>
            "Der er vedhæftet et skærmbillede. Brug det aktivt til dit svar. \
            Skriv ikke, at du ikke kan se billedet. Hvis noget er uklart, skriv præcist hvad der er uklart. \
            Tilpas formalitet og længde til mediet i screenshotet (mail vs chat).",
        Attempt::Retry =>
            "Brugeren ønsker hjælp til at formulere et venligt, harmløst tekstsvar. \
            Brug samme sprog som i samtalen/teksten i screenshotet. Hvis uklart, brug dansk. \
            Svar kort, konkret og uden ekstra sikkerhedsformuleringer.",
        Attempt::Strict =>
            "VIGTIGT: Returnér KUN gyldig JSON i formatet \
            {\"answer\":\"...\",\"insert_text\":\"...\"}. \
            insert_text MÅ IKKE være null eller tom. \
            insert_text skal være den nøjagtige tekst, der skal indsættes direkte, \
            uden introduktioner eller forklaringer.",
    }
}

/// What to do after an attempt.
pub enum NextStep {
    /// Take this answer.
    Answer(AnnaPayload),
    /// Make this attempt.
    Ask(Attempt),
}

/// Whether an answer has a text to insert that is more than white space.
pub open spec fn has_insert_text(p: PayloadView) -> bool {
    text::substance(p.insert_text) is Some
}

/// The attempt that follows another, if any: a refused primary answer is asked for again; where a
/// text to insert is wanted and the second answer is refused or lacks it, a third is asked for.
pub open spec fn following(
    attempt: Attempt,
    require_insert_text: bool,
    payload: PayloadView,
    refused: bool,
) -> Option<Attempt> {
    match attempt {
        Attempt::Primary => if refused {
            Some(Attempt::Retry)
        } else {
            None
        },
        Attempt::Retry => if require_insert_text && (refused || !has_insert_text(payload)) {
            Some(Attempt::Strict)
        } else {
            None
        },
        Attempt::Strict => None,
    }
}

/// Decides what to do after an attempt that was answered with `payload`.
pub fn after_attempt(
    attempt: Attempt,
    require_insert_text: bool,
    payload: AnnaPayload,
    refused: bool,
) -> (res: NextStep)
    ensures
        match res {
            NextStep::Answer(p) => p == payload && following(
                attempt,
                require_insert_text,
                payload@,
                refused,
            ) is None,
            NextStep::Ask(next) => following(attempt, require_insert_text, payload@, refused)
                == Some(next),
        },
{
    match attempt {
        Attempt::Primary => if refused {
            NextStep::Ask(Attempt::Retry)
        } else {
            NextStep::Answer(payload)
        },
        Attempt::Retry => {
            if require_insert_text && (refused || non_blank(lend(&payload.insert_text)).is_none()) {
                NextStep::Ask(Attempt::Strict)
            } else {
                NextStep::Answer(payload)
            }
        },
        Attempt::Strict => NextStep::Answer(payload),
    }
}

/// How many attempts have been made when this one is answered.
pub open spec fn attempts_made(attempt: Attempt) -> nat {
    match attempt {
        Attempt::Primary => 1,
        Attempt::Retry => 2,
        Attempt::Strict => 3,
    }
}

/// Attempts follow one another in their order, so there are at most three; the third is made only
/// where a text to insert is wanted; and an answer that is no refusal and has the text to insert
/// that is wanted ends them.
pub proof fn law_attempts(
    attempt: Attempt,
    require_insert_text: bool,
    payload: PayloadView,
    refused: bool,
)
    ensures
        following(attempt, require_insert_text, payload, refused) matches Some(next)
            ==> attempts_made(next) == attempts_made(attempt) + 1 && attempts_made(next) <= 3,
        following(attempt, require_insert_text, payload, refused) == Some(Attempt::Strict)
            ==> require_insert_text,
        !refused && (require_insert_text ==> has_insert_text(payload)) ==> following(
            attempt,
            require_insert_text,
            payload,
            refused,
        ) is None,
{
}

// ── A query from start to end ──────────────────────────────────────────

/// How a query starts.
pub enum QueryStart {
    /// There is no key for the model; this is shown.
    NoKey { state: AnnaStateData },
    /// The model is asked while this is shown.
    Ask {
        state: AnnaStateData,
        api_key: String,
        screenshot: Option<Vec<u8>>,
        context: Option<String>,
        require_insert_text: bool,
    },
}

/// Starts a query. The screenshot is used only where the command asks to look at the screen.
pub fn start_query(
    command: &str,
    openai_key: Option<&str>,
    screenshot: Option<Vec<u8>>,
    app_name: Option<&str>,
    tab_title: Option<&str>,
    target_bundle_id: Option<&str>,
) -> (res: QueryStart)
    ensures
        match res {
            QueryStart::NoKey { state } => {
                &&& text::substance(text::opt_str(openai_key)) is None
                &&& state@ == (AnnaView {
                    prompt: command@,
                    response: Some(
                        "Ingen OpenAI API-nøgle konfigureret. Åbn indstillinger (⚙)."@,
                    ),
                    insert_text: None,
                    target_bundle_id: text::opt_str(target_bundle_id),
                    is_error: true,
                })
            },
            QueryStart::Ask {
                state,
                api_key,
                screenshot: used,
                context,
                require_insert_text,
            } => {
                &&& text::substance(text::opt_str(openai_key)) == Some(api_key@)
                &&& state@ == (AnnaView {
                    prompt: command@,
                    response: None,
                    insert_text: None,
                    target_bundle_id: text::opt_str(target_bundle_id),
                    is_error: false,
                })
                &&& used == (if text::occurs_any(text::lowercase(command@), screen_phrases()) {
                    screenshot
                } else {
                    None
                })
                &&& text::opt(context) == context_text(
                    text::opt_str(app_name),
                    text::opt_str(tab_title),
                )
                &&& require_insert_text == text::occurs_any(
                    text::lowercase(command@),
                    draft_phrases(),
                )
            },
        },
{
    match non_blank(openai_key) {
        None => QueryStart::NoKey {
            state: AnnaStateData::new(
                command,
                Some("Ingen OpenAI API-nøgle konfigureret. Åbn indstillinger (⚙)."),
                None,
                target_bundle_id,
                true,
            ),
        },
        Some(api_key) => {
            let used = if needs_screenshot(command) {
                screenshot
            } else {
                None
            };
            QueryStart::Ask {
                state: AnnaStateData::new(command, None, None, target_bundle_id, false),
                api_key,
                screenshot: used,
                context: app_context(app_name, tab_title),
                require_insert_text: wants_insert_text(command),
            }
        },
    }
}

/// What is shown when a query has ended: the answer, with the text to insert beside it, or what went
/// wrong.
pub fn finish_query(
    command: &str,
    target_bundle_id: Option<&str>,
    outcome: Result<AnnaPayload, String>,
) -> (res: AnnaStateData)
    ensures
        res@ == (match outcome {
            Ok(payload) => AnnaView {
                prompt: command@,
                response: Some(payload@.answer),
                insert_text: payload@.insert_text,
                target_bundle_id: text::opt_str(target_bundle_id),
                is_error: false,
            },
            Err(e) => AnnaView {
                prompt: command@,
                response: Some("Fejl: "@ + e@),
                insert_text: None,
                target_bundle_id: text::opt_str(target_bundle_id),
                is_error: true,
            },
        }),
{
    match outcome {
        Ok(payload) => AnnaStateData::new(
            command,
            Some(payload.answer.as_str()),
            lend(&payload.insert_text),
            target_bundle_id,
            false,
        ),
        Err(e) => {
            let mut message = "Fejl: ".to_owned();
            message.append(e.as_str());
            AnnaStateData::new(command, Some(message.as_str()), None, target_bundle_id, true)
        },
    }
}

// ── Laws ───────────────────────────────────────────────────────────────

/// Whether a text, in lowercase, holds a phrase with which the model declines.
pub open spec fn declines(lower: Seq<char>) -> bool {
    ||| text::occurs(lower, "i can't assist with that"@)
    ||| text::occurs(lower, "i can’t assist with that"@)
    ||| text::occurs(lower, "i'm sorry, i can't help with that"@)
    ||| text::occurs(lower, "jeg kan ikke hjælpe med det"@)
}

proof fn lemma_declines(lower: Seq<char>)
    ensures
        text::occurs_any(lower, refusal_phrases()) <==> declines(lower),
{
    let ps = refusal_phrases();
    assert(ps[0] == "i'm sorry, i can't assist with that"@);
    assert(ps[1] == "i can't assist with that"@);
    assert(ps[2] == "i can’t assist with that"@);
    assert(ps[3] == "i'm sorry, i can't help with that"@);
    assert(ps[4] == "jeg kan ikke hjælpe med det"@);
    assert(ps[5] == "beklager, men jeg kan ikke hjælpe med det"@);
    if text::occurs(lower, ps[0]) {
        reveal_strlit("i'm sorry, i can't assist with that");
        reveal_strlit("i can't assist with that");
        assert(ps[0].subrange(11, 11int + ps[1].len()) =~= ps[1]);
        assert(text::occurs_at(ps[0], ps[1], 11));
        text::law_occurs_within(lower, ps[0], ps[1]);
    }
    if text::occurs(lower, ps[5]) {
        reveal_strlit("beklager, men jeg kan ikke hjælpe med det");
        reveal_strlit("jeg kan ikke hjælpe med det");
        assert(ps[5].subrange(14, 14int + ps[4].len()) =~= ps[4]);
        assert(text::occurs_at(ps[5], ps[4], 14));
        text::law_occurs_within(lower, ps[5], ps[4]);
    }
}

/// An answer is a refusal on any of three grounds, each of which suffices by itself, and on no other: it
/// was filtered; it names a refusal that is more than white space; its text declines, in whatever case
/// and whatever else it says.
pub proof fn law_refusal(
    answer: &str,
    finish_reason: Option<&str>,
    refusal: Option<&str>,
    res: bool,
)
    requires
        call_ensures(looks_like_refusal, (answer, finish_reason, refusal), res),
    ensures
        finish_reason is Some && finish_reason->0@ == "content_filter"@ ==> res,
        refusal is Some && (exists|i: int|
            0 <= i < refusal->0@.len() && !text::is_white_space(#[trigger] refusal->0@[i])) ==> res,
        declines(text::lowercase(answer@)) ==> res,
        res ==> finish_reason is Some && finish_reason->0@ == "content_filter"@ || refusal is Some
            && (exists|i: int|
            0 <= i < refusal->0@.len() && !text::is_white_space(#[trigger] refusal->0@[i]))
            || declines(text::lowercase(answer@)),
{
    law_refusal_grounds(
        text::lowercase(answer@),
        text::opt_str(finish_reason),
        text::opt_str(refusal),
    );
}

/// The three grounds of a refusal, each of which suffices by itself.
pub proof fn law_refusal_grounds(
    lower: Seq<char>,
    finish_reason: Option<Seq<char>>,
    refusal: Option<Seq<char>>,
)
    ensures
        is_refusal(lower, finish_reason, refusal) <==> finish_reason == Some("content_filter"@)
            || refusal is Some && (exists|i: int|
            0 <= i < refusal->0.len() && !text::is_white_space(#[trigger] refusal->0[i]))
            || declines(lower),
{
    lemma_declines(lower);
    text::law_substance(match refusal {
        Some(t) => t,
        None => Seq::empty(),
    });
}

/// A phrase that declines makes a refusal of the answer in which it stands, whatever stands around it,
/// whatever its case, and whatever the service says of the answer.
pub proof fn law_declining_answer_is_a_refusal(
    before: Seq<char>,
    phrase: Seq<char>,
    after: Seq<char>,
    finish_reason: Option<Seq<char>>,
    refusal: Option<Seq<char>>,
)
    requires
        declines(text::lowercase(phrase)),
    ensures
        is_refusal(text::lowercase(before + phrase + after), finish_reason, refusal),
{
    let lower = text::lowercase(before + phrase + after);
    let word = text::lowercase(phrase);
    lemma_lowercase_between(before, phrase, after);
    lemma_declines(word);
    let ps = refusal_phrases();
    let i = choose|i: int| 0 <= i < ps.len() && text::occurs(word, #[trigger] ps[i]);
    text::law_occurs_within(lower, word, ps[i]);
    lemma_declines(lower);
    law_refusal_grounds(lower, finish_reason, refusal);
}

proof fn lemma_lowercase_between(before: Seq<char>, phrase: Seq<char>, after: Seq<char>)
    ensures
        text::occurs(text::lowercase(before + phrase + after), text::lowercase(phrase)),
{
    text::lemma_lowercase_concat(before + phrase, after);
    text::lemma_lowercase_concat(before, phrase);
    text::law_occurs_between(
        text::lowercase(before),
        text::lowercase(phrase),
        text::lowercase(after),
    );
}

/// What an offered answer says is read from its text where that is more than white space, and else from
/// the refusal that it names; an answer that declines is refused either way.
pub proof fn law_reading(choice: &Choice, res: Reading)
    requires
        call_ensures(read_choice, (choice,), res),
    ensures
        res is Text <==> exists|i: int|
            0 <= i < choice.content@.len() && !text::is_white_space(#[trigger] choice.content@[i]),
        res matches Reading::Text { raw, refused } ==> raw@ == text::stripped(choice.content@) && (
        declines(text::lowercase(raw@)) ==> refused) && (choice.finish_reason is Some
            && choice.finish_reason->0@ == "content_filter"@ ==> refused),
        res matches Reading::Empty { payload, refused } ==> payload.insert_text is None && (
        choice.refusal matches Some(t) ==> payload.answer@ == t@) && (choice.refusal is None
            ==> payload.answer@.len() == 0) && (choice.finish_reason is Some
            && choice.finish_reason->0@ == "content_filter"@ ==> refused) && (choice.refusal is Some
            && (exists|i: int|
            0 <= i < choice.refusal->0@.len() && !text::is_white_space(
                #[trigger] choice.refusal->0@[i],
            )) ==> refused),
{
    text::law_substance(choice.content@);
    text::law_stripped(choice.content@);
    lemma_declines(text::lowercase(text::stripped(choice.content@)));
    text::law_substance(match choice.refusal {
        Some(t) => t@,
        None => Seq::empty(),
    });
}

/// A refused first answer is not taken, but asked for again; and where a text to insert is wanted, a
/// second answer that is refused or brings none is not taken either. Any other answer is taken as it is.
pub proof fn law_retries(
    attempt: Attempt,
    require_insert_text: bool,
    payload: AnnaPayload,
    refused: bool,
    res: NextStep,
)
    requires
        call_ensures(after_attempt, (attempt, require_insert_text, payload, refused), res),
    ensures
        attempt == Attempt::Primary && refused ==> res == NextStep::Ask(Attempt::Retry),
        attempt == Attempt::Primary && !refused ==> res == NextStep::Answer(payload),
        attempt == Attempt::Retry && !require_insert_text ==> res == NextStep::Answer(payload),
        attempt == Attempt::Retry && require_insert_text && refused ==> res == NextStep::Ask(
            Attempt::Strict,
        ),
        attempt == Attempt::Retry && require_insert_text && !refused ==> (res
            == NextStep::Answer(payload) <==> payload.insert_text is Some && exists|i: int|
            0 <= i < payload.insert_text->0@.len() && !text::is_white_space(
                #[trigger] payload.insert_text->0@[i],
            )),
        attempt == Attempt::Retry ==> res == NextStep::Answer(payload) || res == NextStep::Ask(
            Attempt::Strict,
        ),
        attempt == Attempt::Strict ==> res == NextStep::Answer(payload),
{
    text::law_substance(match payload.insert_text {
        Some(t) => t@,
        None => Seq::empty(),
    });
}

/// Whether a prompt, in lowercase, asks to look at the screen.
pub open spec fn asks_to_look(lower: Seq<char>) -> bool {
    text::occurs(lower, "skærm"@) || text::occurs(lower, "screenshot"@) || text::occurs(
        lower,
        "se på"@,
    )
}

/// A prompt asks to look at the screen exactly where it speaks of a screen or a screenshot or says "se
/// på", anywhere and in whatever case.
pub proof fn law_needs_screenshot(prompt: &str, res: bool)
    requires
        call_ensures(needs_screenshot, (prompt,), res),
    ensures
        res <==> asks_to_look(text::lowercase(prompt@)),
{
    lemma_asks_to_look(text::lowercase(prompt@));
}

proof fn lemma_asks_to_look(lower: Seq<char>)
    ensures
        text::occurs_any(lower, screen_phrases()) <==> asks_to_look(lower),
{
    let ps = screen_phrases();
    assert(ps[0] == "skærm"@ && ps[1] == "skærmen"@ && ps[2] == "skærmbillede"@ && ps[3]
        == "screenshot"@ && ps[4] == "se på"@);
    reveal_strlit("skærm");
    reveal_strlit("skærmen");
    reveal_strlit("skærmbillede");
    assert(ps[1].subrange(0, 5) =~= ps[0]);
    assert(ps[2].subrange(0, 5) =~= ps[0]);
    assert(text::occurs_at(ps[1], ps[0], 0));
    assert(text::occurs_at(ps[2], ps[0], 0));
    if text::occurs(lower, ps[1]) {
        text::law_occurs_within(lower, ps[1], ps[0]);
    }
    if text::occurs(lower, ps[2]) {
        text::law_occurs_within(lower, ps[2], ps[0]);
    }
}

/// A prompt asks for the whole screen exactly where it names it, anywhere and in whatever case.
pub proof fn law_wants_full_screen(prompt: &str, res: bool)
    requires
        call_ensures(wants_full_screen, (prompt,), res),
    ensures
        ({
            let lower = text::lowercase(prompt@);
            res <==> text::occurs(lower, "hele skærm"@) || text::occurs(lower, "hele desktop"@)
                || text::occurs(lower, "entire screen"@) || text::occurs(lower, "full screen"@)
        }),
{
    let lower = text::lowercase(prompt@);
    let ps = full_screen_phrases();
    assert(ps[0] == "hele skærmen"@ && ps[1] == "hele skærm"@ && ps[2] == "hele desktop"@ && ps[3]
        == "entire screen"@ && ps[4] == "full screen"@);
    reveal_strlit("hele skærmen");
    reveal_strlit("hele skærm");
    assert(ps[0].subrange(0, 10) =~= ps[1]);
    assert(text::occurs_at(ps[0], ps[1], 0));
    if text::occurs(lower, ps[0]) {
        text::law_occurs_within(lower, ps[0], ps[1]);
    }
}

/// Whether a prompt, in lowercase, asks for a text to insert.
pub open spec fn asks_for_draft(lower: Seq<char>) -> bool {
    ||| text::occurs(lower, "hjælp mig med et svar"@)
    ||| text::occurs(lower, "hjælp mig med svar"@)
    ||| text::occurs(lower, "skriv et svar"@)
    ||| text::occurs(lower, "formuler et svar"@)
    ||| text::occurs(lower, "svar til"@)
    ||| text::occurs(lower, "svar på"@)
    ||| text::occurs(lower, "skriv en besked"@)
    ||| text::occurs(lower, "formuler en besked"@)
    ||| text::occurs(lower, "skriv en mail"@)
    ||| text::occurs(lower, "formuler en mail"@)
    ||| text::occurs(lower, "udkast"@)
}

/// A prompt asks for a text to insert exactly where it asks to write one, anywhere and in whatever case.
pub proof fn law_wants_insert_text(prompt: &str, res: bool)
    requires
        call_ensures(wants_insert_text, (prompt,), res),
    ensures
        res <==> asks_for_draft(text::lowercase(prompt@)),
{
    lemma_asks_for_draft(text::lowercase(prompt@));
}

proof fn lemma_asks_for_draft(lower: Seq<char>)
    ensures
        text::occurs_any(lower, draft_phrases()) <==> asks_for_draft(lower),
{
    let ps = draft_phrases();
    assert(ps[0] == "hjælp mig med et svar"@ && ps[1] == "hjælp mig med svar"@ && ps[2]
        == "skriv et svar"@ && ps[3] == "formuler et svar"@);
    assert(ps[4] == "svar til"@ && ps[5] == "svar på"@ && ps[6] == "skriv en besked"@ && ps[7]
        == "formuler en besked"@);
    assert(ps[8] == "skriv en mail"@ && ps[9] == "formuler en mail"@ && ps[10] == "udkast"@);
}

/// What a prompt asks for does not depend on what is said around the request.
pub proof fn law_request_stands_anywhere(before: Seq<char>, asked: Seq<char>, after: Seq<char>)
    ensures
        ({
            let lower = text::lowercase(before + asked + after);
            &&& text::occurs_any(text::lowercase(asked), screen_phrases()) ==> text::occurs_any(
                lower,
                screen_phrases(),
            )
            &&& text::occurs_any(text::lowercase(asked), draft_phrases()) ==> text::occurs_any(
                lower,
                draft_phrases(),
            )
            &&& text::occurs_any(text::lowercase(asked), full_screen_phrases())
                ==> text::occurs_any(lower, full_screen_phrases())
        }),
{
    lemma_lowercase_between(before, asked, after);
    let lower = text::lowercase(before + asked + after);
    lemma_occurs_any_within(lower, text::lowercase(asked), screen_phrases());
    lemma_occurs_any_within(lower, text::lowercase(asked), draft_phrases());
    lemma_occurs_any_within(lower, text::lowercase(asked), full_screen_phrases());
}

proof fn lemma_occurs_any_within(hay: Seq<char>, inner: Seq<char>, phrases: Seq<Seq<char>>)
    requires
        text::occurs(hay, inner),
    ensures
        text::occurs_any(inner, phrases) ==> text::occurs_any(hay, phrases),
{
    if text::occurs_any(inner, phrases) {
        let i = choose|i: int| 0 <= i < phrases.len() && text::occurs(inner, #[trigger] phrases[i]);
        text::law_occurs_within(hay, inner, phrases[i]);
    }
}

/// A window is shown only where there is one and the whole screen is not asked for.
pub proof fn law_screenshot_source(full_screen: bool, window_id: Option<u32>, res: ScreenshotSource)
    requires
        call_ensures(screenshot_source, (full_screen, window_id), res),
    ensures
        full_screen || window_id is None ==> res == ScreenshotSource::FullScreen,
        !full_screen && window_id is Some ==> res == ScreenshotSource::Window(window_id->0),
{
}

/// The JSON of an answer is found whatever stands around it, as long as no brace opens before it or
/// closes after it; and none is found where no brace closes after one that opens.
pub proof fn law_braced(before: Seq<char>, body: Seq<char>, after: Seq<char>)
    requires
        !before.contains('{'),
        !after.contains('}'),
    ensures
        braced(before + "{"@ + body + "}"@ + after) == Some("{"@ + body + "}"@),
        braced(before + after) is None,
{
    reveal_strlit("{");
    reveal_strlit("}");
    let raw = before + "{"@ + body + "}"@ + after;
    let a = before.len() as int;
    let b = a + 1 + body.len();
    assert(raw[a] == '{' && raw[b] == '}');
    text::lemma_find_char(raw, '{');
    assert(raw.contains('{'));
    let k = text::find(raw, seq!['{'])->0;
    if k < a {
        assert(raw[k] == before[k]);
    }
    if k > a {
        assert(raw[a] != '{');
    }
    assert forall|i: int| b < i < raw.len() implies raw[i] != '}' by {
        assert(raw[i] == after[i - b - 1]);
    }
    lemma_last_index(raw, '}', b);
    assert(raw.subrange(a, b + 1) =~= "{"@ + body + "}"@);
    let none = before + after;
    text::lemma_find_char(none, '{');
    lemma_last_index_found(none, '}');
    if braced(none) is Some {
        let i = text::find(none, seq!['{'])->0;
        let j = last_index(none, '}')->0;
        if i < before.len() {
            assert(none[i] == before[i]);
        } else {
            assert(none[j] == after[j - before.len()]);
        }
    }
}

proof fn lemma_last_index(s: Seq<char>, c: char, k: int)
    requires
        0 <= k < s.len(),
        s[k] == c,
        forall|i: int| k < i < s.len() ==> s[i] != c,
    ensures
        last_index(s, c) == Some(k),
    decreases s.len(),
{
    if k < s.len() - 1 {
        assert(s[s.len() - 1] != c);
        lemma_last_index(s.drop_last(), c, k);
    }
}

proof fn lemma_last_index_found(s: Seq<char>, c: char)
    ensures
        last_index(s, c) matches Some(k) ==> 0 <= k < s.len() && s[k] == c,
    decreases s.len(),
{
    if s.len() > 0 && s.last() != c {
        lemma_last_index_found(s.drop_last(), c);
    }
}

/// What the model says is never lost: an answer that is no JSON is shown as it is, without white space
/// around it, and one that is JSON is taken whole where it can be.
pub proof fn law_payload(
    raw: &str,
    whole: Option<AnnaPayload>,
    part: Option<AnnaPayload>,
    res: AnnaPayload,
)
    requires
        call_ensures(parse_anna_payload, (raw, whole, part), res),
    ensures
        whole matches Some(p) ==> res@ == p@,
        whole is None ==> (part matches Some(p) ==> res@ == p@),
        whole is None && part is None ==> res.insert_text is None && res.answer@ == text::stripped(
            raw@,
        ),
        whole is None && part is None && (exists|i: int|
            0 <= i < raw@.len() && !text::is_white_space(#[trigger] raw@[i])) ==> res.answer@.len()
            > 0,
{
    text::law_substance(raw@);
    text::law_stripped(raw@);
}

/// The application in front is read from a line as it stands there: the identifier before the tab, the
/// name after it. The own application and a line without an identifier name none.
pub proof fn law_app_info(bundle: Seq<char>, name: Seq<char>)
    requires
        !bundle.contains('\t'),
    ensures
        bundle.len() > 0 && bundle != "dk.holion.call-recorder"@ ==> ({
            &&& app_info(bundle + "\t"@ + name).0 == Some(bundle)
            &&& name.len() > 0 ==> app_info(bundle + "\t"@ + name).1 == Some(name)
            &&& name.len() == 0 ==> app_info(bundle + "\t"@ + name).1 is None
            &&& app_info(bundle) == (Some(bundle), None::<Seq<char>>)
        }),
        bundle.len() == 0 || bundle == "dk.holion.call-recorder"@ ==> app_info(
            bundle + "\t"@ + name,
        ) == (None::<Seq<char>>, None::<Seq<char>>) && app_info(bundle) == (
            None::<Seq<char>>,
            None::<Seq<char>>,
        ),
{
    reveal_strlit("\t");
    let line = bundle + "\t"@ + name;
    let n = bundle.len() as int;
    text::lemma_find_char(line, '\t');
    text::lemma_find_char(bundle, '\t');
    assert(line[n] == '\t');
    assert(line.contains('\t'));
    let k = text::find(line, seq!['\t'])->0;
    if k < n {
        assert(line[k] == bundle[k]);
    }
    if k > n {
        assert(line[n] != '\t');
    }
    assert(line.take(n) =~= bundle);
    assert(line.skip(n + 1) =~= name);
}

/// A browser is asked for the title of its tab by its own name, and no other application is asked.
pub proof fn law_tab_script(app_name: &str, bundle_id: &str, res: Option<String>)
    requires
        call_ensures(tab_title_script, (app_name, bundle_id), res),
    ensures
        bundle_id@ == "com.apple.Safari"@ ==> res is Some && text::occurs(res->0@, "Safari"@),
        bundle_id@ != "com.apple.Safari"@ && chromium_bundle_ids().contains(bundle_id@)
            ==> res is Some && text::occurs(res->0@, "\""@ + app_name@ + "\""@),
        res is Some <==> bundle_id@ == "com.apple.Safari"@ || bundle_id@
            == "company.thebrowser.Browser"@ || bundle_id@ == "com.google.Chrome"@ || bundle_id@
            == "com.brave.Browser"@ || bundle_id@ == "com.microsoft.edgemac"@ || bundle_id@
            == "org.chromium.Chromium"@ || bundle_id@ == "com.operasoftware.Opera"@ || bundle_id@
            == "com.vivaldi.Vivaldi"@,
{
    let ids = chromium_bundle_ids();
    assert(ids[0] == "company.thebrowser.Browser"@ && ids[1] == "com.google.Chrome"@ && ids[2]
        == "com.brave.Browser"@ && ids[3] == "com.microsoft.edgemac"@);
    assert(ids[4] == "org.chromium.Chromium"@ && ids[5] == "com.operasoftware.Opera"@ && ids[6]
        == "com.vivaldi.Vivaldi"@);
    if bundle_id@ == "com.apple.Safari"@ {
        reveal_strlit("tell application \"Safari\" to get name of current tab of front window");
        reveal_strlit("Safari");
        let t = res->0@;
        assert(t.subrange(18, 24) =~= "Safari"@);
        assert(text::occurs_at(t, "Safari"@, 18));
    } else if ids.contains(bundle_id@) {
        reveal_strlit("tell application \"");
        reveal_strlit("\" to get title of active tab of front window");
        reveal_strlit("\"");
        let t = res->0@;
        let named = "\""@ + app_name@ + "\""@;
        assert(t.subrange(17, 17int + named.len()) =~= named);
        assert(text::occurs_at(t, named, 17));
    }
}

/// The model is told of the application in front exactly where one is known: its name, and the title of
/// its tab where that is known.
pub proof fn law_app_context(app_name: Option<&str>, tab_title: Option<&str>, res: Option<String>)
    requires
        call_ensures(app_context, (app_name, tab_title), res),
    ensures
        res is Some <==> app_name is Some,
        app_name matches Some(name) ==> text::occurs(res->0@, "Aktiv app: "@ + name@ + "."@),
        app_name is Some ==> (tab_title matches Some(title) ==> text::occurs(
            res->0@,
            "Aktiv tab: \""@ + title@ + "\"."@,
        )),
{
    if let Some(name) = app_name {
        reveal_strlit("Aktiv app: ");
        reveal_strlit(".");
        reveal_strlit("\".");
        reveal_strlit(".\nAktiv tab: \"");
        reveal_strlit("Aktiv tab: \"");
        let t = res->0@;
        let told = "Aktiv app: "@ + name@ + "."@;
        assert(t.subrange(0, told.len() as int) =~= told);
        assert(text::occurs_at(t, told, 0));
        if let Some(title) = tab_title {
            let tab = "Aktiv tab: \""@ + title@ + "\"."@;
            let k = 13int + name@.len();
            assert(t.subrange(k, k + tab.len()) =~= tab);
            assert(text::occurs_at(t, tab, k));
        }
    }
}

/// The user message holds the prompt as it is, the context first where there is one, and the screenshot
/// last, with the guidance before it, where there is one. It has nothing else.
pub proof fn law_user_content(
    prompt: &str,
    guidance: &str,
    screenshot: Option<&[u8]>,
    context: Option<&str>,
    res: MessageContent,
)
    requires
        call_ensures(user_content, (prompt, guidance, screenshot, context), res),
    ensures
        res@ is Plain <==> screenshot is None && context is None,
        res@ is Plain ==> res@->Plain_0 == prompt@,
        res@ is Parts ==> ({
            let parts = res@->Parts_0;
            let n = parts.len() as int;
            &&& n == (if context is Some {
                1int
            } else {
                0
            }) + (if screenshot is Some {
                3int
            } else {
                1
            })
            &&& context matches Some(c) ==> parts[0] == PartView::Text(c@)
            &&& screenshot is None ==> parts[n - 1] == PartView::Text(prompt@)
            &&& screenshot matches Some(bytes) ==> parts[n - 3] == PartView::Text(guidance@)
                && parts[n - 2] == PartView::Text(prompt@) && parts[n - 1] == PartView::ImageUrl(
                "data:image/jpeg;base64,"@ + base64(bytes@),
            )
        }),
{
}

/// A response is taken for an answer exactly where it is a success that could be read and offers one, and
/// then for the first that it offers; else the error tells what the service said.
pub proof fn law_answer_of_response(
    success: bool,
    status: &str,
    body: ResponseBody,
    res: Result<Choice, String>,
)
    requires
        call_ensures(answer_of_response, (success, status, body), res),
    ensures
        res is Ok <==> success && body is Read && body->choices is Ok && body->choices->Ok_0@.len()
            > 0,
        res matches Ok(c) ==> c == body->choices->Ok_0@[0],
        !success ==> text::occurs(res->Err_0@, status@),
        !success && body is Read ==> text::occurs(res->Err_0@, body->text@),
        success && body is Unread ==> text::occurs(res->Err_0@, body->Unread_0@),
        success && body is Read && body->choices is Err ==> text::occurs(
            res->Err_0@,
            body->choices->Err_0@,
        ),
{
    let e = Seq::<char>::empty();
    if !success {
        let said = match body {
            ResponseBody::Unread(_) => e,
            ResponseBody::Read { text, choices: _ } => text@,
        };
        let t = res->Err_0@;
        assert(t =~= "OpenAI API fejl "@ + status@ + (": "@ + said));
        text::law_occurs_between("OpenAI API fejl "@, status@, ": "@ + said);
        assert(t =~= ("OpenAI API fejl "@ + status@ + ": "@) + said + e);
        text::law_occurs_between("OpenAI API fejl "@ + status@ + ": "@, said, e);
    } else {
        match body {
            ResponseBody::Unread(reason) => {
                let head = "Kunne ikke læse OpenAI JSON-svar: "@;
                assert(res->Err_0@ =~= head + reason@ + e);
                text::law_occurs_between(head, reason@, e);
            },
            ResponseBody::Read { text: _, choices: Err(reason) } => {
                let head = "Kunne ikke parse OpenAI JSON-svar: "@;
                assert(res->Err_0@ =~= head + reason@ + e);
                text::law_occurs_between(head, reason@, e);
            },
            _ => {},
        }
    }
}

/// A query is put to the model exactly where there is a key. The screenshot goes with it where the
/// command asks to look at the screen, and only there; and a text to insert is wanted where the command
/// asks for one, and only there. What is shown is the command, for the application that was in front.
pub proof fn law_start_query(
    command: &str,
    openai_key: Option<&str>,
    screenshot: Option<Vec<u8>>,
    app_name: Option<&str>,
    tab_title: Option<&str>,
    target_bundle_id: Option<&str>,
    res: QueryStart,
)
    requires
        call_ensures(
            start_query,
            (command, openai_key, screenshot, app_name, tab_title, target_bundle_id),
            res,
        ),
    ensures
        res is Ask <==> openai_key is Some && exists|i: int|
            0 <= i < openai_key->0@.len() && !text::is_white_space(#[trigger] openai_key->0@[i]),
        res matches QueryStart::Ask { state, api_key, screenshot: used, context, require_insert_text }
            ==> ({
            &&& text::occurs(openai_key->0@, api_key@)
            &&& state@.prompt == command@ && state@.response is None && !state@.is_error
            &&& state@.target_bundle_id == text::opt_str(target_bundle_id)
            &&& asks_to_look(text::lowercase(command@)) ==> used == screenshot
            &&& !asks_to_look(text::lowercase(command@)) ==> used is None
            &&& require_insert_text <==> asks_for_draft(text::lowercase(command@))
            &&& context is Some <==> app_name is Some
        }),
        res matches QueryStart::NoKey { state } ==> state@.prompt == command@ && state@.is_error
            && state@.response is Some && state@.insert_text is None && state@.target_bundle_id
            == text::opt_str(target_bundle_id),
{
    lemma_asks_to_look(text::lowercase(command@));
    lemma_asks_for_draft(text::lowercase(command@));
    text::law_substance(match openai_key {
        Some(k) => k@,
        None => Seq::empty(),
    });
}

/// What a query came to is shown: the answer and the text to insert as they are, or what went wrong.
pub proof fn law_finish_query(
    command: &str,
    target_bundle_id: Option<&str>,
    outcome: Result<AnnaPayload, String>,
    res: AnnaStateData,
)
    requires
        call_ensures(finish_query, (command, target_bundle_id, outcome), res),
    ensures
        res@.is_error <==> outcome is Err,
        res@.prompt == command@,
        res@.target_bundle_id == text::opt_str(target_bundle_id),
        outcome matches Ok(p) ==> res@.response == Some(p.answer@) && res@.insert_text == text::opt(
            p.insert_text,
        ),
        outcome matches Err(e) ==> res@.insert_text is None && res@.response is Some
            && text::occurs(res@.response->0, e@),
{
    if let Err(e) = outcome {
        let none = Seq::<char>::empty();
        assert("Fejl: "@ + e@ =~= "Fejl: "@ + e@ + none);
        text::law_occurs_between("Fejl: "@, e@, none);
    }
}

/// What the window script printed is read as a number exactly where it is one, with or without white
/// space around it.
pub proof fn law_window_id(before: Seq<char>, id: nat, after: Seq<char>)
    requires
        forall|i: int| 0 <= i < before.len() ==> text::is_white_space(#[trigger] before[i]),
        forall|i: int| 0 <= i < after.len() ==> text::is_white_space(#[trigger] after[i]),
    ensures
        number::parsed(
            text::stripped(before + number::decimal(id) + after),
            u32::MAX as nat,
        ) == (if id <= u32::MAX {
            Some(id)
        } else {
            None
        }),
{
    number::law_decimal_reads_back(id);
    let d = number::decimal(id);
    assert(number::is_digit(d[0]) && number::is_digit(d[d.len() - 1]));
    text::law_trimmed(before, d, after, text::CharClass::WhiteSpace);
}

/// The application in front is told as the script printed it, and none is where the script failed.
pub proof fn law_frontmost_app(
    success: bool,
    stdout: &[u8],
    bundle: Seq<char>,
    name: Seq<char>,
    res: (Option<String>, Option<String>),
)
    requires
        call_ensures(frontmost_app_info, (success, stdout), res),
        valid_utf8(stdout@),
        decode_utf8(stdout@) == bundle + "\t"@ + name + "\n"@,
        !bundle.contains('\t'),
        bundle.len() > 0 && !text::is_white_space(bundle[0]),
        name.len() > 0 && !text::is_white_space(name.last()),
    ensures
        !success ==> res.0 is None && res.1 is None,
        success && bundle != "dk.holion.call-recorder"@ ==> res.0 is Some && res.0->0@ == bundle
            && res.1 is Some && res.1->0@ == name,
        success && bundle == "dk.holion.call-recorder"@ ==> res.0 is None && res.1 is None,
{
    reveal_strlit("\t");
    reveal_strlit("\n");
    let line = bundle + "\t"@ + name;
    let none = Seq::<char>::empty();
    assert(decode_utf8(stdout@) =~= none + line + seq!['\n']);
    assert(line[0] == bundle[0] && line.last() == name.last());
    text::law_trimmed(none, line, seq!['\n'], text::CharClass::WhiteSpace);
    law_app_info(bundle, name);
}

/// A tab has a title exactly where the script succeeded and printed more than white space.
pub proof fn law_tab_title(success: bool, stdout: &[u8], res: Option<String>)
    requires
        call_ensures(parse_tab_title, (success, stdout), res),
        valid_utf8(stdout@),
    ensures
        ({
            let printed = decode_utf8(stdout@);
            &&& res is Some <==> success && exists|i: int|
                0 <= i < printed.len() && !text::is_white_space(#[trigger] printed[i])
            &&& res matches Some(t) ==> t@ == text::stripped(printed)
        }),
{
    text::law_substance(decode_utf8(stdout@));
}

/// Each attempt goes with a guidance of its own.
pub proof fn law_guidance_differs(a: Attempt, b: Attempt, for_a: &'static str, for_b: &'static str)
    requires
        call_ensures(guidance, (a,), for_a),
        call_ensures(guidance, (b,), for_b),
    ensures
        for_a@ == for_b@ <==> a == b,
{
    lemma_guidance_starts();
}

proof fn lemma_guidance_starts()
    ensures
        guidance_text(Attempt::Primary)[0] == 'D',
        guidance_text(Attempt::Retry)[0] == 'B',
        guidance_text(Attempt::Strict)[0] == 'V',
{
    reveal_strlit(
        "Der er vedhæftet et skærmbillede. Brug det aktivt til dit svar. \
            Skriv ikke, at du ikke kan se billedet. Hvis noget er uklart, skriv præcist hvad der er uklart. \
            Tilpas formalitet og længde til mediet i screenshotet (mail vs chat).",
    );
    reveal_strlit(
        "Brugeren ønsker hjælp til at formulere et venligt, harmløst tekstsvar. \
            Brug samme sprog som i samtalen/teksten i screenshotet. Hvis uklart, brug dansk. \
            Svar kort, konkret og uden ekstra sikkerhedsformuleringer.",
    );
    reveal_strlit(
        "VIGTIGT: Returnér KUN gyldig JSON i formatet \
            {\"answer\":\"...\",\"insert_text\":\"...\"}. \
            insert_text MÅ IKKE være null eller tom. \
            insert_text skal være den nøjagtige tekst, der skal indsættes direkte, \
            uden introduktioner eller forklaringer.",
    );
}

/// A screenshot is warned of exactly where it is over eight million bytes.
pub proof fn law_screenshot_warning(len: usize, res: Option<&'static str>)
    requires
        call_ensures(screenshot_warning, (len,), res),
    ensures
        res is Some <==> len > 8_000_000,
{
}

/// The model is asked once, with the task first and then the user message as it is.
pub proof fn law_chat_request(user: MessageContent, res: ChatRequest)
    requires
        call_ensures(chat_request, (user,), res),
    ensures
        res.messages@.len() == 2,
        res.messages@[0].content@ is Plain,
        res.messages@[1].content == user,
        res.messages@[0].role@ != res.messages@[1].role@,
{
    reveal_strlit("system");
    reveal_strlit("user");
    assert("system"@.len() == 6 && "user"@.len() == 4);
}

} // verus!
