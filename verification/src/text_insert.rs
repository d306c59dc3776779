//! Insertion of text into the application in front: through the clipboard and a paste key stroke.

use vstd::prelude::*;
use vstd::slice::*;
use vstd::string::*;

use crate::number;
use crate::number::to_decimal;
use crate::text;
use crate::text::chars_of;

verus! {

// ── Platforms ──────────────────────────────────────────────────────────

#[derive(Debug, Clone, Copy, PartialEq, Eq, Structural)]
pub enum Platform {
    MacOs,
    Windows,
    Other,
}

/// How a text is inserted.
#[derive(Debug, Clone, Copy, PartialEq, Eq, Structural)]
pub enum InsertPlan {
    /// There is nothing to insert.
    Nothing,
    /// Put the text on the clipboard, wait and paste.
    Paste,
    /// The same, and put back on the clipboard what was there.
    PasteAndRestore,
}

/// How a text is inserted on a platform.
pub fn insert_text(text: &str, platform: Platform) -> (res: Result<InsertPlan, String>)
    ensures
        match platform {
            Platform::MacOs => res == Ok::<_, String>(InsertPlan::Paste),
            Platform::Windows => res == Ok::<_, String>(
                if text@.len() == 0 {
                    InsertPlan::Nothing
                } else {
                    InsertPlan::PasteAndRestore
                },
            ),
            Platform::Other => res matches Err(e) && e@
                == "Tekstindsættelse er kun understøttet på macOS og Windows"@,
        },
{
    match platform {
        Platform::MacOs => Ok(InsertPlan::Paste),
        Platform::Windows => if text.is_empty() {
            Ok(InsertPlan::Nothing)
        } else {
            Ok(InsertPlan::PasteAndRestore)
        },
        Platform::Other => Err(
            "Tekstindsættelse er kun understøttet på macOS og Windows".to_owned(),
        ),
    }
}

/// The script that brings an application to the front. Only on macOS there is one to run.
pub fn activate_app_by_bundle_id(bundle_id: &str, platform: Platform) -> (res: Option<String>)
    ensures
        text::opt(res) == (match platform {
            Platform::MacOs => Some("tell application id \""@ + bundle_id@ + "\" to activate"@),
            _ => None,
        }),
{
    match platform {
        Platform::MacOs => {
            let mut script = "tell application id \"".to_owned();
            script.append(bundle_id);
            script.append("\" to activate");
            Some(script)
        },
        _ => None,
    }
}

/// How the script that brings an application to the front ended.
pub enum ScriptEnd {
    /// It could not be run; the reason is given.
    NotRun(String),
    Failed,
    Succeeded,
}

/// Whether an application came to the front.
pub fn activation_result(bundle_id: &str, end: &ScriptEnd) -> (res: Result<(), String>)
    ensures
        match end {
            ScriptEnd::NotRun(reason) => res matches Err(e) && e@ == "Kunne ikke aktivere app "@
                + bundle_id@ + ": "@ + reason@,
            ScriptEnd::Failed => res matches Err(e) && e@ == "Aktivering af app "@ + bundle_id@
                + " fejlede"@,
            ScriptEnd::Succeeded => res is Ok,
        },
{
    match end {
        ScriptEnd::NotRun(reason) => {
            let mut message = "Kunne ikke aktivere app ".to_owned();
            message.append(bundle_id);
            message.append(": ");
            message.append(reason.as_str());
            Err(message)
        },
        ScriptEnd::Failed => {
            let mut message = "Aktivering af app ".to_owned();
            message.append(bundle_id);
            message.append(" fejlede");
            Err(message)
        },
        ScriptEnd::Succeeded => Ok(()),
    }
}

// ── Paste on macOS ─────────────────────────────────────────────────────

/// The flag of an event during which the Command key is held.
pub const EVENT_FLAG_COMMAND: u64 = 0x0010_0000;

pub const MAC_KEY_COMMAND: u16 = 0x37;

pub const MAC_KEY_V: u16 = 0x09;

/// A key that goes down or up on macOS, with the flags that its event is given, if any.
#[derive(Debug, Clone, Copy, PartialEq, Eq, Structural)]
pub struct MacKey {
    pub key: u16,
    pub down: bool,
    pub flags: Option<u64>,
}

/// The key strokes that paste on macOS: Command down, V down and up while it is held, Command up.
/// They need the permission to control the computer.
pub fn simulate_paste(trusted: bool) -> (res: Result<[MacKey; 4], String>)
    ensures
        match res {
            Ok(keys) => trusted && keys@ == seq![
                MacKey { key: MAC_KEY_COMMAND, down: true, flags: None },
                MacKey { key: MAC_KEY_V, down: true, flags: Some(EVENT_FLAG_COMMAND) },
                MacKey { key: MAC_KEY_V, down: false, flags: Some(EVENT_FLAG_COMMAND) },
                MacKey { key: MAC_KEY_COMMAND, down: false, flags: None },
            ],
            Err(e) => !trusted && e@
                == "Accessibility-tilladelse mangler — giv tilladelse i Systemindstillinger > Sikkerhed > Tilgængelighed"@,
        },
{
    if !trusted {
        return Err(
            "Accessibility-tilladelse mangler — giv tilladelse i Systemindstillinger > Sikkerhed > Tilgængelighed".to_owned(),
        );
    }
    Ok(
        [
            MacKey { key: MAC_KEY_COMMAND, down: true, flags: None },
            MacKey { key: MAC_KEY_V, down: true, flags: Some(EVENT_FLAG_COMMAND) },
            MacKey { key: MAC_KEY_V, down: false, flags: Some(EVENT_FLAG_COMMAND) },
            MacKey { key: MAC_KEY_COMMAND, down: false, flags: None },
        ],
    )
}

// ── Paste on Windows ───────────────────────────────────────────────────

/// The flag of a key that goes up.
pub const KEYEVENTF_KEYUP: u32 = 0x0002;

pub const VK_CONTROL: u16 = 0x11;

pub const VK_V: u16 = 0x56;

/// A key event as Windows takes it.
#[derive(Debug, Clone, Copy, PartialEq, Eq, Structural)]
pub struct KeybdInput {
    pub w_vk: u16,
    pub w_scan: u16,
    pub dw_flags: u32,
    pub time: u32,
    pub dw_extra_info: usize,
}

/// The event of a key that goes down or up.
pub open spec fn key_event(vk: u16, key_up: bool) -> KeybdInput {
    KeybdInput {
        w_vk: vk,
        w_scan: 0,
        dw_flags: if key_up {
            KEYEVENTF_KEYUP
        } else {
            0
        },
        time: 0,
        dw_extra_info: 0,
    }
}

/// The event of a key that goes down or up.
pub fn key_input(vk: u16, key_up: bool) -> (res: KeybdInput)
    ensures
        res == key_event(vk, key_up),
{
    KeybdInput {
        w_vk: vk,
        w_scan: 0,
        dw_flags: if key_up {
            KEYEVENTF_KEYUP
        } else {
            0
        },
        time: 0,
        dw_extra_info: 0,
    }
}

/// The key events that paste on Windows: Control down, V down, V up, Control up.
pub fn ctrl_v_inputs() -> (res: [KeybdInput; 4])
    ensures
        res@ == seq![
            key_event(VK_CONTROL, false),
            key_event(VK_V, false),
            key_event(VK_V, true),
            key_event(VK_CONTROL, true),
        ],
{
    [
        key_input(VK_CONTROL, false),
        key_input(VK_V, false),
        key_input(VK_V, true),
        key_input(VK_CONTROL, true),
    ]
}

/// Whether the key events that paste were all sent, from how many of `total` were.
pub fn simulate_ctrl_v(sent: u32, total: u32) -> (res: Result<(), String>)
    ensures
        match res {
            Ok(()) => sent == total,
            Err(e) => sent != total && e@ == "Windows Ctrl+V sendte kun "@ + number::decimal(
                sent as nat,
            ) + "/"@ + number::decimal(total as nat) + " input-events"@,
        },
{
    if sent == total {
        return Ok(());
    }
    let mut message = "Windows Ctrl+V sendte kun ".to_owned();
    let sent = to_decimal(sent as u64);
    message.append(sent.as_str());
    message.append("/");
    let total = to_decimal(total as u64);
    message.append(total.as_str());
    message.append(" input-events");
    Err(message)
}

// ── Clipboard of Windows ───────────────────────────────────────────────

/// A character in UTF-16: one unit, or the two of a surrogate pair.
pub open spec fn utf16_char(c: char) -> Seq<u16> {
    let u = c as u32;
    if u < 0x1_0000 {
        seq![u as u16]
    } else {
        seq![
            (0xd800 + (u - 0x1_0000) / 0x400) as u16,
            (0xdc00 + (u - 0x1_0000) % 0x400) as u16,
        ]
    }
}

/// A text in UTF-16.
pub open spec fn utf16(s: Seq<char>) -> Seq<u16>
    decreases s.len(),
{
    if s.len() == 0 {
        Seq::empty()
    } else {
        utf16(s.drop_last()) + utf16_char(s.last())
    }
}

/// The text that UTF-16 units stand for, as `String::from_utf16_lossy` decodes them.
pub uninterp spec fn utf16_text(units: Seq<u16>) -> Seq<char>;

/// `String::from_utf16_lossy`: the text that the units stand for. Units that are the UTF-16 of a text
/// give that text; what stands for others is not said here.
#[verifier::external_body]
fn decode_utf16(units: &[u16]) -> (res: String)
    ensures
        res@ == utf16_text(units@),
        forall|s: Seq<char>| #[trigger] utf16(s) == units@ ==> res@ == s,
{
    String::from_utf16_lossy(units)
}

/// A text as it is put on the clipboard: its UTF-16, and a zero at the end.
pub fn clipboard_units(text: &str) -> (res: Vec<u16>)
    ensures
        res@ == utf16(text@).push(0),
{
    let chars = chars_of(text);
    let mut units: Vec<u16> = Vec::new();
    let mut i: usize = 0;
    while i < chars.len()
        invariant
            i <= chars@.len(),
            chars@ == text@,
            units@ == utf16(text@.take(i as int)),
        decreases chars@.len() - i,
    {
        let c: char = chars[i];
        let c: u32 = c as u32;
        proof {
            vstd::utf8::char_is_scalar(chars@[i as int]);
        }
        let ghost before = units@;
        if c < 0x1_0000 {
            units.push(c as u16);
        } else {
            units.push((0xd800 + (c - 0x1_0000) / 0x400) as u16);
            units.push((0xdc00 + (c - 0x1_0000) % 0x400) as u16);
        }
        proof {
            let t = text@.take(i + 1);
            assert(t.drop_last() =~= text@.take(i as int));
            assert(units@ =~= before + utf16_char(t.last()));
        }
        i += 1;
    }
    assert(text@.take(i as int) =~= text@);
    units.push(0);
    units
}

/// What comes before the first zero.
pub open spec fn before_zero(units: Seq<u16>) -> Seq<u16>
    decreases units.len(),
{
    if units.len() == 0 || units[0] == 0 {
        Seq::empty()
    } else {
        seq![units[0]] + before_zero(units.drop_first())
    }
}

/// The text on the clipboard, from its units up to the first zero.
pub fn clipboard_text(units: &[u16]) -> (res: String)
    ensures
        res@ == utf16_text(before_zero(units@)),
        forall|s: Seq<char>| #[trigger] utf16(s) == before_zero(units@) ==> res@ == s,
{
    let mut n: usize = 0;
    assert(units@.skip(0) =~= units@);
    assert(units@.take(0) =~= Seq::empty());
    while n < units.len() && units[n] != 0
        invariant
            n <= units@.len(),
            units@.take(n as int) + before_zero(units@.skip(n as int)) =~= before_zero(units@),
        decreases units@.len() - n,
    {
        assert(units@.skip(n as int).drop_first() =~= units@.skip(n + 1));
        assert(units@.take(n + 1) =~= units@.take(n as int) + seq![units@[n as int]]);
        n += 1;
    }
    assert(before_zero(units@.skip(n as int)) =~= Seq::empty());
    decode_utf16(slice_subrange(units, 0, n))
}

/// The UTF-16 of a text without the zero character holds no zero, so what is put on the clipboard
/// ends at its only zero.
pub proof fn law_clipboard_keeps_the_text(s: Seq<char>)
    requires
        !s.contains('\0'),
    ensures
        before_zero(utf16(s).push(0)) == utf16(s),
{
    lemma_no_zero(s);
    lemma_before_zero(utf16(s));
}

proof fn lemma_no_zero(s: Seq<char>)
    requires
        !s.contains('\0'),
    ensures
        !utf16(s).contains(0),
    decreases s.len(),
{
    if s.len() > 0 {
        let init = s.drop_last();
        assert(s.contains(s.last()));
        assert forall|c: char| init.contains(c) implies s.contains(c) by {
            let i = choose|i: int| 0 <= i < init.len() && init[i] == c;
            assert(s[i] == c);
        }
        lemma_no_zero(init);
        let c: char = s.last();
        vstd::utf8::char_is_scalar(c);
        vstd::utf8::char_u32_cast(c, c as u32);
        assert(c as u32 != 0);
        assert(forall|i: int| 0 <= i < utf16_char(c).len() ==> utf16_char(c)[i] != 0);
        let u = utf16(s);
        if u.contains(0) {
            let i = choose|i: int| 0 <= i < u.len() && u[i] == 0;
            if i < utf16(init).len() {
                assert(utf16(init)[i] == 0);
            } else {
                assert(utf16_char(s.last())[i - utf16(init).len()] == 0);
            }
        }
    }
}

proof fn lemma_before_zero(units: Seq<u16>)
    requires
        !units.contains(0),
    ensures
        before_zero(units.push(0)) == units,
    decreases units.len(),
{
    if units.len() > 0 {
        let rest = units.drop_first();
        assert(units.contains(units[0]));
        assert forall|u: u16| rest.contains(u) implies units.contains(u) by {
            let i = choose|i: int| 0 <= i < rest.len() && rest[i] == u;
            assert(units[i + 1] == u);
        }
        lemma_before_zero(rest);
        assert(units.push(0).drop_first() =~= rest.push(0));
        assert(seq![units[0]] + rest =~= units);
    } else {
        assert(before_zero(units.push(0)) =~= units);
    }
}

// ── Laws ───────────────────────────────────────────────────────────────

/// A text that is put on the clipboard is the text that is read from it.
pub proof fn law_clipboard_round_trip(s: &str, units: Vec<u16>, slice: &[u16], res: String)
    requires
        call_ensures(clipboard_units, (s,), units),
        slice@ == units@,
        call_ensures(clipboard_text, (slice,), res),
        !s@.contains('\0'),
    ensures
        res@ == s@,
        units@.len() > 0 && units@.last() == 0,
{
    law_clipboard_keeps_the_text(s@);
}

/// The UTF-16 of a text is that of its characters, one after the other: a unit for each character of the
/// basic plane, which is its number, and a surrogate pair for another one.
pub proof fn law_utf16(a: Seq<char>, b: Seq<char>, c: char)
    ensures
        utf16(a + b) == utf16(a) + utf16(b),
        (c as u32) < 0x1_0000 ==> utf16(seq![c]) == seq![c as u32 as u16],
        c as u32 >= 0x1_0000 ==> ({
            let u = utf16(seq![c]);
            &&& u.len() == 2
            &&& 0xd800 <= u[0] < 0xdc00
            &&& 0xdc00 <= u[1] < 0xe000
            &&& 0x1_0000 + (u[0] - 0xd800) * 0x400 + (u[1] - 0xdc00) == c as u32
        }),
    decreases b.len(),
{
    let one = seq![c];
    assert(one.drop_last() =~= Seq::empty());
    assert(utf16(one.drop_last()) =~= Seq::empty());
    assert(utf16(one) =~= utf16_char(c));
    vstd::utf8::char_is_scalar(c);
    if b.len() == 0 {
        assert(a + b =~= a);
        assert(utf16(a) + utf16(b) =~= utf16(a));
    } else {
        law_utf16(a, b.drop_last(), c);
        assert((a + b).drop_last() =~= a + b.drop_last());
        assert(utf16(a + b) =~= utf16(a) + utf16(b));
    }
}

/// What is read from the clipboard ends at its first zero, wherever that stands.
pub proof fn law_before_zero(units: Seq<u16>, after: Seq<u16>)
    requires
        !units.contains(0),
    ensures
        before_zero(units + seq![0u16] + after) == units,
        before_zero(units) == units,
    decreases units.len(),
{
    let all = units + seq![0u16] + after;
    if units.len() > 0 {
        let rest = units.drop_first();
        assert(units.contains(units[0]));
        assert forall|u: u16| rest.contains(u) implies units.contains(u) by {
            let i = choose|i: int| 0 <= i < rest.len() && rest[i] == u;
            assert(units[i + 1] == u);
        }
        law_before_zero(rest, after);
        assert(all.drop_first() =~= rest + seq![0u16] + after);
        assert(seq![units[0]] + rest =~= units);
    } else {
        assert(before_zero(all) =~= units);
        assert(before_zero(units) =~= units);
    }
}

/// A text is inserted by pasting on macOS and, unless it is empty, on Windows, where what was on the
/// clipboard is put back; elsewhere that is refused.
pub proof fn law_insert_text(t: &str, platform: Platform, res: Result<InsertPlan, String>)
    requires
        call_ensures(insert_text, (t, platform), res),
    ensures
        res is Err <==> platform == Platform::Other,
        platform == Platform::MacOs ==> res->Ok_0 == InsertPlan::Paste,
        platform == Platform::Windows && t@.len() > 0 ==> res->Ok_0 == InsertPlan::PasteAndRestore,
        platform == Platform::Windows && t@.len() == 0 ==> res->Ok_0 == InsertPlan::Nothing,
{
}

/// The key strokes that paste leave no key down: each key that goes down goes up again, V within the
/// modifier. On macOS they need the permission.
pub proof fn law_paste_keys(
    trusted: bool,
    mac: Result<[MacKey; 4], String>,
    windows: [KeybdInput; 4],
)
    requires
        call_ensures(simulate_paste, (trusted,), mac),
        call_ensures(ctrl_v_inputs, (), windows),
    ensures
        mac is Ok <==> trusted,
        mac matches Ok(k) ==> k@[0].key == k@[3].key && k@[1].key == k@[2].key && k@[0].down
            && k@[1].down && !k@[2].down && !k@[3].down && k@[0].key == 0x37 && k@[1].key == 0x09
            && k@[1].flags == Some(0x10_0000u64) && k@[2].flags == Some(0x10_0000u64),
        windows@[0].w_vk == windows@[3].w_vk && windows@[1].w_vk == windows@[2].w_vk,
        windows@[0].w_vk == 0x11 && windows@[1].w_vk == 0x56,
        windows@[0].dw_flags == 0 && windows@[1].dw_flags == 0,
        windows@[2].dw_flags == 2 && windows@[3].dw_flags == 2,
{
}

/// Pasting on Windows went well exactly where all key events were sent; else the error says how many
/// were.
pub proof fn law_all_keys_sent(sent: u32, total: u32, res: Result<(), String>)
    requires
        call_ensures(simulate_ctrl_v, (sent, total), res),
    ensures
        res is Ok <==> sent == total,
        res matches Err(e) ==> text::occurs(
            e@,
            number::decimal(sent as nat) + "/"@ + number::decimal(total as nat),
        ),
{
    if sent != total {
        let told = number::decimal(sent as nat) + "/"@ + number::decimal(total as nat);
        let head = "Windows Ctrl+V sendte kun "@;
        assert(res->Err_0@ =~= head + told + " input-events"@);
        text::law_occurs_between(head, told, " input-events"@);
    }
}

/// An application came to the front exactly where the script succeeded; else the error names the
/// application, and the reason where there is one.
pub proof fn law_activation(bundle_id: &str, end: &ScriptEnd, res: Result<(), String>)
    requires
        call_ensures(activation_result, (bundle_id, end), res),
    ensures
        res is Ok <==> *end is Succeeded,
        res matches Err(e) ==> text::occurs(e@, bundle_id@),
        *end matches ScriptEnd::NotRun(reason) ==> text::occurs(res->Err_0@, reason@),
{
    let none = Seq::<char>::empty();
    match *end {
        ScriptEnd::NotRun(reason) => {
            let head = "Kunne ikke aktivere app "@;
            let t = res->Err_0@;
            assert(t =~= head + bundle_id@ + (": "@ + reason@));
            text::law_occurs_between(head, bundle_id@, ": "@ + reason@);
            assert(t =~= (head + bundle_id@ + ": "@) + reason@ + none);
            text::law_occurs_between(head + bundle_id@ + ": "@, reason@, none);
        },
        ScriptEnd::Failed => {
            text::law_occurs_between("Aktivering af app "@, bundle_id@, " fejlede"@);
        },
        ScriptEnd::Succeeded => {},
    }
}

/// A script brings exactly the application of the given identifier to the front, and only on macOS.
pub proof fn law_activation_script(bundle_id: &str, platform: Platform, res: Option<String>)
    requires
        call_ensures(activate_app_by_bundle_id, (bundle_id, platform), res),
    ensures
        res is Some <==> platform == Platform::MacOs,
        res matches Some(script) ==> text::occurs(script@, "id \""@ + bundle_id@ + "\" to activate"@),
{
    if platform == Platform::MacOs {
        reveal_strlit("tell application id \"");
        reveal_strlit("id \"");
        let named = "id \""@ + bundle_id@ + "\" to activate"@;
        let t = res->0@;
        assert(t.subrange(17, 17int + named.len()) =~= named);
        assert(text::occurs_at(t, named, 17));
    }
}

} // verus!
