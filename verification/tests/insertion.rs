use call_recorder::text_insert::{
    activate_app_by_bundle_id, activation_result, clipboard_text, clipboard_units, ctrl_v_inputs,
    insert_text, key_input, simulate_ctrl_v, simulate_paste, InsertPlan, Platform, ScriptEnd,
};

#[test]
fn insertion_depends_on_the_platform() {
    assert_eq!(insert_text("a", Platform::MacOs), Ok(InsertPlan::Paste));
    assert_eq!(insert_text("", Platform::MacOs), Ok(InsertPlan::Paste));
    assert_eq!(insert_text("a", Platform::Windows), Ok(InsertPlan::PasteAndRestore));
    assert_eq!(insert_text("", Platform::Windows), Ok(InsertPlan::Nothing));
    assert_eq!(
        insert_text("a", Platform::Other),
        Err("Tekstindsættelse er kun understøttet på macOS og Windows".to_string())
    );
}

#[test]
fn applications_are_activated_on_macos() {
    assert_eq!(
        activate_app_by_bundle_id("com.apple.mail", Platform::MacOs).as_deref(),
        Some("tell application id \"com.apple.mail\" to activate")
    );
    assert_eq!(activate_app_by_bundle_id("com.apple.mail", Platform::Windows), None);
    assert_eq!(activate_app_by_bundle_id("com.apple.mail", Platform::Other), None);
    assert_eq!(activation_result("b", &ScriptEnd::Succeeded), Ok(()));
    assert_eq!(
        activation_result("b", &ScriptEnd::Failed),
        Err("Aktivering af app b fejlede".to_string())
    );
    assert_eq!(
        activation_result("b", &ScriptEnd::NotRun("x".to_string())),
        Err("Kunne ikke aktivere app b: x".to_string())
    );
}

#[test]
fn paste_holds_the_command_key() {
    let keys = simulate_paste(true).unwrap();
    let shape: Vec<(u16, bool, Option<u64>)> = keys.iter().map(|k| (k.key, k.down, k.flags)).collect();
    assert_eq!(
        shape,
        vec![
            (0x37, true, None),
            (0x09, true, Some(0x0010_0000)),
            (0x09, false, Some(0x0010_0000)),
            (0x37, false, None)
        ]
    );
    assert_eq!(
        simulate_paste(false),
        Err("Accessibility-tilladelse mangler — giv tilladelse i Systemindstillinger > Sikkerhed > Tilgængelighed".to_string())
    );
}

#[test]
fn paste_holds_the_control_key() {
    let inputs = ctrl_v_inputs();
    let shape: Vec<(u16, u32)> = inputs.iter().map(|k| (k.w_vk, k.dw_flags)).collect();
    assert_eq!(shape, vec![(0x11, 0), (0x56, 0), (0x56, 2), (0x11, 2)]);
    let key = key_input(0x56, true);
    assert_eq!((key.w_scan, key.time, key.dw_extra_info), (0, 0, 0));
    assert_eq!(simulate_ctrl_v(4, 4), Ok(()));
    assert_eq!(
        simulate_ctrl_v(1, 4),
        Err("Windows Ctrl+V sendte kun 1/4 input-events".to_string())
    );
}

#[test]
fn clipboard_holds_utf16() {
    assert_eq!(clipboard_units("aæ"), vec![0x61, 0xe6, 0]);
    assert_eq!(clipboard_units("\u{1f600}"), vec![0xd83d, 0xde00, 0]);
    assert_eq!(clipboard_units(""), vec![0]);
}

#[test]
fn clipboard_gives_the_text_back() {
    for text in ["", "skærm", "\u{1f600}x\u{10ffff}\u{ffff}\u{10000}"] {
        assert_eq!(clipboard_text(&clipboard_units(text)), text);
        let expected: Vec<u16> = text.encode_utf16().chain([0]).collect();
        assert_eq!(clipboard_units(text), expected);
    }
    assert_eq!(clipboard_text(&[0x61, 0, 0x62]), "a");
    assert_eq!(clipboard_text(&[0x61, 0xd83d]), "a\u{fffd}");
}
