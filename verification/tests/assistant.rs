use call_recorder::anna::{
    after_attempt, answer_of_response, answer_result, app_context, braced_part, chat_request, finish_query, first_choice,
    frontmost_app_info, guidance, is_chromium_browser, looks_like_refusal, needs_screenshot,
    parse_anna_payload, parse_tab_title, parse_window_id, read_app_info, read_choice,
    refusal_verdict, screenshot_source, screenshot_warning, start_query, tab_title_script, user_content,
    wants_full_screen, wants_insert_text, AnnaPayload, Attempt, Choice, ContentPart,
    MessageContent, NextStep, QueryStart, Reading, ResponseBody, ScreenshotSource,
};

fn payload(answer: &str, insert_text: Option<&str>) -> AnnaPayload {
    AnnaPayload { answer: answer.to_string(), insert_text: insert_text.map(str::to_string) }
}

#[test]
fn prompts_ask_for_the_screen_whatever_their_case() {
    assert!(needs_screenshot("Se På min SKÆRM"));
    assert!(needs_screenshot("tag et screenshot"));
    assert!(!needs_screenshot("hvad er klokken"));
    assert!(wants_full_screen("Brug HELE SKÆRMEN"));
    assert!(!wants_full_screen("brug skærmen"));
}

#[test]
fn prompts_ask_for_a_draft() {
    assert!(wants_insert_text("Skriv et SVAR til kunden"));
    assert!(wants_insert_text("lav et udkast"));
    assert!(!wants_insert_text("hvad betyder det"));
}

#[test]
fn screenshot_is_of_the_window_unless_there_is_none() {
    assert_eq!(screenshot_source(false, Some(7)), ScreenshotSource::Window(7));
    assert_eq!(screenshot_source(true, Some(7)), ScreenshotSource::FullScreen);
    assert_eq!(screenshot_source(false, None), ScreenshotSource::FullScreen);
}

#[test]
fn window_number_is_read() {
    assert_eq!(parse_window_id(true, b" 4711\n"), Some(4711));
    assert_eq!(parse_window_id(true, b"+12"), Some(12));
    assert_eq!(parse_window_id(true, b"4294967295"), Some(4294967295));
    assert_eq!(parse_window_id(true, b"4294967296"), None);
    assert_eq!(parse_window_id(true, b"missing value"), None);
    assert_eq!(parse_window_id(true, b"\xff"), None);
    assert_eq!(parse_window_id(false, b"4711"), None);
}

#[test]
fn frontmost_application_is_read() {
    let (bundle, name) = frontmost_app_info(true, "com.apple.mail\tMail\n".as_bytes());
    assert_eq!(bundle.as_deref(), Some("com.apple.mail"));
    assert_eq!(name.as_deref(), Some("Mail"));
    assert_eq!(frontmost_app_info(false, b"com.apple.mail\tMail"), (None, None));
    assert_eq!(read_app_info("dk.holion.call-recorder\tCall Recorder"), (None, None));
    assert_eq!(read_app_info(""), (None, None));
    assert_eq!(read_app_info("a\t"), (Some("a".to_string()), None));
    assert_eq!(read_app_info("a\tb\tc"), (Some("a".to_string()), Some("b\tc".to_string())));
    // Bytes that are no UTF-8 become the replacement character.
    assert_eq!(
        frontmost_app_info(true, b"a\t\xff"),
        (Some("a".to_string()), Some("\u{fffd}".to_string()))
    );
}

#[test]
fn browsers_are_asked_for_their_tab() {
    assert!(is_chromium_browser("com.brave.Browser"));
    assert!(!is_chromium_browser("com.apple.Safari"));
    assert_eq!(
        tab_title_script("Safari", "com.apple.Safari").as_deref(),
        Some("tell application \"Safari\" to get name of current tab of front window")
    );
    assert_eq!(
        tab_title_script("Arc", "company.thebrowser.Browser").as_deref(),
        Some("tell application \"Arc\" to get title of active tab of front window")
    );
    assert_eq!(tab_title_script("Mail", "com.apple.mail"), None);
    assert_eq!(parse_tab_title(true, " Indbakke \n".as_bytes()).as_deref(), Some("Indbakke"));
    assert_eq!(parse_tab_title(true, b" \n"), None);
    assert_eq!(parse_tab_title(false, b"Indbakke"), None);
}

#[test]
fn context_names_application_and_tab() {
    assert_eq!(
        app_context(Some("Arc"), Some("Indbakke")).as_deref(),
        Some("Aktiv app: Arc.\nAktiv tab: \"Indbakke\".")
    );
    assert_eq!(app_context(Some("Arc"), None).as_deref(), Some("Aktiv app: Arc."));
    assert_eq!(app_context(None, Some("Indbakke")), None);
}

fn image_url(bytes: &[u8]) -> String {
    match user_content("p", "g", Some(bytes), None) {
        MessageContent::Parts(parts) => match &parts[2] {
            ContentPart::ImageUrl(url) => url.clone(),
            ContentPart::Text(_) => panic!(),
        },
        MessageContent::Plain(_) => panic!(),
    }
}

#[test]
fn screenshot_is_sent_in_base64() {
    assert_eq!(image_url(b""), "data:image/jpeg;base64,");
    assert_eq!(image_url(b"M"), "data:image/jpeg;base64,TQ==");
    assert_eq!(image_url(b"Ma"), "data:image/jpeg;base64,TWE=");
    assert_eq!(image_url(b"Man"), "data:image/jpeg;base64,TWFu");
    assert_eq!(image_url(&[0xfb, 0xff, 0x00, 0x3e]), "data:image/jpeg;base64,+/8APg==");
}

fn texts(content: &MessageContent) -> Vec<String> {
    match content {
        MessageContent::Plain(t) => vec![t.clone()],
        MessageContent::Parts(parts) => parts
            .iter()
            .map(|p| match p {
                ContentPart::Text(t) => t.clone(),
                ContentPart::ImageUrl(_) => "image".to_string(),
            })
            .collect(),
    }
}

#[test]
fn user_message_holds_what_there_is() {
    assert_eq!(
        texts(&user_content("p", "g", Some(b"x"), Some("c"))),
        vec!["c", "g", "p", "image"]
    );
    assert_eq!(texts(&user_content("p", "g", Some(b"x"), None)), vec!["g", "p", "image"]);
    assert_eq!(texts(&user_content("p", "g", None, Some("c"))), vec!["c", "p"]);
    assert!(matches!(user_content("p", "g", None, None), MessageContent::Plain(_)));
}

#[test]
fn request_has_the_system_message_first() {
    let request = chat_request(MessageContent::Plain("hej".to_string()));
    assert_eq!(request.model, "gpt-4o");
    assert_eq!(request.max_tokens, 1000);
    assert_eq!(request.messages.len(), 2);
    assert_eq!(request.messages[0].role, "system");
    assert!(texts(&request.messages[0].content)[0].starts_with("Du er Anna, en hjælpsom AI"));
    assert_eq!(request.messages[1].role, "user");
    assert_eq!(texts(&request.messages[1].content), vec!["hej"]);
}

#[test]
fn braces_of_a_fenced_answer_are_found() {
    assert_eq!(braced_part("```json\n{\"a\":{}}\n```").as_deref(), Some("{\"a\":{}}"));
    assert_eq!(braced_part("}{"), None);
    assert_eq!(braced_part("{"), None);
    assert_eq!(braced_part("tekst"), None);
}

#[test]
fn payload_is_the_best_that_was_read() {
    let read = parse_anna_payload("raw", Some(payload("a", None)), Some(payload("b", None)));
    assert_eq!(read.answer, "a");
    let read = parse_anna_payload("raw", None, Some(payload("b", Some("t"))));
    assert_eq!(read.answer, "b");
    assert_eq!(read.insert_text.as_deref(), Some("t"));
    let read = parse_anna_payload("  raw ", None, None);
    assert_eq!(read.answer, "raw");
    assert_eq!(read.insert_text, None);
}

#[test]
fn refusals_are_recognized() {
    assert!(looks_like_refusal("I'm sorry, I CAN'T assist with that.", None, None));
    assert!(looks_like_refusal("Jeg kan ikke HJÆLPE med det", None, None));
    assert!(looks_like_refusal("fint", Some("content_filter"), None));
    assert!(looks_like_refusal("fint", Some("stop"), Some(" nej ")));
    assert!(!looks_like_refusal("fint", Some("stop"), Some("  ")));
    assert!(refusal_verdict("i can’t assist with that", None, None));
    assert!(!refusal_verdict("fint", None, None));
}

#[test]
fn first_answer_is_taken() {
    let choice = |content: &str| Choice {
        finish_reason: None,
        content: content.to_string(),
        refusal: None,
    };
    assert_eq!(first_choice(vec![choice("a"), choice("b")]).ok().unwrap().content, "a");
    assert_eq!(first_choice(vec![]).err().as_deref(), Some("Tomt svar fra OpenAI"));
}

#[test]
fn answer_is_read() {
    let choice = Choice {
        finish_reason: Some("stop".to_string()),
        content: " hej ".to_string(),
        refusal: None,
    };
    match read_choice(&choice) {
        Reading::Text { raw, refused } => {
            assert_eq!(raw, "hej");
            assert!(!refused);
        }
        Reading::Empty { .. } => panic!(),
    }
    let choice = Choice {
        finish_reason: None,
        content: " ".to_string(),
        refusal: Some("nej".to_string()),
    };
    match read_choice(&choice) {
        Reading::Empty { payload, refused } => {
            assert_eq!(payload.answer, "nej");
            assert!(refused);
        }
        Reading::Text { .. } => panic!(),
    }
}

fn read(text: &str, choices: Result<Vec<Choice>, String>) -> ResponseBody {
    ResponseBody::Read { text: text.to_string(), choices }
}

#[test]
fn response_gives_its_first_answer_or_what_went_wrong() {
    let choice = |content: &str| Choice {
        finish_reason: None,
        content: content.to_string(),
        refusal: None,
    };
    let error = |res: Result<Choice, String>| res.err().unwrap();
    let status = "500 Internal Server Error";
    assert_eq!(answer_result(true, "200 OK", "x"), Ok(()));
    assert_eq!(
        answer_result(false, status, "x"),
        Err("OpenAI API fejl 500 Internal Server Error: x".to_string())
    );
    assert_eq!(
        error(answer_of_response(false, status, read("x", Ok(vec![choice("a")])))),
        "OpenAI API fejl 500 Internal Server Error: x"
    );
    assert_eq!(
        error(answer_of_response(false, status, ResponseBody::Unread("brudt".to_string()))),
        "OpenAI API fejl 500 Internal Server Error: "
    );
    assert_eq!(
        error(answer_of_response(true, "200 OK", ResponseBody::Unread("brudt".to_string()))),
        "Kunne ikke læse OpenAI JSON-svar: brudt"
    );
    assert_eq!(
        error(answer_of_response(true, "200 OK", read("x", Err("linje 1".to_string())))),
        "Kunne ikke parse OpenAI JSON-svar: linje 1"
    );
    assert_eq!(
        error(answer_of_response(true, "200 OK", read("x", Ok(vec![])))),
        "Tomt svar fra OpenAI"
    );
    let first = answer_of_response(true, "200 OK", read("x", Ok(vec![choice("a"), choice("b")])));
    assert_eq!(first.ok().unwrap().content, "a");
}

#[test]
fn large_screenshots_are_warned_of() {
    assert_eq!(screenshot_warning(8_000_000), None);
    assert!(screenshot_warning(8_000_001).unwrap().starts_with("ADVARSEL: screenshot er over 8 MB"));
}

#[test]
fn attempts_follow_one_another() {
    assert!(matches!(
        after_attempt(Attempt::Primary, true, payload("a", None), false),
        NextStep::Answer(_)
    ));
    assert!(matches!(
        after_attempt(Attempt::Primary, false, payload("a", None), true),
        NextStep::Ask(Attempt::Retry)
    ));
    assert!(matches!(
        after_attempt(Attempt::Retry, true, payload("a", Some(" ")), false),
        NextStep::Ask(Attempt::Strict)
    ));
    assert!(matches!(
        after_attempt(Attempt::Retry, true, payload("a", Some("t")), true),
        NextStep::Ask(Attempt::Strict)
    ));
    assert!(matches!(
        after_attempt(Attempt::Retry, false, payload("a", None), true),
        NextStep::Answer(_)
    ));
    assert!(matches!(
        after_attempt(Attempt::Strict, true, payload("a", None), true),
        NextStep::Answer(_)
    ));
    assert!(guidance(Attempt::Primary).starts_with("Der er vedhæftet et skærmbillede. Brug"));
    assert!(guidance(Attempt::Retry).ends_with("uden ekstra sikkerhedsformuleringer."));
    assert!(guidance(Attempt::Strict).contains("insert_text MÅ IKKE være null eller tom."));
}

#[test]
fn query_needs_a_key() {
    match start_query("skriv", Some("  "), None, None, None, Some("b")) {
        QueryStart::NoKey { state } => {
            assert_eq!(state.prompt, "skriv");
            assert_eq!(
                state.response.as_deref(),
                Some("Ingen OpenAI API-nøgle konfigureret. Åbn indstillinger (⚙).")
            );
            assert_eq!(state.target_bundle_id.as_deref(), Some("b"));
            assert!(state.is_error);
        }
        QueryStart::Ask { .. } => panic!(),
    }
}

#[test]
fn query_uses_the_screenshot_only_where_asked() {
    match start_query("se på skærmen og skriv et svar", Some(" k "), Some(vec![1]), Some("A"), None, None) {
        QueryStart::Ask { state, api_key, screenshot, context, require_insert_text } => {
            assert_eq!(state.response, None);
            assert!(!state.is_error);
            assert_eq!(api_key, "k");
            assert_eq!(screenshot, Some(vec![1]));
            assert_eq!(context.as_deref(), Some("Aktiv app: A."));
            assert!(require_insert_text);
        }
        QueryStart::NoKey { .. } => panic!(),
    }
    match start_query("hvad er klokken", Some("k"), Some(vec![1]), None, None, None) {
        QueryStart::Ask { screenshot, require_insert_text, .. } => {
            assert_eq!(screenshot, None);
            assert!(!require_insert_text);
        }
        QueryStart::NoKey { .. } => panic!(),
    }
}

#[test]
fn answer_is_shown() {
    let state = finish_query("p", Some("b"), Ok(payload("svar", Some(" tekst "))));
    assert_eq!(state.response.as_deref(), Some("svar"));
    assert_eq!(state.insert_text.as_deref(), Some(" tekst "));
    assert_eq!(state.target_bundle_id.as_deref(), Some("b"));
    assert!(!state.is_error);
    let state = finish_query("p", Some("b"), Ok(payload("svar", None)));
    assert_eq!(state.response.as_deref(), Some("svar"));
    assert!(!state.is_error);
    let state = finish_query("p", None, Err("net".to_string()));
    assert_eq!(state.response.as_deref(), Some("Fejl: net"));
    assert_eq!(state.insert_text, None);
    assert!(state.is_error);
}
