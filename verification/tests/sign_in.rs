use call_recorder::google_auth::{
    auth_url, callback_response, collect_tokens, parse_auth_code, redirect_uri, token_form,
    tokens_of_reply, urldecode, urlencoding, TokenError, CALLBACK_PAGE,
};

#[test]
fn addresses_are_written() {
    assert_eq!(redirect_uri(8123), "http://127.0.0.1:8123");
    assert_eq!(urlencoding("http://127.0.0.1:8123"), "http%3A%2F%2F127.0.0.1%3A8123");
    assert_eq!(
        auth_url("klient", "http://127.0.0.1:1"),
        "https://accounts.google.com/o/oauth2/v2/auth?client_id=klient&redirect_uri=http%3A%2F%2F127.0.0.1%3A1&response_type=code&scope=openid%20email%20profile&access_type=offline&prompt=select_account"
    );
}

#[test]
fn escapes_are_decoded() {
    assert_eq!(urldecode("4%2F0Ab+c%3a"), "4/0Ab c:");
    assert_eq!(urldecode("%+5x"), "\u{5}x");
    assert_eq!(urldecode("a%zzb"), "ab");
    assert_eq!(urldecode("a%4"), "a\u{4}");
    assert_eq!(urldecode("a%"), "a");
    assert_eq!(urldecode("%e6"), "æ");
    assert_eq!(urldecode("%5æx"), "x");
}

#[test]
fn decoding_undoes_encoding() {
    let s = "http://127.0.0.1:8123/a?b=æ";
    assert_eq!(urldecode(&urlencoding(s)), s);
}

#[test]
fn code_is_read_from_the_callback() {
    assert_eq!(parse_auth_code("GET /?code=4%2Fabc&scope=email HTTP/1.1\r\n").as_deref(), Ok("4/abc"));
    assert_eq!(parse_auth_code("GET /?state=x&code=a=b HTTP/1.1").as_deref(), Ok("a=b"));
    assert_eq!(parse_auth_code("GET /?code=1&code=2 HTTP/1.1").as_deref(), Ok("1"));
    assert_eq!(parse_auth_code("GET /?code= HTTP/1.1").as_deref(), Ok(""));
}

#[test]
fn callback_without_code_is_refused() {
    let refused = Err("No auth code in callback".to_string());
    assert_eq!(parse_auth_code("GET /?error=access_denied HTTP/1.1"), refused);
    assert_eq!(parse_auth_code("GET / HTTP/1.1"), refused);
    assert_eq!(parse_auth_code("GET /?code HTTP/1.1"), refused);
    assert_eq!(parse_auth_code("GET"), refused);
    assert_eq!(parse_auth_code(""), refused);
}

#[test]
fn answer_to_the_callback_names_its_length_in_bytes() {
    let response = callback_response();
    assert_eq!(
        response,
        format!(
            "HTTP/1.1 200 OK\r\nContent-Type: text/html; charset=utf-8\r\nContent-Length: {}\r\nConnection: close\r\n\r\n{}",
            CALLBACK_PAGE.len(),
            CALLBACK_PAGE
        )
    );
}

#[test]
fn form_of_the_exchange_is_complete() {
    let form = token_form("k", "id", "hemmelig", "uri");
    let pairs: Vec<(&str, &str)> = form.iter().map(|(k, v)| (*k, v.as_str())).collect();
    assert_eq!(
        pairs,
        vec![
            ("code", "k"),
            ("client_id", "id"),
            ("client_secret", "hemmelig"),
            ("redirect_uri", "uri"),
            ("grant_type", "authorization_code")
        ]
    );
}

#[test]
fn tokens_are_read_from_the_reply() {
    let reply = br#"{"access_token":"adgang","expires_in":3599,"id_token":"identitet"}"#;
    let tokens = tokens_of_reply(reply).ok().unwrap();
    assert_eq!(tokens.id_token, "identitet");
    assert_eq!(tokens.access_token, "adgang");
}

#[test]
fn reply_without_tokens_is_refused() {
    let error = tokens_of_reply(br#"{"error": "invalid_grant"}"#).err().unwrap();
    assert_eq!(
        error.message().as_deref(),
        Some("No id_token in response: {\"error\":\"invalid_grant\"}")
    );
    let error = tokens_of_reply(br#"{"id_token":"x","access_token":7}"#).err().unwrap();
    assert!(matches!(error, TokenError::NoAccessToken));
    assert_eq!(error.message().as_deref(), Some("No access_token in response"));
    let error = tokens_of_reply(b"ikke json").err().unwrap();
    assert!(matches!(error, TokenError::NotJson(_)));
    assert_eq!(error.message(), None);
    let error = tokens_of_reply(b"[1]").err().unwrap();
    assert_eq!(error.message().as_deref(), Some("No id_token in response: [1]"));
}

#[test]
fn tokens_are_collected() {
    let text = |s: &str| Some(s.to_string());
    let tokens = collect_tokens(text("i"), text("a"), String::new()).ok().unwrap();
    assert_eq!((tokens.id_token.as_str(), tokens.access_token.as_str()), ("i", "a"));
    assert!(matches!(
        collect_tokens(None, None, "b".to_string()),
        Err(TokenError::NoIdToken(b)) if b == "b"
    ));
    assert!(matches!(
        collect_tokens(text("i"), None, String::new()),
        Err(TokenError::NoAccessToken)
    ));
}
