//! Sign-in with Google through the system browser.

use vstd::prelude::*;
use vstd::slice::*;
use vstd::string::*;

use crate::number;
use crate::number::to_decimal;
use crate::text;
use crate::text::{
    chars_of, find_text, same_text, split_at_char, split_words, text_of, utf8_len,
};

verus! {

/// What a sign-in yields.
pub struct GoogleTokens {
    pub id_token: String,
    pub access_token: String,
}

// ── URL encoding ───────────────────────────────────────────────────────

/// A text in which `:` and `/` are escaped.
pub open spec fn url_encoded(s: Seq<char>) -> Seq<char>
    decreases s.len(),
{
    if s.len() == 0 {
        Seq::empty()
    } else {
        escaped(s[0]) + url_encoded(s.drop_first())
    }
}

/// A character as it stands in an encoded text.
pub open spec fn escaped(c: char) -> Seq<char> {
    if c == ':' {
        seq!['%', '3', 'A']
    } else if c == '/' {
        seq!['%', '2', 'F']
    } else {
        seq![c]
    }
}

/// Escapes `:` and `/`.
pub fn urlencoding(s: &str) -> (res: String)
    ensures
        res@ == url_encoded(s@),
{
    let chars = chars_of(s);
    let mut res = String::new();
    let mut i: usize = 0;
    proof {
        reveal_strlit("%3A");
        reveal_strlit("%2F");
        assert("%3A"@ =~= seq!['%', '3', 'A']);
        assert("%2F"@ =~= seq!['%', '2', 'F']);
        assert(s@.skip(0) =~= s@);
    }
    while i < chars.len()
        invariant
            i <= chars@.len(),
            chars@ == s@,
            "%3A"@ == seq!['%', '3', 'A'],
            "%2F"@ == seq!['%', '2', 'F'],
            res@ + url_encoded(s@.skip(i as int)) =~= url_encoded(s@),
        decreases chars@.len() - i,
    {
        let c = chars[i];
        assert(s@.skip(i as int).drop_first() =~= s@.skip(i as int + 1));
        let ghost before = res@;
        if c == ':' {
            res.append("%3A");
        } else if c == '/' {
            res.append("%2F");
        } else {
            res.push(c);
        }
        assert(res@ =~= before + escaped(c));
        i += 1;
    }
    assert(s@.skip(i as int).len() == 0);
    res
}

/// The value of a hexadecimal digit, in either case.
pub open spec fn hex_digit(c: char) -> Option<nat> {
    if '0' <= c <= '9' {
        Some((c as u32 - '0' as u32) as nat)
    } else if 'a' <= c <= 'f' {
        Some((c as u32 - 'a' as u32 + 10) as nat)
    } else if 'A' <= c <= 'F' {
        Some((c as u32 - 'A' as u32 + 10) as nat)
    } else {
        None
    }
}

/// The byte that at most two characters stand for: one or two hexadecimal digits, or a plus sign
/// and one.
pub open spec fn hex_byte(h: Seq<char>) -> Option<nat> {
    if h.len() == 1 {
        hex_digit(h[0])
    } else if h.len() == 2 {
        match (hex_digit(h[0]), hex_digit(h[1])) {
            (Some(a), Some(b)) => Some(a * 16 + b),
            (None, Some(b)) => if h[0] == '+' {
                Some(b)
            } else {
                None
            },
            (_, None) => None,
        }
    } else {
        None
    }
}

/// The number of characters of an escape at the start of `s`: the percent sign and what follows,
/// at most two characters.
pub open spec fn escape_len(s: Seq<char>) -> int {
    if s.len() >= 3 {
        3
    } else {
        s.len() as int
    }
}

/// What an encoded text stands for: an escape is the character with its number, a plus sign is a
/// blank, and an escape that is no number is nothing.
pub open spec fn url_decoded(s: Seq<char>) -> Seq<char>
    decreases s.len(),
{
    if s.len() == 0 {
        Seq::empty()
    } else if s[0] == '%' {
        (match hex_byte(s.subrange(1, escape_len(s))) {
            Some(v) => seq![v as char],
            None => Seq::empty(),
        }) + url_decoded(s.skip(escape_len(s)))
    } else if s[0] == '+' {
        seq![' '] + url_decoded(s.drop_first())
    } else {
        seq![s[0]] + url_decoded(s.drop_first())
    }
}

fn hex_digit_of(c: char) -> (res: Option<u8>)
    ensures
        hex_digit(c) == (match res {
            Some(v) => Some(v as nat),
            None => None,
        }),
        res matches Some(v) ==> v < 16,
{
    let u: u32 = c as u32;
    if c >= '0' && c <= '9' {
        Some((u - '0' as u32) as u8)
    } else if c >= 'a' && c <= 'f' {
        Some((u - 'a' as u32 + 10) as u8)
    } else if c >= 'A' && c <= 'F' {
        Some((u - 'A' as u32 + 10) as u8)
    } else {
        None
    }
}

fn hex_byte_of(h: &[char]) -> (res: Option<u8>)
    ensures
        hex_byte(h@) == (match res {
            Some(v) => Some(v as nat),
            None => None,
        }),
{
    if h.len() == 1 {
        hex_digit_of(h[0])
    } else if h.len() == 2 {
        match (hex_digit_of(h[0]), hex_digit_of(h[1])) {
            (Some(a), Some(b)) => Some(a * 16 + b),
            (None, Some(b)) => if h[0] == '+' {
                Some(b)
            } else {
                None
            },
            (_, None) => None,
        }
    } else {
        None
    }
}

/// Decodes the value of a query parameter.
pub fn urldecode(s: &str) -> (res: String)
    ensures
        res@ == url_decoded(s@),
{
    let chars = chars_of(s);
    let mut rest: &[char] = chars.as_slice();
    let mut res = String::new();
    while rest.len() > 0
        invariant
            res@ + url_decoded(rest@) =~= url_decoded(s@),
        decreases rest@.len(),
    {
        let c = rest[0];
        let n: usize = rest.len();
        let ghost before = res@;
        if c == '%' {
            let m: usize = if n >= 3 {
                3
            } else {
                n
            };
            let next = slice_subrange(rest, m, n);
            assert(next@ =~= rest@.skip(escape_len(rest@)));
            if let Some(v) = hex_byte_of(slice_subrange(rest, 1, m)) {
                res.push(v as char);
            }
            assert(res@ + url_decoded(next@) =~= before + url_decoded(rest@));
            rest = next;
        } else {
            let next = slice_subrange(rest, 1, n);
            assert(next@ =~= rest@.drop_first());
            if c == '+' {
                res.push(' ');
            } else {
                res.push(c);
            }
            assert(res@ + url_decoded(next@) =~= before + url_decoded(rest@));
            rest = next;
        }
    }
    res
}

/// Decoding an encoded text gives the text back, unless it has a percent or a plus sign: the
/// encoding leaves those as they are.
pub proof fn law_decode_of_encode(s: Seq<char>)
    requires
        !s.contains('%'),
        !s.contains('+'),
    ensures
        url_decoded(url_encoded(s)) == s,
    decreases s.len(),
{
    if s.len() > 0 {
        let c = s[0];
        let t = s.drop_first();
        assert(s.contains(c));
        assert forall|d: char| t.contains(d) implies s.contains(d) by {
            let i = choose|i: int| 0 <= i < t.len() && t[i] == d;
            assert(s[i + 1] == d);
        }
        law_decode_of_encode(t);
        let e = url_encoded(s);
        let rest = url_encoded(t);
        if c == ':' || c == '/' {
            assert(e.subrange(1, 3) =~= escaped(c).subrange(1, 3));
            assert(e.skip(3) =~= rest);
            assert(escape_len(e) == 3);
            if c == ':' {
                assert(hex_byte(e.subrange(1, 3)) == Some(0x3anat));
            } else {
                assert(hex_byte(e.subrange(1, 3)) == Some(0x2fnat));
            }
            assert(url_decoded(e) =~= seq![c] + t);
        } else {
            assert(e.drop_first() =~= rest);
            assert(url_decoded(e) =~= seq![c] + t);
        }
        assert(seq![c] + t =~= s);
    } else {
        assert(url_decoded(url_encoded(s)) =~= s);
    }
}

// ── Sign-in page ───────────────────────────────────────────────────────

/// The address to which the browser is sent back.
pub open spec fn redirect_address(port: nat) -> Seq<char> {
    "http://127.0.0.1:"@ + number::decimal(port)
}

/// The address to which the browser is sent back, for the port on which it is awaited.
pub fn redirect_uri(port: u16) -> (res: String)
    ensures
        res@ == redirect_address(port as nat),
{
    let mut uri = "http://127.0.0.1:".to_owned();
    let digits = to_decimal(port as u64);
    uri.append(digits.as_str());
    uri
}

/// The address of the sign-in page.
pub fn auth_url(client_id: &str, redirect_uri: &str) -> (res: String)
    ensures
        res@ == "https://accounts.google.com/o/oauth2/v2/auth?client_id="@ + client_id@
            + "&redirect_uri="@ + url_encoded(redirect_uri@)
            + "&response_type=code&scope=openid%20email%20profile&access_type=offline&prompt=select_account"@,
{
    let mut url = "https://accounts.google.com/o/oauth2/v2/auth?client_id=".to_owned();
    url.append(client_id);
    url.append("&redirect_uri=");
    let encoded = urlencoding(redirect_uri);
    url.append(encoded.as_str());
    url.append(
        "&response_type=code&scope=openid%20email%20profile&access_type=offline&prompt=select_account",
    );
    url
}

// ── Callback ───────────────────────────────────────────────────────────

/// The value of a query parameter, where the parameter is the authorization code.
pub open spec fn code_value(param: Seq<char>) -> Option<Seq<char>> {
    match text::find(param, seq!['=']) {
        Some(k) => if param.take(k) == "code"@ {
            Some(url_decoded(param.skip(k + 1)))
        } else {
            None
        },
        None => None,
    }
}

/// The first authorization code among query parameters, from the one with index `i` on.
pub open spec fn first_code(params: Seq<Seq<char>>, i: int) -> Option<Seq<char>>
    decreases params.len() - i,
{
    if i >= params.len() {
        None
    } else {
        match code_value(params[i]) {
            Some(code) => Some(code),
            None => first_code(params, i + 1),
        }
    }
}

/// The authorization code in the first line of the callback request: in the query of its second
/// word.
pub open spec fn auth_code(request_line: Seq<char>) -> Option<Seq<char>> {
    let ws = text::words(request_line);
    if ws.len() < 2 {
        None
    } else {
        let parts = text::split_on(ws[1], '?');
        if parts.len() < 2 {
            None
        } else {
            first_code(text::split_on(parts[1], '&'), 0)
        }
    }
}

fn code_value_of(param: &str) -> (res: Option<String>)
    ensures
        text::opt(res) == code_value(param@),
{
    let chars = chars_of(param);
    let n: usize = chars.len();
    let eq: [char; 1] = ['='];
    assert(eq@ =~= seq!['=']);
    match find_text(chars.as_slice(), eq.as_slice()) {
        Some(k) => {
            let key = text_of(slice_subrange(chars.as_slice(), 0, k));
            assert(key@ =~= param@.take(k as int));
            if same_text(key.as_str(), "code") {
                let value = text_of(slice_subrange(chars.as_slice(), k + 1, n));
                assert(value@ =~= param@.skip(k + 1));
                Some(urldecode(value.as_str()))
            } else {
                None
            }
        },
        None => None,
    }
}

/// The authorization code in the first line of the callback request.
pub fn parse_auth_code(request_line: &str) -> (res: Result<String, String>)
    ensures
        match res {
            Ok(code) => auth_code(request_line@) == Some(code@),
            Err(e) => auth_code(request_line@) is None && e@ == "No auth code in callback"@,
        },
{
    let chars = chars_of(request_line);
    let ws = split_words(chars.as_slice());
    if ws.len() >= 2 {
        assert(text::texts(ws@)[1] == ws@[1]@);
        let path = chars_of(ws[1].as_str());
        let parts = split_at_char(path.as_slice(), '?');
        if parts.len() >= 2 {
            assert(text::texts(parts@)[1] == parts@[1]@);
            let query = chars_of(parts[1].as_str());
            let params = split_at_char(query.as_slice(), '&');
            let ghost all = text::texts(params@);
            let mut i: usize = 0;
            while i < params.len()
                invariant
                    i <= params@.len(),
                    all == text::texts(params@),
                    auth_code(request_line@) == first_code(all, 0),
                    first_code(all, 0) == first_code(all, i as int),
                decreases params@.len() - i,
            {
                assert(all[i as int] == params@[i as int]@);
                if let Some(code) = code_value_of(params[i].as_str()) {
                    return Ok(code);
                }
                i += 1;
            }
        }
    }
    Err("No auth code in callback".to_owned())
}

/// Whether a text can stand in the query of a request line without ending it.
pub open spec fn is_query_text(s: Seq<char>) -> bool {
    forall|i: int|
        0 <= i < s.len() ==> !text::is_white_space(#[trigger] s[i]) && s[i] != '?'
}

/// The request line of a callback with a code, and what else follows in the query.
pub open spec fn callback_line(code: Seq<char>, more: Seq<char>) -> Seq<char> {
    "GET /?code="@ + code + "&"@ + more + " HTTP/1.1"@
}

/// From the request line of a callback the code is read that stands in it, whatever parameters
/// follow.
pub proof fn law_code_of_callback(code: Seq<char>, more: Seq<char>)
    requires
        is_query_text(code),
        is_query_text(more),
        !code.contains('&'),
    ensures
        auth_code(callback_line(code, more)) == Some(url_decoded(code)),
{
    reveal_strlit("GET /?code=");
    reveal_strlit("&");
    reveal_strlit(" HTTP/1.1");
    reveal_strlit("code");
    let param = "code"@ + seq!['='] + code;
    let query = param + seq!['&'] + more;
    let path = seq!['/', '?'] + query;
    let get = seq!['G', 'E', 'T'];
    let version = seq!['H', 'T', 'T', 'P', '/', '1', '.', '1'];
    let ws = seq![get, path, version];
    let line = callback_line(code, more);
    // The line is three words.
    assert forall|i: int| 0 <= i < path.len() implies !text::is_white_space(#[trigger] path[i])
        && (path[i] == '?' ==> i == 1) by {
        if 7 <= i < 7 + code.len() {
            assert(path[i] == code[i - 7]);
        } else if i > 7 + code.len() {
            assert(path[i] == more[i - 8 - code.len()]);
        }
    }
    assert(text::is_word(ws[0]));
    assert(text::is_word(ws[1]));
    assert(text::is_word(ws[2]));
    text::lemma_words_of_join(ws);
    assert(line =~= text::join(ws, seq![' '])) by {
        let tail = ws.drop_first();
        assert(tail.drop_first() =~= seq![version]);
        assert(text::join(tail.drop_first(), seq![' ']) == version);
        assert(text::join(tail, seq![' ']) == path + seq![' '] + version);
        assert(text::join(ws, seq![' ']) == get + seq![' '] + (path + seq![' '] + version));
    }
    // The query is the second part of the path.
    assert(!query.contains('?')) by {
        if query.contains('?') {
            let i = choose|i: int| 0 <= i < query.len() && query[i] == '?';
            assert(path[i + 2] == '?');
        }
    }
    assert(path =~= seq!['/'] + seq!['?'] + query);
    text::lemma_split_on_first(seq!['/'], '?', query);
    text::lemma_split_on_none(query, '?');
    assert(text::split_on(path, '?')[1] == query);
    // The code is the first parameter.
    assert(!param.contains('&')) by {
        if param.contains('&') {
            let i = choose|i: int| 0 <= i < param.len() && param[i] == '&';
            if i >= 5 {
                assert(code[i - 5] == '&');
            }
        }
    }
    text::lemma_split_on_first(param, '&', more);
    assert(text::split_on(query, '&')[0] == param);
    text::lemma_find_char(param, '=');
    assert(param[4] == '=');
    assert(param.contains('='));
    let k = text::find(param, seq!['='])->0;
    assert(k == 4) by {
        if k > 4 {
            assert(param[4] != '=');
        }
    }
    assert(param.take(4) =~= "code"@);
    assert(param.skip(5) =~= code);
}

/// The page that the browser shows after the sign-in.
pub const CALLBACK_PAGE: &'static str =
    "<html><body><h2>Login gennemført!</h2><p>Du kan lukke dette vindue og vende tilbage til Call Recorder.</p></body></html>";

/// An answer with a page: the length that it names is the number of bytes of the page.
pub open spec fn http_page(body: Seq<char>) -> Seq<char> {
    "HTTP/1.1 200 OK\r\nContent-Type: text/html; charset=utf-8\r\nContent-Length: "@
        + number::decimal(text::byte_len(body)) + "\r\nConnection: close\r\n\r\n"@ + body
}

/// The answer to the callback request.
pub fn callback_response() -> (res: String)
    ensures
        res@ == http_page(CALLBACK_PAGE@),
{
    let mut out =
        "HTTP/1.1 200 OK\r\nContent-Type: text/html; charset=utf-8\r\nContent-Length: ".to_owned();
    let digits = to_decimal(utf8_len(CALLBACK_PAGE) as u64);
    out.append(digits.as_str());
    out.append("\r\nConnection: close\r\n\r\n");
    out.append(CALLBACK_PAGE);
    out
}

// ── Tokens ─────────────────────────────────────────────────────────────

/// The fields of the request that exchanges the code for tokens.
pub fn token_form(
    code: &str,
    client_id: &str,
    client_secret: &str,
    redirect_uri: &str,
) -> (res: Vec<(&'static str, String)>)
    ensures
        res@.len() == 5,
        res@[0].0@ == "code"@ && res@[0].1@ == code@,
        res@[1].0@ == "client_id"@ && res@[1].1@ == client_id@,
        res@[2].0@ == "client_secret"@ && res@[2].1@ == client_secret@,
        res@[3].0@ == "redirect_uri"@ && res@[3].1@ == redirect_uri@,
        res@[4].0@ == "grant_type"@ && res@[4].1@ == "authorization_code"@,
{
    let mut form: Vec<(&'static str, String)> = Vec::new();
    form.push(("code", code.to_owned()));
    form.push(("client_id", client_id.to_owned()));
    form.push(("client_secret", client_secret.to_owned()));
    form.push(("redirect_uri", redirect_uri.to_owned()));
    form.push(("grant_type", "authorization_code".to_owned()));
    form
}

/// A JSON value.
#[verifier::external_type_specification]
#[verifier::external_body]
pub struct ExJsonValue(serde_json::Value);

/// The error of the JSON reader.
#[verifier::external_type_specification]
#[verifier::external_body]
pub struct ExJsonError(serde_json::Error);

/// The member of a name.
pub open spec fn member(members: Map<Seq<char>, Seq<char>>, name: Seq<char>) -> Option<Seq<char>> {
    if members.contains_key(name) {
        Some(members[name])
    } else {
        None
    }
}

/// The members of a JSON object whose values are strings. Another value has none.
pub uninterp spec fn json_members(v: serde_json::Value) -> Map<Seq<char>, Seq<char>>;

/// The text of a JSON value, as its `to_string` writes it.
pub uninterp spec fn json_text(v: serde_json::Value) -> Seq<char>;

/// What `serde_json::from_slice` reads some bytes as: the string members of the value that they
/// are, and its text.
pub uninterp spec fn json_value(body: Seq<u8>) -> Option<(Map<Seq<char>, Seq<char>>, Seq<char>)>;

/// `serde_json::from_slice` into a `Value`: the value that the bytes are, or an error where they are
/// no JSON.
#[verifier::external_body]
fn read_json(body: &[u8]) -> (res: Result<serde_json::Value, serde_json::Error>)
    ensures
        json_value(body@) == (match res {
            Ok(v) => Some((json_members(v), json_text(v))),
            Err(_) => None,
        }),
{
    serde_json::from_slice(body)
}

/// `Value::index` with a name and `Value::as_str`: the member of that name, where the value is an
/// object and the member a string.
#[verifier::external_body]
fn string_member(v: &serde_json::Value, name: &str) -> (res: Option<String>)
    ensures
        text::opt(res) == member(json_members(*v), name@),
{
    v[name].as_str().map(String::from)
}

/// `Value::to_string`: the value as JSON text.
#[verifier::external_body]
fn write_json(v: &serde_json::Value) -> (res: String)
    ensures
        res@ == json_text(*v),
{
    v.to_string()
}

/// Why a sign-in yields no tokens.
pub enum TokenError {
    /// The answer is no JSON.
    NotJson(serde_json::Error),
    /// The answer, given as text, has no identity token.
    NoIdToken(String),
    NoAccessToken,
}

impl TokenError {
    /// The message of an answer that lacks a token.
    pub fn message(&self) -> (res: Option<String>)
        ensures
            match self {
                TokenError::NotJson(_) => res is None,
                TokenError::NoIdToken(body) => text::opt(res) == Some(
                    "No id_token in response: "@ + body@,
                ),
                TokenError::NoAccessToken => text::opt(res) == Some("No access_token in response"@),
            },
    {
        match self {
            TokenError::NotJson(_) => None,
            TokenError::NoIdToken(body) => {
                let mut out = "No id_token in response: ".to_owned();
                out.append(body.as_str());
                Some(out)
            },
            TokenError::NoAccessToken => Some("No access_token in response".to_owned()),
        }
    }
}

/// The tokens of a sign-in, from the members of the answer and the answer as text.
pub fn collect_tokens(
    id_token: Option<String>,
    access_token: Option<String>,
    body: String,
) -> (res: Result<GoogleTokens, TokenError>)
    ensures
        match res {
            Ok(tokens) => id_token == Some(tokens.id_token) && access_token == Some(
                tokens.access_token,
            ),
            Err(TokenError::NoIdToken(t)) => id_token is None && t == body,
            Err(TokenError::NoAccessToken) => id_token is Some && access_token is None,
            Err(TokenError::NotJson(_)) => false,
        },
{
    match id_token {
        None => Err(TokenError::NoIdToken(body)),
        Some(id_token) => match access_token {
            None => Err(TokenError::NoAccessToken),
            Some(access_token) => Ok(GoogleTokens { id_token, access_token }),
        },
    }
}

/// The tokens of a sign-in, from the answer to the exchange.
pub fn tokens_of_reply(reply: &[u8]) -> (res: Result<GoogleTokens, TokenError>)
    ensures
        match json_value(reply@) {
            None => res matches Err(TokenError::NotJson(_)),
            Some((members, body)) => match (
                member(members, "id_token"@),
                member(members, "access_token"@),
            ) {
                (None, _) => res matches Err(TokenError::NoIdToken(t)) && t@ == body,
                (Some(_), None) => res matches Err(TokenError::NoAccessToken),
                (Some(id), Some(access)) => res matches Ok(tokens) && tokens.id_token@ == id
                    && tokens.access_token@ == access,
            },
        },
{
    match read_json(reply) {
        Err(e) => Err(TokenError::NotJson(e)),
        Ok(v) => {
            let id_token = string_member(&v, "id_token");
            let access_token = string_member(&v, "access_token");
            let body = write_json(&v);
            collect_tokens(id_token, access_token, body)
        },
    }
}

// ── Laws ───────────────────────────────────────────────────────────────

/// Encoding is determined by this: it goes character by character, escapes the colon and the slash, and
/// leaves every other character as it is.
pub proof fn law_url_encoded(a: Seq<char>, b: Seq<char>, c: char)
    ensures
        url_encoded(a + b) == url_encoded(a) + url_encoded(b),
        a.len() == 0 ==> url_encoded(a).len() == 0,
        url_encoded(seq![':']) == "%3A"@,
        url_encoded(seq!['/']) == "%2F"@,
        c != ':' && c != '/' ==> url_encoded(seq![c]) == seq![c],
        !url_encoded(a).contains(':') && !url_encoded(a).contains('/'),
    decreases a.len(),
{
    reveal_strlit("%3A");
    reveal_strlit("%2F");
    let none = Seq::<char>::empty();
    assert(seq![':'].drop_first() =~= none);
    assert(seq!['/'].drop_first() =~= none);
    assert(seq![c].drop_first() =~= none);
    assert(url_encoded(none) =~= none);
    assert(url_encoded(seq![':']) =~= "%3A"@);
    assert(url_encoded(seq!['/']) =~= "%2F"@);
    if c != ':' && c != '/' {
        assert(url_encoded(seq![c]) =~= seq![c]);
    }
    if a.len() == 0 {
        assert(a + b =~= b);
        assert(url_encoded(a) + url_encoded(b) =~= url_encoded(b));
    } else {
        law_url_encoded(a.drop_first(), b, c);
        assert((a + b).drop_first() =~= a.drop_first() + b);
        assert(url_encoded(a + b) =~= url_encoded(a) + url_encoded(b));
        let e = url_encoded(a);
        let head = escaped(a[0]);
        let tail = url_encoded(a.drop_first());
        assert forall|i: int| 0 <= i < e.len() implies e[i] != ':' && e[i] != '/' by {
            if i < head.len() {
                assert(e[i] == head[i]);
            } else {
                assert(e[i] == tail[i - head.len()]);
                assert(tail.contains(tail[i - head.len()]));
            }
        }
    }
}

/// Whether a character is the hexadecimal digit of a value, in either case.
pub open spec fn is_hex_of(c: char, v: int) -> bool {
    ||| 0 <= v < 10 && c as u32 == '0' as u32 + v
    ||| 10 <= v < 16 && c as u32 == 'a' as u32 + (v - 10)
    ||| 10 <= v < 16 && c as u32 == 'A' as u32 + (v - 10)
}

/// Decoding goes from the start on: an escape of two hexadecimal digits stands for the character with that
/// number, a plus sign for a blank, and any other character but the percent sign for itself.
pub proof fn law_url_decoded(c: char, x: int, y: int, a: char, b: char, rest: Seq<char>)
    requires
        is_hex_of(a, x),
        is_hex_of(b, y),
    ensures
        url_decoded(seq!['%', a, b] + rest) == seq![(16 * x + y) as char] + url_decoded(rest),
        url_decoded(seq!['+'] + rest) == seq![' '] + url_decoded(rest),
        c != '%' && c != '+' ==> url_decoded(seq![c] + rest) == seq![c] + url_decoded(rest),
        url_decoded(Seq::empty()) == Seq::<char>::empty(),
{
    let s = seq!['%', a, b] + rest;
    assert(s.subrange(1, 3) =~= seq![a, b]);
    assert(s.skip(3) =~= rest);
    assert(hex_digit(a) == Some(x as nat));
    assert(hex_digit(b) == Some(y as nat));
    assert((seq!['+'] + rest).drop_first() =~= rest);
    assert((seq![c] + rest).drop_first() =~= rest);
}

/// A query parameter is the authorization code exactly where it starts with "code=", and its value is all
/// that follows, decoded.
pub proof fn law_code_value(param: Seq<char>, value: Seq<char>)
    ensures
        code_value(param) is Some <==> text::occurs_at(param, "code="@, 0),
        code_value("code="@ + value) == Some(url_decoded(value)),
{
    reveal_strlit("code=");
    reveal_strlit("code");
    let full = "code="@ + value;
    assert(full.subrange(0, 5) =~= "code="@);
    lemma_code_param(full);
    assert(full.skip(5) =~= value);
    if text::occurs_at(param, "code="@, 0) {
        lemma_code_param(param);
    }
    if code_value(param) is Some {
        text::lemma_find_char(param, '=');
        let k = text::find(param, seq!['='])->0;
        assert(param.take(k).len() == 4);
        assert(param[k] == '=');
        assert(param.subrange(0, 5) =~= param.take(4).push('='));
        assert("code="@ =~= "code"@.push('='));
    }
}

proof fn lemma_code_param(param: Seq<char>)
    requires
        text::occurs_at(param, "code="@, 0),
    ensures
        code_value(param) == Some(url_decoded(param.skip(5))),
{
    reveal_strlit("code=");
    reveal_strlit("code");
    let head = param.subrange(0, 5);
    assert(head[0] == param[0] && head[1] == param[1] && head[2] == param[2] && head[3] == param[3]
        && head[4] == param[4]);
    text::lemma_find_char(param, '=');
    assert(param.contains(param[4]));
    let k = text::find(param, seq!['='])->0;
    if k > 4 {
        assert(param[4] != '=');
    }
    assert(k == 4);
    assert(param.take(4) =~= "code"@);
}

/// The code is found wherever it stands among the query parameters: it is the first of them that is one.
pub proof fn law_first_code(params: Seq<Seq<char>>, i: int, j: int)
    requires
        0 <= i <= j <= params.len(),
        forall|k: int| i <= k < j ==> !text::occurs_at(#[trigger] params[k], "code="@, 0),
    ensures
        j == params.len() ==> first_code(params, i) is None,
        j < params.len() && text::occurs_at(params[j], "code="@, 0) ==> first_code(params, i)
            == Some(url_decoded(params[j].skip(5))),
    decreases j - i,
{
    if i < j {
        law_code_value(params[i], Seq::empty());
        assert(!text::occurs_at(params[i], "code="@, 0));
        law_first_code(params, i + 1, j);
    } else if j < params.len() && text::occurs_at(params[j], "code="@, 0) {
        lemma_code_param(params[j]);
    }
}

/// From the request line of a callback the code is read wherever it stands in the query: after any path
/// and any parameters that are no code, and whatever follows.
pub proof fn law_code_after_other_parameters(
    path: Seq<char>,
    others: Seq<char>,
    code: Seq<char>,
    more: Seq<char>,
)
    requires
        is_query_text(path),
        path.len() > 0,
        is_query_text(others),
        is_query_text(code),
        is_query_text(more),
        !code.contains('&'),
        forall|i: int|
            0 <= i < text::split_on(others, '&').len() ==> !text::occurs_at(
                #[trigger] text::split_on(others, '&')[i],
                "code="@,
                0,
            ),
    ensures
        auth_code(
            "GET "@ + path + "?"@ + others + "&code="@ + code + "&"@ + more + " HTTP/1.1"@,
        ) == Some(url_decoded(code)),
{
    reveal_strlit("GET ");
    reveal_strlit("?");
    reveal_strlit("&code=");
    reveal_strlit("code=");
    reveal_strlit("&");
    reveal_strlit(" HTTP/1.1");
    let param = "code="@ + code;
    let tail = param + seq!['&'] + more;
    let query = others + seq!['&'] + tail;
    let target = path + seq!['?'] + query;
    let get = seq!['G', 'E', 'T'];
    let version = seq!['H', 'T', 'T', 'P', '/', '1', '.', '1'];
    let line = "GET "@ + path + "?"@ + others + "&code="@ + code + "&"@ + more + " HTTP/1.1"@;
    assert forall|i: int| 0 <= i < query.len() implies !text::is_white_space(#[trigger] query[i])
        && query[i] != '?' by {
        let n = others.len() as int;
        let m = code.len() as int;
        if i < n {
            assert(query[i] == others[i]);
        } else if n + 6 <= i < n + 6 + m {
            assert(query[i] == code[i - n - 6]);
        } else if i > n + 6 + m {
            assert(query[i] == more[i - n - 7 - m]);
        }
    }
    assert forall|i: int| 0 <= i < target.len() implies !text::is_white_space(
        #[trigger] target[i],
    ) by {
        let n = path.len() as int;
        if i < n {
            assert(target[i] == path[i]);
        } else if i > n {
            assert(target[i] == query[i - n - 1]);
        }
    }
    // The words of the line.
    assert(line =~= get + seq![' '] + (target + seq![' '] + version));
    text::law_words(get, ' ', target + seq![' '] + version);
    text::law_words(target, ' ', version);
    text::law_words(version, ' ', version);
    let ws = text::words(line);
    assert(ws =~= seq![get] + (seq![target] + seq![version]));
    assert(ws[1] == target);
    // The query of the target.
    assert(!path.contains('?')) by {
        if path.contains('?') {
            let i = choose|i: int| 0 <= i < path.len() && path[i] == '?';
            assert(path[i] != '?');
        }
    }
    assert(!query.contains('?')) by {
        if query.contains('?') {
            let i = choose|i: int| 0 <= i < query.len() && query[i] == '?';
            assert(query[i] != '?');
        }
    }
    text::law_split_on_parts(path, '?', query);
    text::law_split_on_parts(query, '?', query);
    assert(text::split_on(target, '?')[1] == query);
    // The parameters of the query.
    assert(!param.contains('&')) by {
        if param.contains('&') {
            let i = choose|i: int| 0 <= i < param.len() && param[i] == '&';
            assert(i >= 5);
            assert(code[i - 5] == '&');
        }
    }
    text::law_split_on_parts(others, '&', tail);
    text::law_split_on_parts(param, '&', more);
    let params = text::split_on(query, '&');
    let before = text::split_on(others, '&');
    let j = before.len() as int;
    assert(params[j] == param);
    assert(param.subrange(0, 5) =~= "code="@);
    assert(param.skip(5) =~= code);
    assert forall|k: int| 0 <= k < j implies !text::occurs_at(
        #[trigger] params[k],
        "code="@,
        0,
    ) by {
        assert(params[k] == before[k]);
    }
    law_first_code(params, 0, j);
}

/// A request line without a query, or with one that has no code, yields none.
pub proof fn law_no_code(request_line: &str, res: Result<String, String>)
    requires
        call_ensures(parse_auth_code, (request_line,), res),
    ensures
        ({
            let ws = text::words(request_line@);
            &&& ws.len() < 2 ==> res is Err
            &&& ws.len() >= 2 && !ws[1].contains('?') ==> res is Err
            &&& ws.len() >= 2 && ws[1].contains('?') ==> (res is Ok <==> exists|i: int|
                0 <= i < text::split_on(text::split_on(ws[1], '?')[1], '&').len()
                    && text::occurs_at(
                    #[trigger] text::split_on(text::split_on(ws[1], '?')[1], '&')[i],
                    "code="@,
                    0,
                ))
        }),
{
    let ws = text::words(request_line@);
    if ws.len() >= 2 {
        text::lemma_find_char(ws[1], '?');
        let parts = text::split_on(ws[1], '?');
        if !ws[1].contains('?') {
            text::lemma_split_on_none(ws[1], '?');
        } else {
            let k = text::find(ws[1], seq!['?'])->0;
            text::law_split_on(ws[1].skip(k + 1), '?');
            assert(parts.len() >= 2);
            let params = text::split_on(parts[1], '&');
            lemma_first_code_found(params, 0);
        }
    }
}

proof fn lemma_first_code_found(params: Seq<Seq<char>>, i: int)
    requires
        0 <= i <= params.len(),
    ensures
        first_code(params, i) is Some <==> exists|k: int|
            i <= k < params.len() && text::occurs_at(#[trigger] params[k], "code="@, 0),
    decreases params.len() - i,
{
    if i < params.len() {
        law_code_value(params[i], Seq::empty());
        lemma_first_code_found(params, i + 1);
    }
}

/// The browser is sent back to this computer, at the port on which it is awaited.
pub proof fn law_redirect_uri(port: u16, res: String)
    requires
        call_ensures(redirect_uri, (port,), res),
    ensures
        text::occurs_at(res@, "http://127.0.0.1:"@, 0),
        number::parsed(res@.skip("http://127.0.0.1:"@.len() as int), 65535) == Some(port as nat),
{
    let head = "http://127.0.0.1:"@;
    assert(res@.subrange(0, head.len() as int) =~= head);
    assert(res@.skip(head.len() as int) =~= number::decimal(port as nat));
    number::law_parsed(port as nat, 65535);
}

/// The sign-in page is asked for with the client's own identifier, and for the address to which the browser
/// is sent back, which is read from it as it was.
pub proof fn law_auth_url(client_id: &str, redirect: &str, res: String)
    requires
        call_ensures(auth_url, (client_id, redirect), res),
    ensures
        text::occurs(res@, "?client_id="@ + client_id@ + "&"@),
        text::occurs(res@, "&redirect_uri="@ + url_encoded(redirect@) + "&response_type=code"@),
        !redirect@.contains('%') && !redirect@.contains('+') ==> url_decoded(
            url_encoded(redirect@),
        ) == redirect@,
{
    reveal_strlit("https://accounts.google.com/o/oauth2/v2/auth?client_id=");
    reveal_strlit("?client_id=");
    reveal_strlit("&");
    reveal_strlit("&redirect_uri=");
    reveal_strlit("&response_type=code");
    reveal_strlit(
        "&response_type=code&scope=openid%20email%20profile&access_type=offline&prompt=select_account",
    );
    let e = url_encoded(redirect@);
    let client = "?client_id="@ + client_id@ + "&"@;
    let back = "&redirect_uri="@ + e + "&response_type=code"@;
    let k = 44int;
    assert(res@.subrange(k, k + client.len()) =~= client);
    assert(text::occurs_at(res@, client, k));
    let m = 55int + client_id@.len();
    assert(res@.subrange(m, m + back.len()) =~= back);
    assert(text::occurs_at(res@, back, m));
    if !redirect@.contains('%') && !redirect@.contains('+') {
        law_decode_of_encode(redirect@);
    }
}

/// The answer to the callback ends in the page, and the length that it names is the number of bytes of the
/// page.
pub proof fn law_callback_response(res: String)
    requires
        call_ensures(callback_response, (), res),
    ensures
        text::occurs(
            res@,
            "Content-Length: "@ + number::decimal(
                vstd::utf8::encode_utf8(CALLBACK_PAGE@).len(),
            ) + "\r\n"@,
        ),
        res@.len() >= CALLBACK_PAGE@.len(),
        res@.skip(res@.len() - CALLBACK_PAGE@.len()) == CALLBACK_PAGE@,
{
    text::lemma_byte_len_encoding(CALLBACK_PAGE@);
    reveal_strlit("HTTP/1.1 200 OK\r\nContent-Type: text/html; charset=utf-8\r\nContent-Length: ");
    reveal_strlit("Content-Length: ");
    reveal_strlit("\r\n");
    reveal_strlit("\r\nConnection: close\r\n\r\n");
    let digits = number::decimal(text::byte_len(CALLBACK_PAGE@));
    let told = "Content-Length: "@ + digits + "\r\n"@;
    let head =
        "HTTP/1.1 200 OK\r\nContent-Type: text/html; charset=utf-8\r\nContent-Length: "@;
    let k = head.len() - 16;
    assert(res@.subrange(k, k + told.len()) =~= told);
    assert(text::occurs_at(res@, told, k));
    assert(res@.skip(res@.len() - CALLBACK_PAGE@.len()) =~= CALLBACK_PAGE@);
}

/// A sign-in yields the tokens exactly where the answer has both, and as the answer has them.
pub proof fn law_tokens(
    id_token: Option<String>,
    access_token: Option<String>,
    body: String,
    res: Result<GoogleTokens, TokenError>,
)
    requires
        call_ensures(collect_tokens, (id_token, access_token, body), res),
    ensures
        res is Ok <==> id_token is Some && access_token is Some,
        res matches Ok(t) ==> t.id_token == id_token->0 && t.access_token == access_token->0,
        id_token is None ==> res == Err::<GoogleTokens, TokenError>(TokenError::NoIdToken(body)),
{
}

/// The answer to the exchange yields tokens exactly where it is JSON with both of them; where both are
/// missing, the identity token is what is missed.
pub proof fn law_tokens_of_reply(reply: &[u8], res: Result<GoogleTokens, TokenError>)
    requires
        call_ensures(tokens_of_reply, (reply,), res),
    ensures
        json_value(reply@) is None ==> res is Err,
        json_value(reply@) matches Some((members, body)) ==> {
            &&& res is Ok <==> members.contains_key("id_token"@) && members.contains_key(
                "access_token"@,
            )
            &&& res matches Ok(t) ==> t.id_token@ == members["id_token"@] && t.access_token@
                == members["access_token"@]
            &&& !members.contains_key("id_token"@) ==> (res matches Err(TokenError::NoIdToken(t))
                && t@ == body)
        },
{
}

} // verus!
