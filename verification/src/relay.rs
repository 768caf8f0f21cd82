//! The decision half of the auxiliary network relays: parsing the
//! request method, form-encoding the payload, and classifying responses
//! into the uniform success/failure envelope. The network calls
//! themselves live outside the library; these functions take their
//! inputs and results as plain values.

use vstd::prelude::*;
use vstd::string::StrSliceExecFns;
use vstd::string::StringExecFns;

verus! {

/// The success envelope of the relay commands.
#[derive(Debug)]
pub struct SResult<T> {
    pub error: Option<String>,
    pub message: Option<String>,
    pub data: Option<T>,
}

/// The failure envelope of the relay commands.
#[derive(Debug)]
pub struct Fail {
    pub error: Option<String>,
    pub message: Option<String>,
}

/// The request methods the relay forwards.
#[derive(PartialEq, Eq, Structural, Clone, Copy, Debug)]
pub enum HttpMethod {
    Get,
    Post,
    Put,
    Delete,
}

/// Case-insensitive match of one character against its two forms.
pub open spec fn ci(c: char, lower: char, upper: char) -> bool {
    c == lower || c == upper
}

pub open spec fn spells_get(s: Seq<char>) -> bool {
    s.len() == 3 && ci(s[0], 'g', 'G') && ci(s[1], 'e', 'E') && ci(s[2], 't', 'T')
}

pub open spec fn spells_post(s: Seq<char>) -> bool {
    s.len() == 4 && ci(s[0], 'p', 'P') && ci(s[1], 'o', 'O') && ci(s[2], 's', 'S')
        && ci(s[3], 't', 'T')
}

pub open spec fn spells_put(s: Seq<char>) -> bool {
    s.len() == 3 && ci(s[0], 'p', 'P') && ci(s[1], 'u', 'U') && ci(s[2], 't', 'T')
}

pub open spec fn spells_delete(s: Seq<char>) -> bool {
    s.len() == 6 && ci(s[0], 'd', 'D') && ci(s[1], 'e', 'E') && ci(s[2], 'l', 'L')
        && ci(s[3], 'e', 'E') && ci(s[4], 't', 'T') && ci(s[5], 'e', 'E')
}

/// The method a request string names, matched without regard to ASCII
/// case; anything else is unsupported.
pub open spec fn method_of(s: Seq<char>) -> Option<HttpMethod> {
    if spells_get(s) {
        Some(HttpMethod::Get)
    } else if spells_post(s) {
        Some(HttpMethod::Post)
    } else if spells_put(s) {
        Some(HttpMethod::Put)
    } else if spells_delete(s) {
        Some(HttpMethod::Delete)
    } else {
        None
    }
}

/// Whether a character matches either of two expected forms.
fn ci_eq(c: char, lower: char, upper: char) -> (r: bool)
    ensures
        r == ci(c, lower, upper),
{
    c == lower || c == upper
}

/// Parses the request method, case-insensitively.
pub fn parse_method(s: &str) -> (r: Option<HttpMethod>)
    ensures
        r == method_of(s@),
{
    let n = s.unicode_len();
    if n == 3 {
        let c0 = s.get_char(0);
        let c1 = s.get_char(1);
        let c2 = s.get_char(2);
        if ci_eq(c0, 'g', 'G') && ci_eq(c1, 'e', 'E') && ci_eq(c2, 't', 'T') {
            return Some(HttpMethod::Get);
        }
        if ci_eq(c0, 'p', 'P') && ci_eq(c1, 'u', 'U') && ci_eq(c2, 't', 'T') {
            return Some(HttpMethod::Put);
        }
        return None;
    }
    if n == 4 {
        let c0 = s.get_char(0);
        let c1 = s.get_char(1);
        let c2 = s.get_char(2);
        let c3 = s.get_char(3);
        if ci_eq(c0, 'p', 'P') && ci_eq(c1, 'o', 'O') && ci_eq(c2, 's', 'S')
            && ci_eq(c3, 't', 'T') {
            return Some(HttpMethod::Post);
        }
        return None;
    }
    if n == 6 {
        let c0 = s.get_char(0);
        let c1 = s.get_char(1);
        let c2 = s.get_char(2);
        let c3 = s.get_char(3);
        let c4 = s.get_char(4);
        let c5 = s.get_char(5);
        if ci_eq(c0, 'd', 'D') && ci_eq(c1, 'e', 'E') && ci_eq(c2, 'l', 'L')
            && ci_eq(c3, 'e', 'E') && ci_eq(c4, 't', 'T') && ci_eq(c5, 'e', 'E') {
            return Some(HttpMethod::Delete);
        }
        return None;
    }
    None
}

/// The decimal digit character of a value below ten.
pub open spec fn digit_char(d: int) -> char {
    if d == 0 {
        '0'
    } else if d == 1 {
        '1'
    } else if d == 2 {
        '2'
    } else if d == 3 {
        '3'
    } else if d == 4 {
        '4'
    } else if d == 5 {
        '5'
    } else if d == 6 {
        '6'
    } else if d == 7 {
        '7'
    } else if d == 8 {
        '8'
    } else {
        '9'
    }
}

/// The decimal spelling of a non-negative number.
pub open spec fn dec_digits(n: int) -> Seq<char>
    decreases n,
{
    if n < 10 {
        seq![digit_char(n)]
    } else {
        dec_digits(n / 10) + seq![digit_char(n % 10)]
    }
}

/// One decimal digit as text.
fn digit_str(d: u16) -> (r: &'static str)
    requires
        d < 10,
    ensures
        r@ == seq![digit_char(d as int)],
{
    proof {
        reveal_strlit("0");
        reveal_strlit("1");
        reveal_strlit("2");
        reveal_strlit("3");
        reveal_strlit("4");
        reveal_strlit("5");
        reveal_strlit("6");
        reveal_strlit("7");
        reveal_strlit("8");
        reveal_strlit("9");
    }
    match d {
        0 => "0",
        1 => "1",
        2 => "2",
        3 => "3",
        4 => "4",
        5 => "5",
        6 => "6",
        7 => "7",
        8 => "8",
        _ => "9",
    }
}

/// Appends the decimal spelling of `n`.
fn push_dec(n: u16, out: &mut String)
    ensures
        final(out)@ == old(out)@ + dec_digits(n as int),
    decreases n,
{
    if n >= 10 {
        push_dec(n / 10, out);
        out.append(digit_str(n % 10));
        proof {
            assert(old(out)@ + dec_digits((n / 10) as int) + seq![digit_char((n % 10) as int)]
                =~= old(out)@ + dec_digits(n as int));
        }
    } else {
        out.append(digit_str(n));
        proof {
            assert(old(out)@ + seq![digit_char(n as int)] =~= old(out)@ + dec_digits(n as int));
        }
    }
}

/// The decimal spelling of a status code.
pub fn dec_string(n: u16) -> (r: String)
    ensures
        r@ == dec_digits(n as int),
{
    let mut out = String::new();
    push_dec(n, &mut out);
    proof {
        assert(Seq::<char>::empty() + dec_digits(n as int) =~= dec_digits(n as int));
    }
    out
}

/// The detail line of a failed request: its status code and body.
pub open spec fn status_detail(status: int, body: Seq<char>) -> Seq<char> {
    "Status code: "@ + dec_digits(status) + " - "@ + body
}

/// Builds the detail line of a failed request.
fn status_detail_string(status: u16, body: &String) -> (r: String)
    ensures
        r@ == status_detail(status as int, body@),
{
    let mut out = "Status code: ".to_string();
    push_dec(status, &mut out);
    out.append(" - ");
    out.append(body.as_str());
    out
}

/// Relies on serde_json::from_str::<Value>: whether a text is valid
/// JSON, and its parse, are functions of the text alone.
pub uninterp spec fn json_ok(s: Seq<char>) -> bool;

/// Declares serde_json's document type so that values of it can be
/// carried through the envelope; the library never looks inside one.
#[verifier::external_type_specification]
#[verifier::external_body]
pub struct ExValue(serde_json::Value);

/// Relies on serde_json::from_str::<Value>: parses a response body;
/// success depends on the text alone.
#[verifier::external_body]
pub fn parse_json(s: &str) -> (r: Option<serde_json::Value>)
    ensures
        r is Some <==> json_ok(s@),
{
    serde_json::from_str::<serde_json::Value>(s).ok()
}

/// Relies on serde_urlencoded::to_string: the encoding of a list of
/// key/value pairs is a function of the pairs alone, and encoding
/// string pairs always succeeds.
pub uninterp spec fn form_encoded(keys: Seq<Seq<char>>, values: Seq<Seq<char>>) -> Seq<char>;

/// One key/value pair of a form payload.
#[derive(Debug)]
pub struct FormPair {
    pub key: String,
    pub value: String,
}

/// The keys of a payload, in order.
pub open spec fn pair_keys(pairs: Seq<FormPair>) -> Seq<Seq<char>> {
    pairs.map_values(|p: FormPair| p.key@)
}

/// The values of a payload, in order.
pub open spec fn pair_values(pairs: Seq<FormPair>) -> Seq<Seq<char>> {
    pairs.map_values(|p: FormPair| p.value@)
}

/// Relies on serde_urlencoded::to_string: encodes the payload as
/// `application/x-www-form-urlencoded`. Encoding a sequence of string
/// pairs never fails, and an empty payload encodes to the empty string.
#[verifier::external_body]
pub fn form_encode(pairs: &Vec<FormPair>) -> (r: String)
    ensures
        r@ == form_encoded(pair_keys(pairs@), pair_values(pairs@)),
        pairs@.len() == 0 ==> r@.len() == 0,
{
    let flat: Vec<(&str, &str)> = pairs.iter().map(|p| (p.key.as_str(), p.value.as_str()))
        .collect();
    serde_urlencoded::to_string(&flat).unwrap_or_default()
}

/// A fully prepared outbound request: everything the sender needs.
#[derive(Debug)]
pub struct RequestPlan {
    pub method: HttpMethod,
    pub url: String,
    pub form_body: Option<String>,
}

/// Prepares an outbound request: the method string must name a
/// supported method, and a payload is form-encoded for `Post` and `Put`
/// requests only. Sending the plan is the caller's business.
pub fn plan_request(method_str: &String, url: String, payload: Option<Vec<FormPair>>) -> (r:
    Result<RequestPlan, Fail>)
    ensures
        r is Ok <==> method_of(method_str@) is Some,
        r is Err ==> r->Err_0.error is Some
            && r->Err_0.error->Some_0@ == "Unsupported HTTP method: "@ + method_str@
            && r->Err_0.message is None,
        r is Ok ==> r->Ok_0.method == method_of(method_str@)->Some_0
            && r->Ok_0.url == url
            && ((r->Ok_0.method == HttpMethod::Post || r->Ok_0.method == HttpMethod::Put)
                && payload is Some ==> r->Ok_0.form_body is Some
                    && r->Ok_0.form_body->Some_0@ == form_encoded(
                        pair_keys(payload->Some_0@), pair_values(payload->Some_0@)))
            && (!((r->Ok_0.method == HttpMethod::Post || r->Ok_0.method == HttpMethod::Put)
                && payload is Some) ==> r->Ok_0.form_body is None),
{
    let method = match parse_method(method_str.as_str()) {
        Some(m) => m,
        None => {
            let mut text = "Unsupported HTTP method: ".to_string();
            text.append(method_str.as_str());
            return Err(Fail { error: Some(text), message: None });
        },
    };
    let body_needed = match method {
        HttpMethod::Post => true,
        HttpMethod::Put => true,
        _ => false,
    };
    let form_body = if body_needed {
        match &payload {
            Some(pairs) => Some(form_encode(pairs)),
            None => None,
        }
    } else {
        None
    };
    Ok(RequestPlan { method, url, form_body })
}

/// Classifies an HTTP response, given its status code, its body, and
/// the body's JSON parse: a 2xx response with a JSON body succeeds; a
/// 2xx response with an unparsable body, a 401, and everything else
/// each fail with their own envelope.
pub fn classify_response(status: u16, parsed: Option<serde_json::Value>, body: &String) -> (r:
    Result<SResult<serde_json::Value>, Fail>)
    ensures
        200 <= status <= 299 && parsed is Some ==> r is Ok
            && r->Ok_0.error is None
            && r->Ok_0.message is Some
            && r->Ok_0.message->Some_0@ == "Request successful"@
            && r->Ok_0.data == parsed,
        200 <= status <= 299 && parsed is None ==> r is Err
            && r->Err_0.error is Some && r->Err_0.error->Some_0@ == "Failed to parse response"@
            && r->Err_0.message is None,
        status == 401 ==> r is Err
            && r->Err_0.error is Some && r->Err_0.error->Some_0@ == dec_digits(status as int)
            && r->Err_0.message is Some
            && r->Err_0.message->Some_0@ == status_detail(status as int, body@),
        !(200 <= status <= 299) && status != 401 ==> r is Err
            && r->Err_0.error is Some && r->Err_0.error->Some_0@ == "API request failed"@
            && r->Err_0.message is Some
            && r->Err_0.message->Some_0@ == status_detail(status as int, body@),
{
    if 200 <= status && status <= 299 {
        match parsed {
            Some(v) => Ok(SResult {
                error: None,
                message: Some("Request successful".to_string()),
                data: Some(v),
            }),
            None => Err(Fail {
                error: Some("Failed to parse response".to_string()),
                message: None,
            }),
        }
    } else if status == 401 {
        Err(Fail {
            error: Some(dec_string(status)),
            message: Some(status_detail_string(status, body)),
        })
    } else {
        Err(Fail {
            error: Some("API request failed".to_string()),
            message: Some(status_detail_string(status, body)),
        })
    }
}

/// Classifies a login response from its decoded fields: a token on a
/// successful status wins; a missing token fails with the server's
/// error or a default; a failed status fails outright.
pub fn classify_login(
    status_ok: bool,
    token: Option<String>,
    error: Option<String>,
    message: Option<String>,
) -> (r: Result<SResult<String>, Fail>)
    ensures
        status_ok && token is Some ==> r is Ok
            && r->Ok_0.error is None
            && r->Ok_0.message is Some
            && r->Ok_0.message->Some_0@ == "Login successful"@
            && r->Ok_0.data == Some(token->Some_0),
        status_ok && token is None && error is Some ==> r is Err
            && r->Err_0.error == Some(error->Some_0) && r->Err_0.message == message,
        status_ok && token is None && error is None ==> r is Err
            && r->Err_0.error is Some
            && r->Err_0.error->Some_0@ == "Unknown error occurred"@
            && r->Err_0.message == message,
        !status_ok ==> r is Err
            && r->Err_0.error is Some && r->Err_0.error->Some_0@ == "Failed to login"@
            && r->Err_0.message is None,
{
    if !status_ok {
        return Err(Fail { error: Some("Failed to login".to_string()), message: None });
    }
    match token {
        Some(t) => Ok(SResult {
            error: None,
            message: Some("Login successful".to_string()),
            data: Some(t),
        }),
        None => match error {
            Some(e) => Err(Fail { error: Some(e), message }),
            None => Err(Fail {
                error: Some("Unknown error occurred".to_string()),
                message,
            }),
        },
    }
}

/// The levels of the logging command.
#[derive(PartialEq, Eq, Structural, Clone, Copy, Debug)]
pub enum LogLevel {
    Info,
    Warn,
    Error,
}

/// The level a string names; anything unknown is read as `Info`.
pub open spec fn log_level_of(s: Seq<char>) -> LogLevel {
    if s == "warn"@ {
        LogLevel::Warn
    } else if s == "error"@ {
        LogLevel::Error
    } else {
        LogLevel::Info
    }
}

/// Parses a log level, defaulting to `Info`.
pub fn parse_log_level(s: &String) -> (r: LogLevel)
    ensures
        r == log_level_of(s@),
{
    if s.eq(&"warn".to_string()) {
        proof {
            reveal_strlit("warn");
        }
        LogLevel::Warn
    } else if s.eq(&"error".to_string()) {
        proof {
            reveal_strlit("error");
        }
        LogLevel::Error
    } else {
        LogLevel::Info
    }
}

} // verus!
