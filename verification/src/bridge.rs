//! The chat bridge: the request shape sent to the backend's chat endpoint,
//! the response shape read back, and the interpretation of one HTTP round
//! trip as either a decoded response or a categorized error.
use crate::json_text::{
    read_response, escape_onto, spec_escape, spec_response_of, spec_hex_digit, hex_digit_char,
};
use vstd::prelude::*;

verus! {

use vstd::string::StrSliceExecFns;
use vstd::string::StringExecFns;

/// The body sent to the chat endpoint: one member, `message`, holding the
/// caller's text.
pub struct ChatRequest {
    pub message: String,
}

/// A successfully decoded backend reply: the reply text, and a timestamp
/// where the backend sent one.
pub struct ChatResponse {
    pub reply: String,
    pub timestamp: Option<String>,
}

/// The categorized ways one bridge invocation can fail: the transport broke
/// before any response arrived, the backend answered outside the success
/// range, or the body of a successful answer could not be decoded.
pub enum ChatError {
    Transport { cause: String },
    Server { status: u16 },
    Decode { detail: String },
}

/// What one HTTP transaction yielded, as plain values: either a response
/// with its status code and body text, or a transport failure with its
/// description.
pub enum HttpOutcome {
    Response { status: u16, body: String },
    TransportFailed { cause: String },
}

/// The timestamp field as an abstract optional character sequence.
pub open spec fn spec_opt_str_view(o: Option<String>) -> Option<Seq<char>> {
    match o {
        Some(s) => Some(s@),
        None => None,
    }
}

/// Collects the characters of a string slice into a vector.
pub fn str_chars(s: &str) -> (v: Vec<char>)
    ensures
        v@ == s@,
{
    let n = s.unicode_len();
    let mut v: Vec<char> = Vec::new();
    let mut i: usize = 0;
    while i < n
        invariant
            i <= n,
            n == s@.len(),
            v@ == s@.take(i as int),
        decreases n - i,
    {
        let c = s.get_char(i);
        v.push(c);
        proof {
            assert(s@.take(i as int).push(s@[i as int]) =~= s@.take(i as int + 1));
        }
        i += 1;
    }
    proof {
        assert(s@.take(n as int) =~= s@);
    }
    v
}

/// Relies on String's FromIterator over char: collecting yields the string
/// of exactly those characters, in order.
#[verifier::external_body]
fn chars_to_string(v: &Vec<char>) -> (s: String)
    ensures
        s@ == v@,
{
    v.iter().collect()
}

/// The JSON text sent for a message: an object with the single member
/// `message`, its value the escaped text.
pub open spec fn spec_request_body(message: Seq<char>) -> Seq<char> {
    seq!['{', '"', 'm', 'e', 's', 's', 'a', 'g', 'e', '"', ':', '"'] + spec_escape(message)
        + seq!['"', '}']
}

impl ChatRequest {
    /// Wraps a message for sending.
    pub fn new(message: String) -> (r: ChatRequest)
        ensures
            r.message@ == message@,
    {
        ChatRequest { message }
    }

    /// Serializes the request as its JSON body.
    pub fn to_json(&self) -> (r: String)
        ensures
            r@ == spec_request_body(self.message@),
    {
        let chars = str_chars(self.message.as_str());
        let mut out: Vec<char> = Vec::new();
        out.push('{');
        out.push('"');
        out.push('m');
        out.push('e');
        out.push('s');
        out.push('s');
        out.push('a');
        out.push('g');
        out.push('e');
        out.push('"');
        out.push(':');
        out.push('"');
        proof {
            assert(out@ =~= seq!['{', '"', 'm', 'e', 's', 's', 'a', 'g', 'e', '"', ':', '"']);
        }
        escape_onto(&chars, &mut out);
        out.push('"');
        out.push('}');
        proof {
            assert(out@ =~= spec_request_body(self.message@));
        }
        chars_to_string(&out)
    }
}

/// Decodes a backend reply body into a response, or `None` exactly when the
/// text is not of the response shape.
pub fn parse_response(body: &str) -> (r: Option<ChatResponse>)
    ensures
        match r {
            Some(resp) => spec_response_of(body@) == Some(
                (resp.reply@, spec_opt_str_view(resp.timestamp)),
            ),
            None => spec_response_of(body@) is None,
        },
{
    let chars = str_chars(body);
    match read_response(&chars) {
        Some((rv, ts)) => {
            let reply = chars_to_string(&rv);
            let timestamp = match ts {
                Some(tv) => Some(chars_to_string(&tv)),
                None => None,
            };
            Some(ChatResponse { reply, timestamp })
        },
        None => None,
    }
}

/// True exactly when an HTTP status code lies in the success range.
pub open spec fn spec_status_success(status: u16) -> bool {
    200 <= status < 300
}

/// Decides whether an HTTP status code counts as success (2xx).
pub fn status_is_success(status: u16) -> (r: bool)
    ensures
        r == spec_status_success(status),
{
    200 <= status && status < 300
}

/// The fixed description carried by a decode failure.
pub open spec fn spec_decode_detail() -> Seq<char> {
    "the response body is not a valid chat response"@
}

/// How an HTTP outcome must be interpreted: a transport failure surfaces as
/// `Transport`, a non-success status as `Server` with that status, and a
/// successful status as the decoded response, or as `Decode` where the body
/// has no meaning under [`spec_response_of`].
pub open spec fn spec_interprets(o: HttpOutcome, r: Result<ChatResponse, ChatError>) -> bool {
    match o {
        HttpOutcome::TransportFailed { cause } => r matches Err(
            ChatError::Transport { cause: c },
        ) && c@ == cause@,
        HttpOutcome::Response { status, body } => {
            if !spec_status_success(status) {
                r matches Err(ChatError::Server { status: st }) && st == status
            } else {
                match spec_response_of(body@) {
                    Some((rep, ts)) => r matches Ok(resp) && resp.reply@ == rep
                        && spec_opt_str_view(resp.timestamp) == ts,
                    None => r matches Err(ChatError::Decode { detail }) && detail@
                        == spec_decode_detail(),
                }
            }
        },
    }
}

/// Turns what one HTTP transaction yielded into the bridge's result:
/// exactly the interpretation that [`spec_interprets`] describes.
pub fn interpret_outcome(o: HttpOutcome) -> (r: Result<ChatResponse, ChatError>)
    ensures
        spec_interprets(o, r),
{
    match o {
        HttpOutcome::TransportFailed { cause } => Err(ChatError::Transport { cause }),
        HttpOutcome::Response { status, body } => {
            if !status_is_success(status) {
                Err(ChatError::Server { status })
            } else {
                match parse_response(body.as_str()) {
                    Some(resp) => Ok(resp),
                    None => Err(
                        ChatError::Decode {
                            detail: String::from_str("the response body is not a valid chat response"),
                        },
                    ),
                }
            }
        },
    }
}

/// The decimal digit sequence of a non-negative number, most significant
/// digit first.
pub open spec fn spec_decimal(n: int) -> Seq<char>
    decreases n,
    when n >= 0
{
    if n < 10 {
        seq![spec_hex_digit(n)]
    } else {
        spec_decimal(n / 10) + seq![spec_hex_digit(n % 10)]
    }
}

/// The decimal digit characters of a status code.
pub fn decimal_digits(n: u16) -> (v: Vec<char>)
    ensures
        v@ == spec_decimal(n as int),
    decreases n,
{
    if n < 10 {
        let mut v: Vec<char> = Vec::new();
        v.push(hex_digit_char(n as u32));
        proof {
            assert(v@ =~= seq![spec_hex_digit(n as int)]);
        }
        v
    } else {
        let mut v = decimal_digits(n / 10);
        v.push(hex_digit_char((n % 10) as u32));
        proof {
            assert(spec_decimal(n as int / 10).push(spec_hex_digit(n as int % 10)) =~= spec_decimal(
                n as int / 10,
            ) + seq![spec_hex_digit(n as int % 10)]);
        }
        v
    }
}

/// The text before the cause in a transport failure message.
pub open spec fn spec_transport_prefix() -> Seq<char> {
    "network request failed: "@
}

/// The text before the status in a server failure message.
pub open spec fn spec_server_prefix() -> Seq<char> {
    "server error: status "@
}

/// The text before the detail in a decode failure message.
pub open spec fn spec_decode_prefix() -> Seq<char> {
    "failed to parse response: "@
}

impl ChatError {
    /// The non-empty human-readable text for this failure: its category's
    /// wording followed by the cause, the decimal status code, or the
    /// detail.
    pub fn message(&self) -> (r: String)
        ensures
            r@.len() > 0,
            match self {
                ChatError::Transport { cause } => r@ == spec_transport_prefix() + cause@,
                ChatError::Server { status } => r@ == spec_server_prefix() + spec_decimal(
                    *status as int,
                ),
                ChatError::Decode { detail } => r@ == spec_decode_prefix() + detail@,
            },
    {
        match self {
            ChatError::Transport { cause } => {
                proof {
                    reveal_strlit("network request failed: ");
                }
                let mut m = String::from_str("network request failed: ");
                m.append(cause.as_str());
                m
            },
            ChatError::Server { status } => {
                proof {
                    reveal_strlit("server error: status ");
                }
                let mut m = String::from_str("server error: status ");
                let d = decimal_digits(*status);
                let ds = chars_to_string(&d);
                m.append(ds.as_str());
                m
            },
            ChatError::Decode { detail } => {
                proof {
                    reveal_strlit("failed to parse response: ");
                }
                let mut m = String::from_str("failed to parse response: ");
                m.append(detail.as_str());
                m
            },
        }
    }
}

/// The compiled-in backend address used when none is supplied.
pub open spec fn spec_default_base_url() -> Seq<char> {
    "http://localhost:8080"@
}

/// The path of the chat endpoint under the base URL.
pub open spec fn spec_chat_path() -> Seq<char> {
    "/api/v1/chat"@
}

/// The bridge's configuration: the base URL of the backend that chat
/// requests are sent to.
pub struct ChatBridge {
    pub base_url: String,
}

impl ChatBridge {
    /// A bridge pointed at the default backend address.
    pub fn new() -> (r: ChatBridge)
        ensures
            r.base_url@ == spec_default_base_url(),
    {
        ChatBridge { base_url: String::from_str("http://localhost:8080") }
    }

    /// A bridge pointed at the given backend address.
    pub fn with_base_url(base_url: String) -> (r: ChatBridge)
        ensures
            r.base_url@ == base_url@,
    {
        ChatBridge { base_url }
    }

    /// The full URL of the chat endpoint for this bridge.
    pub fn endpoint_url(&self) -> (r: String)
        ensures
            r@ == self.base_url@ + spec_chat_path(),
    {
        let mut u = self.base_url.clone();
        u.append("/api/v1/chat");
        u
    }
}

} // verus!
