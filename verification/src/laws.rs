//! Proved laws of the bridge: what decoding guarantees on bodies of the
//! documented response shape, and that interpretation is a function of the
//! outcome alone.
use crate::bridge::{
    spec_interprets, spec_opt_str_view, ChatError, ChatResponse, HttpOutcome,
};
use crate::json_text::{
    spec_escape, spec_escape_char, spec_hex_digit, spec_hex_val, spec_reply_key, spec_response_of,
    spec_string_body, spec_cons_string, spec_timestamp_key, spec_members, spec_member_value,
    spec_skip_ws, ResponseFields,
};
use vstd::prelude::*;

verus! {

use vstd::arithmetic::div_mod::lemma_fundamental_div_mod;

/// A character that stands for itself inside a JSON string literal.
pub open spec fn spec_is_plain_char(c: char) -> bool {
    c != '"' && c != '\\' && c as u32 >= 0x20
}

/// Reading back the digit character of a value below sixteen yields the
/// value.
pub proof fn lemma_hex_digit_val(v: int)
    requires
        0 <= v < 16,
    ensures
        spec_hex_val(spec_hex_digit(v)) == Some(v),
{
}

/// Escaping a character sequence of plain characters leaves it unchanged.
pub proof fn lemma_escape_plain(s: Seq<char>)
    requires
        forall|k: int| 0 <= k < s.len() ==> spec_is_plain_char(s[k]),
    ensures
        spec_escape(s) == s,
    decreases s.len(),
{
    if s.len() == 0 {
        assert(spec_escape(s) =~= s);
    } else {
        assert(spec_is_plain_char(s[0]));
        lemma_escape_plain(s.skip(1));
        assert(spec_escape_char(s[0]) =~= seq![s[0]]);
        assert(seq![s[0]] + s.skip(1) =~= s);
    }
}

/// Where the text from `i` holds the escaping of `content` followed by a
/// closing quote, reading a string body from `i` decodes exactly `content`
/// and stops just after that quote.
#[verifier::rlimit(100)]
pub proof fn lemma_read_escaped(s: Seq<char>, i: int, content: Seq<char>)
    requires
        0 <= i,
        i + spec_escape(content).len() + 1 <= s.len(),
        s.subrange(i, i + spec_escape(content).len() + 1) == spec_escape(content).push('"'),
    ensures
        spec_string_body(s, i) == Some((content, i + spec_escape(content).len() + 1)),
    decreases content.len(),
{
    let e = spec_escape(content);
    let sub = s.subrange(i, i + e.len() + 1);
    if content.len() == 0 {
        assert(e =~= Seq::<char>::empty());
        assert(s[i] == sub[0]);
        assert(sub[0] == e.push('"')[0]);
        assert(content =~= Seq::<char>::empty());
    } else {
        let c = content[0];
        let rest = content.skip(1);
        let ec = spec_escape_char(c);
        let er = spec_escape(rest);
        assert(e == ec + er);
        let el = ec.len() as int;
        let i2 = i + el;
        assert forall|k: int| 0 <= k < ec.len() implies s[i + k] == ec[k] by {
            assert(sub[k] == s[i + k]);
            assert(sub[k] == e.push('"')[k]);
            assert(e.push('"')[k] == (ec + er)[k]);
        }
        assert(s.subrange(i2, i2 + er.len() + 1) =~= er.push('"')) by {
            assert forall|k: int| 0 <= k < er.len() + 1 implies s.subrange(
                i2,
                i2 + er.len() + 1,
            )[k] == er.push('"')[k] by {
                assert(s.subrange(i2, i2 + er.len() + 1)[k] == s[i2 + k]);
                assert(s[i2 + k] == sub[el + k]);
                assert(sub[el + k] == e.push('"')[el + k]);
                if k < er.len() {
                    assert(e[el + k] == (ec + er)[el + k]);
                    assert((ec + er)[el + k] == er[k]);
                } else {
                    assert(e.push('"')[e.len() as int] == '"');
                }
            }
        }
        lemma_read_escaped(s, i2, rest);
        let end = i2 + er.len() + 1;
        assert(end == i + e.len() + 1);
        assert(seq![c] + rest =~= content);
        if c == '"' {
            assert(s[i] == '\\' && s[i + 1] == '"');
            assert(spec_string_body(s, i) == spec_cons_string('"', spec_string_body(s, i + 2)));
        } else if c == '\\' {
            assert(s[i] == '\\' && s[i + 1] == '\\');
            assert(spec_string_body(s, i) == spec_cons_string('\\', spec_string_body(s, i + 2)));
        } else if c == '\u{8}' {
            assert(s[i] == '\\' && s[i + 1] == 'b');
            assert(spec_string_body(s, i) == spec_cons_string('\u{8}', spec_string_body(s, i + 2)));
        } else if c == '\u{c}' {
            assert(s[i] == '\\' && s[i + 1] == 'f');
            assert(spec_string_body(s, i) == spec_cons_string('\u{c}', spec_string_body(s, i + 2)));
        } else if c == '\n' {
            assert(s[i] == '\\' && s[i + 1] == 'n');
            assert(spec_string_body(s, i) == spec_cons_string('\n', spec_string_body(s, i + 2)));
        } else if c == '\r' {
            assert(s[i] == '\\' && s[i + 1] == 'r');
            assert(spec_string_body(s, i) == spec_cons_string('\r', spec_string_body(s, i + 2)));
        } else if c == '\t' {
            assert(s[i] == '\\' && s[i + 1] == 't');
            assert(spec_string_body(s, i) == spec_cons_string('\t', spec_string_body(s, i + 2)));
        } else if (c as u32) < 0x20 {
            let cv = c as u32 as int;
            assert(s[i] == '\\' && s[i + 1] == 'u' && s[i + 2] == '0' && s[i + 3] == '0');
            assert(s[i + 4] == spec_hex_digit(cv / 16) && s[i + 5] == spec_hex_digit(cv % 16));
            lemma_hex_digit_val(0);
            lemma_hex_digit_val(cv / 16);
            lemma_hex_digit_val(cv % 16);
            lemma_fundamental_div_mod(cv, 16);
            assert(spec_hex_digit(0) == '0');
            assert(spec_hex_val(s[i + 2]) == Some(0int));
            assert(crate::json_text::spec_hex4(s, i + 2) == Some(cv));
            assert(cv < 0xD800);
            vstd::utf8::char_u32_cast(c, c as u32);
            assert(((cv as u32) as char) == c);
            assert(spec_string_body(s, i) == spec_cons_string(c, spec_string_body(s, i + 6)));
        } else {
            assert(s[i] == c);
            assert(spec_is_plain_char(c));
            assert(spec_string_body(s, i) == spec_cons_string(c, spec_string_body(s, i + 1)));
        }
    }
}

/// The body a backend of the documented shape sends back: an object whose
/// `reply` member holds the reply text and whose `timestamp` member, where
/// present, holds the timestamp text, each escaped into a JSON string.
pub open spec fn spec_echo_body(reply: Seq<char>, ts: Option<Seq<char>>) -> Seq<char> {
    match ts {
        Some(t) => seq!['{', '"', 'r', 'e', 'p', 'l', 'y', '"', ':', '"'] + spec_escape(reply)
            + seq!['"', ',', '"', 't', 'i', 'm', 'e', 's', 't', 'a', 'm', 'p', '"', ':', '"']
            + spec_escape(t) + seq!['"', '}'],
        None => seq!['{', '"', 'r', 'e', 'p', 'l', 'y', '"', ':', '"'] + spec_escape(reply)
            + seq!['"', '}'],
    }
}

/// Every character of the `reply` member key stands for itself.
proof fn lemma_reply_key_plain()
    ensures
        spec_escape(spec_reply_key()) == spec_reply_key(),
{
    assert forall|k: int| 0 <= k < spec_reply_key().len() implies spec_is_plain_char(
        spec_reply_key()[k],
    ) by {
    }
    lemma_escape_plain(spec_reply_key());
}

/// Every character of the `timestamp` member key stands for itself.
proof fn lemma_timestamp_key_plain()
    ensures
        spec_escape(spec_timestamp_key()) == spec_timestamp_key(),
{
    assert forall|k: int| 0 <= k < spec_timestamp_key().len() implies spec_is_plain_char(
        spec_timestamp_key()[k],
    ) by {
    }
    lemma_escape_plain(spec_timestamp_key());
}

/// Round trip of the response shape: a body of the documented echo shape
/// decodes to exactly the reply and timestamp it was built from.  With the
/// timestamp absent from the body, it is absent from the decoded response.
pub proof fn lemma_echo_body_round_trip(reply: Seq<char>, ts: Option<Seq<char>>)
    ensures
        spec_response_of(spec_echo_body(reply, ts)) == Some((reply, ts)),
{
    match ts {
        Some(t) => lemma_echo_body_round_trip_with_timestamp(reply, t),
        None => lemma_echo_body_round_trip_bare(reply),
    }
}

/// The echo-body round trip for a body that carries a timestamp member.
#[verifier::rlimit(100)]
#[verifier::spinoff_prover]
proof fn lemma_echo_body_round_trip_with_timestamp(reply: Seq<char>, t: Seq<char>)
    ensures
        spec_response_of(spec_echo_body(reply, Some(t))) == Some((reply, Some(t))),
{
    let ts = Some(t);
    let s = spec_echo_body(reply, ts);
    let a = seq!['{', '"', 'r', 'e', 'p', 'l', 'y', '"', ':', '"'];
    let e = spec_escape(reply);
    let el = e.len() as int;
    let acc0 = ResponseFields { reply: None, timestamp: None };
    let acc1 = ResponseFields { reply: Some(reply), timestamp: None };
    lemma_reply_key_plain();
    lemma_timestamp_key_plain();
    {
        {
            let b = seq!['"', ',', '"', 't', 'i', 'm', 'e', 's', 't', 'a', 'm', 'p', '"', ':', '"'];
            let f = spec_escape(t);
            let fl = f.len() as int;
            let acc2 = ResponseFields { reply: Some(reply), timestamp: Some(Some(t)) };
            assert(s.len() == 27 + el + fl);
            assert forall|k: int| 0 <= k < 10 implies s[k] == a[k] by {}
            assert forall|k: int| 0 <= k < el implies s[10 + k] == e[k] by {}
            assert forall|k: int| 0 <= k < 15 implies s[10 + el + k] == b[k] by {}
            assert forall|k: int| 0 <= k < fl implies s[25 + el + k] == f[k] by {}
            assert(s[25 + el + fl] == '"' && s[26 + el + fl] == '}');
            // the `reply` key as a string literal
            assert(s.subrange(2, 8) =~= spec_escape(spec_reply_key()).push('"'));
            lemma_read_escaped(s, 2, spec_reply_key());
            // the reply text as a string literal
            assert(s.subrange(10, 11 + el) =~= e.push('"')) by {
                assert forall|k: int| 0 <= k < el + 1 implies s.subrange(10, 11 + el)[k] == e.push(
                    '"',
                )[k] by {
                    assert(s.subrange(10, 11 + el)[k] == s[10 + k]);
                }
            }
            lemma_read_escaped(s, 10, reply);
            // the `timestamp` key as a string literal
            assert(s.subrange(13 + el, 23 + el) =~= spec_escape(spec_timestamp_key()).push('"'))
                by {
                assert forall|k: int| 0 <= k < 10 implies s.subrange(13 + el, 23 + el)[k]
                    == spec_timestamp_key().push('"')[k] by {
                    assert(s.subrange(13 + el, 23 + el)[k] == s[13 + el + k]);
                    assert(s[13 + el + k] == b[3 + k]);
                }
            }
            lemma_read_escaped(s, 13 + el, spec_timestamp_key());
            // the timestamp text as a string literal
            assert(s.subrange(25 + el, 26 + el + fl) =~= f.push('"')) by {
                assert forall|k: int| 0 <= k < fl + 1 implies s.subrange(
                    25 + el,
                    26 + el + fl,
                )[k] == f.push('"')[k] by {
                    assert(s.subrange(25 + el, 26 + el + fl)[k] == s[25 + el + k]);
                }
            }
            lemma_read_escaped(s, 25 + el, t);
            // walk the object member by member
            assert(spec_skip_ws(s, 0) == 0 && s[0] == '{');
            assert(spec_skip_ws(s, 1) == 1 && s[1] == '"');
            assert(spec_string_body(s, 2) == Some((spec_reply_key(), 8int)));
            assert(spec_skip_ws(s, 8) == 8 && s[8] == ':');
            assert(spec_skip_ws(s, 9) == 9 && s[9] == '"');
            assert(spec_string_body(s, 10) == Some((reply, 11 + el)));
            assert(spec_member_value(s, 9, spec_reply_key(), acc0) == Some((acc1, 11 + el)));
            assert(spec_skip_ws(s, 11 + el) == 11 + el && s[11 + el] == ',');
            assert(spec_members(s, 1, acc0) == spec_members(s, 12 + el, acc1));
            assert(spec_skip_ws(s, 12 + el) == 12 + el && s[12 + el] == '"');
            assert(spec_string_body(s, 13 + el) == Some((spec_timestamp_key(), 23 + el)));
            assert(spec_skip_ws(s, 23 + el) == 23 + el && s[23 + el] == ':');
            assert(spec_skip_ws(s, 24 + el) == 24 + el && s[24 + el] == '"');
            assert(spec_string_body(s, 25 + el) == Some((t, 26 + el + fl)));
            assert(spec_timestamp_key() != spec_reply_key());
            assert(spec_member_value(s, 24 + el, spec_timestamp_key(), acc1) == Some(
                (acc2, 26 + el + fl),
            ));
            assert(spec_skip_ws(s, 26 + el + fl) == 26 + el + fl && s[26 + el + fl] == '}');
            assert(spec_members(s, 12 + el, acc1) == Some((acc2, 27 + el + fl)));
            assert(spec_skip_ws(s, 27 + el + fl) == 27 + el + fl);
            assert(spec_response_of(s) == Some((reply, Some(t))));
        }
    }
}

/// The echo-body round trip for a body without a timestamp member.
#[verifier::rlimit(100)]
#[verifier::spinoff_prover]
proof fn lemma_echo_body_round_trip_bare(reply: Seq<char>)
    ensures
        spec_response_of(spec_echo_body(reply, None)) == Some((reply, None::<Seq<char>>)),
{
    let ts = None::<Seq<char>>;
    let s = spec_echo_body(reply, ts);
    let a = seq!['{', '"', 'r', 'e', 'p', 'l', 'y', '"', ':', '"'];
    let e = spec_escape(reply);
    let el = e.len() as int;
    let acc0 = ResponseFields { reply: None, timestamp: None };
    let acc1 = ResponseFields { reply: Some(reply), timestamp: None };
    lemma_reply_key_plain();
    {
        {
            let c = seq!['"', '}'];
            assert(s.len() == 12 + el);
            assert forall|k: int| 0 <= k < 10 implies s[k] == a[k] by {}
            assert forall|k: int| 0 <= k < el implies s[10 + k] == e[k] by {}
            assert(s[10 + el] == '"' && s[11 + el] == '}');
            assert(s.subrange(2, 8) =~= spec_escape(spec_reply_key()).push('"'));
            lemma_read_escaped(s, 2, spec_reply_key());
            assert(s.subrange(10, 11 + el) =~= e.push('"')) by {
                assert forall|k: int| 0 <= k < el + 1 implies s.subrange(10, 11 + el)[k] == e.push(
                    '"',
                )[k] by {
                    assert(s.subrange(10, 11 + el)[k] == s[10 + k]);
                }
            }
            lemma_read_escaped(s, 10, reply);
            assert(spec_skip_ws(s, 0) == 0 && s[0] == '{');
            assert(spec_skip_ws(s, 1) == 1 && s[1] == '"');
            assert(spec_string_body(s, 2) == Some((spec_reply_key(), 8int)));
            assert(spec_skip_ws(s, 8) == 8 && s[8] == ':');
            assert(spec_skip_ws(s, 9) == 9 && s[9] == '"');
            assert(spec_string_body(s, 10) == Some((reply, 11 + el)));
            assert(spec_member_value(s, 9, spec_reply_key(), acc0) == Some((acc1, 11 + el)));
            assert(spec_skip_ws(s, 11 + el) == 11 + el && s[11 + el] == '}');
            assert(spec_members(s, 1, acc0) == Some((acc1, 12 + el)));
            assert(spec_skip_ws(s, 12 + el) == 12 + el);
            assert(spec_response_of(s) == Some((reply, None::<Seq<char>>)));
        }
    }
}

/// A body of the documented shape whose object carries only a `timestamp`
/// member has no meaning as a response: the required `reply` member is
/// missing.
#[verifier::rlimit(100)]
pub proof fn lemma_missing_reply(t: Seq<char>)
    ensures
        spec_response_of(
            seq!['{', '"', 't', 'i', 'm', 'e', 's', 't', 'a', 'm', 'p', '"', ':', '"']
                + spec_escape(t) + seq!['"', '}'],
        ) is None,
{
    let a = seq!['{', '"', 't', 'i', 'm', 'e', 's', 't', 'a', 'm', 'p', '"', ':', '"'];
    let f = spec_escape(t);
    let fl = f.len() as int;
    let s = a + f + seq!['"', '}'];
    let acc0 = ResponseFields { reply: None, timestamp: None };
    let acc1 = ResponseFields { reply: None, timestamp: Some(Some(t)) };
    lemma_timestamp_key_plain();
    assert(s.len() == 16 + fl);
    assert forall|k: int| 0 <= k < 14 implies s[k] == a[k] by {}
    assert forall|k: int| 0 <= k < fl implies s[14 + k] == f[k] by {}
    assert(s[14 + fl] == '"' && s[15 + fl] == '}');
    assert(s.subrange(2, 12) =~= spec_escape(spec_timestamp_key()).push('"'));
    lemma_read_escaped(s, 2, spec_timestamp_key());
    assert(s.subrange(14, 15 + fl) =~= f.push('"')) by {
        assert forall|k: int| 0 <= k < fl + 1 implies s.subrange(14, 15 + fl)[k] == f.push(
            '"',
        )[k] by {
            assert(s.subrange(14, 15 + fl)[k] == s[14 + k]);
        }
    }
    lemma_read_escaped(s, 14, t);
    assert(spec_skip_ws(s, 0) == 0 && s[0] == '{');
    assert(spec_skip_ws(s, 1) == 1 && s[1] == '"');
    assert(spec_string_body(s, 2) == Some((spec_timestamp_key(), 12int)));
    assert(spec_skip_ws(s, 12) == 12 && s[12] == ':');
    assert(spec_skip_ws(s, 13) == 13 && s[13] == '"');
    assert(spec_string_body(s, 14) == Some((t, 15 + fl)));
    assert(spec_timestamp_key() != spec_reply_key());
    assert(spec_member_value(s, 13, spec_timestamp_key(), acc0) == Some((acc1, 15 + fl)));
    assert(spec_skip_ws(s, 15 + fl) == 15 + fl && s[15 + fl] == '}');
    assert(spec_members(s, 1, acc0) == Some((acc1, 16 + fl)));
    assert(spec_skip_ws(s, 16 + fl) == 16 + fl);
    assert(spec_response_of(s) is None);
}

/// Outcomes that carry the same values: same status and body text, or the
/// same transport failure description.
pub open spec fn spec_outcomes_alike(o1: HttpOutcome, o2: HttpOutcome) -> bool {
    match (o1, o2) {
        (
            HttpOutcome::Response { status: s1, body: b1 },
            HttpOutcome::Response { status: s2, body: b2 },
        ) => s1 == s2 && b1@ == b2@,
        (
            HttpOutcome::TransportFailed { cause: c1 },
            HttpOutcome::TransportFailed { cause: c2 },
        ) => c1@ == c2@,
        _ => false,
    }
}

/// Results that carry the same values: equal reply and timestamp texts, or
/// the same error category with equal payloads.
pub open spec fn spec_results_alike(
    r1: Result<ChatResponse, ChatError>,
    r2: Result<ChatResponse, ChatError>,
) -> bool {
    match (r1, r2) {
        (Ok(a), Ok(b)) => a.reply@ == b.reply@ && spec_opt_str_view(a.timestamp)
            == spec_opt_str_view(b.timestamp),
        (Err(ea), Err(eb)) => match (ea, eb) {
            (ChatError::Transport { cause: c1 }, ChatError::Transport { cause: c2 }) => c1@ == c2@,
            (ChatError::Server { status: s1 }, ChatError::Server { status: s2 }) => s1 == s2,
            (ChatError::Decode { detail: d1 }, ChatError::Decode { detail: d2 }) => d1@ == d2@,
            _ => false,
        },
        _ => false,
    }
}

/// Idempotence of the bridge: interpreting the same outcome twice yields
/// results carrying the same values — no state is carried between calls.
pub proof fn lemma_interpret_deterministic(
    o1: HttpOutcome,
    o2: HttpOutcome,
    r1: Result<ChatResponse, ChatError>,
    r2: Result<ChatResponse, ChatError>,
)
    requires
        spec_outcomes_alike(o1, o2),
        spec_interprets(o1, r1),
        spec_interprets(o2, r2),
    ensures
        spec_results_alike(r1, r2),
{
}

/// Independence of concurrent invocations: each echo body decodes to its
/// own message, so responses to distinct messages cannot cross.
pub proof fn lemma_no_cross_talk(m1: Seq<char>, m2: Seq<char>, ts: Option<Seq<char>>)
    ensures
        spec_response_of(spec_echo_body(m1, ts)) == Some((m1, ts)),
        spec_response_of(spec_echo_body(m2, ts)) == Some((m2, ts)),
{
    lemma_echo_body_round_trip(m1, ts);
    lemma_echo_body_round_trip(m2, ts);
}

} // verus!
