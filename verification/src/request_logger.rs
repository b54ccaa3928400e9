//! The request-lifecycle event model and its codec: a tagged two-variant
//! event, a canonical JSON encoding with the variant tag first, a decoder
//! that accepts exactly the canonical encodings, and the framed log lines
//! that multiplex the events onto a shared debug stream.

use vstd::prelude::*;

use crate::escape::append_escaped;
use crate::escape::esc_str;
use crate::escape::has_lit_at;
use crate::escape::is_ctl;
use crate::escape::lemma_esc_str_no_ctl;
use crate::escape::lemma_parse_esc;
use crate::escape::lemma_parse_sound;
use crate::escape::parse_field;
use crate::escape::parse_jstring;
use crate::escape::starts_with_lit;

verus! {

/// The opening of a `Start` payload, up to the opening quote of the address.
pub open spec fn start_head() -> Seq<char> {
    "{\"type\":\"Start\",\"contract_address\":\""@
}

/// The opening of an `End` payload, up to the opening quote of the address.
pub open spec fn end_head() -> Seq<char> {
    "{\"type\":\"End\",\"contract_address\":\""@
}

/// What stands between the two fields: the closing quote of the address,
/// the name of the second field, and its opening quote.
pub open spec fn mid_lit() -> Seq<char> {
    "\",\"request_id\":\""@
}

/// What closes the payload: the closing quote of the request id and the
/// closing brace.
pub open spec fn tail_lit() -> Seq<char> {
    "\"}"@
}

/// `mid_lit` without the closing quote that the field parser consumes.
pub open spec fn mid_after_quote() -> Seq<char> {
    ",\"request_id\":\""@
}

/// The canonical payload of an event with the given variant and fields: the
/// variant tag first, then the escaped contract address, then the escaped
/// request id, in declaration order.
pub open spec fn payload_spec(start: bool, addr: Seq<char>, rid: Seq<char>) -> Seq<char> {
    (if start {
        start_head()
    } else {
        end_head()
    }) + esc_str(addr) + mid_lit() + esc_str(rid) + tail_lit()
}

/// Decodes what follows a variant head: the escaped address, the field
/// separator, the escaped request id, and the closing brace, with nothing
/// after it.
pub open spec fn decode_after_head(s: Seq<char>, start: bool) -> Option<(bool, Seq<char>, Seq<char>)> {
    match parse_jstring(s) {
        None => None,
        Some((addr, r1)) => if has_lit_at(r1, 0, mid_after_quote()) {
            match parse_jstring(r1.skip(mid_after_quote().len() as int)) {
                None => None,
                Some((rid, r2)) => if r2 == seq!['}'] {
                    Some((start, addr, rid))
                } else {
                    None
                },
            }
        } else {
            None
        },
    }
}

/// The structural decode of a payload: the variant read off the head, then
/// the two fields. Yields the variant and the unescaped fields exactly when
/// the whole input is canonical.
pub open spec fn spec_decode(s: Seq<char>) -> Option<(bool, Seq<char>, Seq<char>)> {
    if has_lit_at(s, 0, start_head()) {
        decode_after_head(s.skip(start_head().len() as int), true)
    } else if has_lit_at(s, 0, end_head()) {
        decode_after_head(s.skip(end_head().len() as int), false)
    } else {
        None
    }
}

/// Reveals the payload literals and relates the encoder's split of the
/// payload to the parser's.
proof fn lemma_literals()
    ensures
        mid_lit() == seq!['"'] + mid_after_quote(),
        tail_lit() == seq!['"', '}'],
        start_head().len() == 36,
        end_head().len() == 34,
        start_head()[9] == 'S',
        end_head()[9] == 'E',
        start_head()[0] == '{',
        end_head()[0] == '{',
{
    reveal_strlit("{\"type\":\"Start\",\"contract_address\":\"");
    reveal_strlit("{\"type\":\"End\",\"contract_address\":\"");
    reveal_strlit("\",\"request_id\":\"");
    reveal_strlit(",\"request_id\":\"");
    reveal_strlit("\"}");
    assert(mid_lit() =~= seq!['"'] + mid_after_quote());
    assert(tail_lit() =~= seq!['"', '}']);
}

/// The structural decode recovers every payload: decoding the canonical
/// encoding of a variant and two fields yields exactly them back.
pub proof fn lemma_decode_encode(st: bool, a: Seq<char>, q: Seq<char>)
    ensures
        spec_decode(payload_spec(st, a, q)) == Some((st, a, q)),
{
    lemma_literals();
    let s = payload_spec(st, a, q);
    let head = if st {
        start_head()
    } else {
        end_head()
    };
    let r1 = mid_after_quote() + esc_str(q) + seq!['"'] + seq!['}'];
    assert(s =~= head + (esc_str(a) + seq!['"'] + r1));
    assert(s.subrange(0, head.len() as int) =~= head);
    assert(has_lit_at(s, 0, head));
    if !st {
        if has_lit_at(s, 0, start_head()) {
            assert(s.subrange(0, start_head().len() as int)[9] == s[9]);
            assert(s[9] == end_head()[9]);
            assert(false);
        }
    }
    let rest = s.skip(head.len() as int);
    assert(rest =~= esc_str(a) + seq!['"'] + r1);
    lemma_parse_esc(a, r1);
    assert(parse_jstring(rest) == Some((a, r1)));
    assert(r1.subrange(0, mid_after_quote().len() as int) =~= mid_after_quote());
    assert(has_lit_at(r1, 0, mid_after_quote()));
    let r1s = r1.skip(mid_after_quote().len() as int);
    assert(r1s =~= esc_str(q) + seq!['"'] + seq!['}']);
    lemma_parse_esc(q, seq!['}']);
    assert(parse_jstring(r1s) == Some((q, seq!['}'])));
}

/// The structural decode is sound: whatever it accepts was exactly the
/// canonical payload of what it yields.
#[verifier::rlimit(50)]
pub proof fn lemma_decode_sound(s: Seq<char>)
    ensures
        spec_decode(s) matches Some(d) ==> s == payload_spec(d.0, d.1, d.2),
{
    lemma_literals();
    if spec_decode(s) is Some {
        let d = spec_decode(s)->Some_0;
        let head = if d.0 {
            start_head()
        } else {
            end_head()
        };
        assert(has_lit_at(s, 0, head));
        let rest = s.skip(head.len() as int);
        lemma_parse_sound(rest);
        let (a, r1) = parse_jstring(rest)->Some_0;
        assert(rest == esc_str(a) + seq!['"'] + r1);
        let ml = mid_after_quote().len() as int;
        lemma_parse_sound(r1.skip(ml));
        let (q, r2) = parse_jstring(r1.skip(ml))->Some_0;
        assert(r1.skip(ml) == esc_str(q) + seq!['"'] + r2);
        assert(r2 == seq!['}']);
        assert(r1 =~= r1.subrange(0, ml) + r1.skip(ml));
        assert(r1.subrange(0, ml) == mid_after_quote());
        assert(s =~= s.subrange(0, head.len() as int) + rest);
        assert(s.subrange(0, head.len() as int) == head);
        assert(d.1 == a && d.2 == q);
        assert(s =~= head + esc_str(a) + mid_lit() + esc_str(q) + tail_lit());
    }
}

/// Two payloads agree only when variant and both fields agree: the encoding
/// is injective, which together with the contracts of `RequestEvent::to_string`
/// and `RequestEvent::try_from_string` gives the round trip — decoding the
/// encoding of any constructible event yields that event back.
pub proof fn lemma_payload_injective(
    st1: bool,
    a1: Seq<char>,
    q1: Seq<char>,
    st2: bool,
    a2: Seq<char>,
    q2: Seq<char>,
)
    requires
        payload_spec(st1, a1, q1) == payload_spec(st2, a2, q2),
    ensures
        st1 == st2,
        a1 == a2,
        q1 == q2,
{
    lemma_decode_encode(st1, a1, q1);
    lemma_decode_encode(st2, a2, q2);
}


/// An opaque textual identifier of the contract or account an event is about.
#[derive(Debug, Clone, PartialEq, Eq)]
pub struct Address(pub String);

impl View for Address {
    type V = Seq<char>;

    open spec fn view(&self) -> Seq<char> {
        self.0@
    }
}

/// A request-lifecycle event: one logical invocation of a smart function
/// either starts or ends, identified by the contract address and a request
/// id whose uniqueness is the caller's concern. An event is immutable once
/// constructed; its whole life is construct, encode, transmit.
#[derive(Debug, Clone, PartialEq, Eq)]
pub enum RequestEvent {
    Start { contract_address: Address, request_id: String },
    End { contract_address: Address, request_id: String },
}

impl RequestEvent {
    /// The event marks the start of an invocation.
    pub open spec fn is_start(&self) -> bool {
        self is Start
    }

    /// The characters of the contract address the event speaks of.
    pub open spec fn addr(&self) -> Seq<char> {
        match self {
            RequestEvent::Start { contract_address, .. } => contract_address@,
            RequestEvent::End { contract_address, .. } => contract_address@,
        }
    }

    /// The characters of the request id the event speaks of.
    pub open spec fn rid(&self) -> Seq<char> {
        match self {
            RequestEvent::Start { request_id, .. } => request_id@,
            RequestEvent::End { request_id, .. } => request_id@,
        }
    }

    /// The canonical payload of the event.
    pub open spec fn payload(&self) -> Seq<char> {
        payload_spec(self.is_start(), self.addr(), self.rid())
    }

    /// Encodes the event into its canonical payload: a JSON object with the
    /// variant tag in the `type` field first, then the contract address,
    /// then the request id. Deterministic, and total for both variants.
    pub fn to_string(&self) -> (r: String)
        ensures
            r@ == self.payload(),
    {
        let mut out = String::new();
        match self {
            RequestEvent::Start { contract_address, request_id } => {
                out.append("{\"type\":\"Start\",\"contract_address\":\"");
                append_escaped(&mut out, contract_address.0.as_str());
                out.append("\",\"request_id\":\"");
                append_escaped(&mut out, request_id.as_str());
                out.append("\"}");
            },
            RequestEvent::End { contract_address, request_id } => {
                out.append("{\"type\":\"End\",\"contract_address\":\"");
                append_escaped(&mut out, contract_address.0.as_str());
                out.append("\",\"request_id\":\"");
                append_escaped(&mut out, request_id.as_str());
                out.append("\"}");
            },
        }
        proof {
            assert(out@ =~= self.payload());
        }
        out
    }

    /// Decodes a payload. Yields the event exactly when the whole input is
    /// the canonical encoding of one of the two variants; malformed input,
    /// an unknown tag, or trailing text yield nothing.
    pub fn try_from_string(json: &str) -> (r: Option<RequestEvent>)
        ensures
            match r {
                Some(e) => json@ == e.payload(),
                None => forall|st: bool, a: Seq<char>, q: Seq<char>| json@ != payload_spec(st, a, q),
            },
    {
        let raw = decode_raw(json);
        match raw {
            None => {
                proof {
                    assert forall|st: bool, a: Seq<char>, q: Seq<char>|
                        json@ != payload_spec(st, a, q) by {
                        if json@ == payload_spec(st, a, q) {
                            lemma_decode_encode(st, a, q);
                        }
                    }
                }
                None
            },
            Some(p) => {
                let (st, addr, rid) = p;
                proof {
                    lemma_decode_sound(json@);
                }
                if st {
                    Some(RequestEvent::Start { contract_address: Address(addr), request_id: rid })
                } else {
                    Some(RequestEvent::End { contract_address: Address(addr), request_id: rid })
                }
            },
        }
    }
}

/// Runs the structural decode on the input: the variant head, the two
/// escaped fields, and the closing brace with nothing after it.
fn decode_raw(json: &str) -> (r: Option<(bool, String, String)>)
    ensures
        match r {
            Some(p) => spec_decode(json@) == Some((p.0, p.1@, p.2@)),
            None => spec_decode(json@) is None,
        },
{
    let n = json.unicode_len();
    let sh = "{\"type\":\"Start\",\"contract_address\":\"";
    let eh = "{\"type\":\"End\",\"contract_address\":\"";
    let st: bool;
    let hl: usize;
    if starts_with_lit(json, 0, sh) {
        st = true;
        hl = sh.unicode_len();
    } else if starts_with_lit(json, 0, eh) {
        st = false;
        hl = eh.unicode_len();
    } else {
        return None;
    }
    let m1 = parse_field(json, hl);
    match m1 {
        None => {
            return None;
        },
        Some(p1) => {
            let (addr, j) = p1;
            let ghost r1 = json@.skip(j as int);
            let ml = ",\"request_id\":\"";
            if !starts_with_lit(json, j, ml) {
                proof {
                    if has_lit_at(r1, 0, mid_after_quote()) {
                        assert(r1.subrange(0, mid_after_quote().len() as int) =~= json@.subrange(
                            j as int,
                            j + mid_after_quote().len(),
                        ));
                    }
                }
                return None;
            }
            let mll = ml.unicode_len();
            proof {
                assert(r1.subrange(0, mid_after_quote().len() as int) =~= json@.subrange(
                    j as int,
                    j + mid_after_quote().len(),
                ));
                assert(has_lit_at(r1, 0, mid_after_quote()));
                assert(r1.skip(mid_after_quote().len() as int) =~= json@.skip(j + mll));
            }
            let m2 = parse_field(json, j + mll);
            match m2 {
                None => {
                    return None;
                },
                Some(p2) => {
                    let (rid, k) = p2;
                    let ghost r2 = json@.skip(k as int);
                    if n - k == 1 && json.get_char(k) == '}' {
                        proof {
                            assert(r2 =~= seq!['}']);
                        }
                        Some((st, addr, rid))
                    } else {
                        proof {
                            if r2 == seq!['}'] {
                                assert(r2.len() == 1);
                                assert(r2[0] == json@[k as int]);
                                assert(false);
                            }
                        }
                        None
                    }
                },
            }
        },
    }
}

/// The framing marker that opens every framed start line.
pub open spec fn start_marker() -> Seq<char> {
    "[JSTZ:SMART_FUNCTION:REQUEST_START] "@
}

/// The framing marker that opens every framed end line.
pub open spec fn end_marker() -> Seq<char> {
    "[JSTZ:SMART_FUNCTION:REQUEST_END] "@
}

/// The framed log line of an event: its phase marker, its canonical
/// payload, and the line terminator.
pub open spec fn line_spec(start: bool, addr: Seq<char>, rid: Seq<char>) -> Seq<char> {
    (if start {
        start_marker()
    } else {
        end_marker()
    }) + payload_spec(start, addr, rid) + seq!['\n']
}

/// The marker of the start phase, for a consumer that filters the stream.
pub fn request_start_prefix() -> (r: &'static str)
    ensures
        r@ == start_marker(),
{
    "[JSTZ:SMART_FUNCTION:REQUEST_START] "
}

/// The marker of the end phase, for a consumer that filters the stream.
pub fn request_end_prefix() -> (r: &'static str)
    ensures
        r@ == end_marker(),
{
    "[JSTZ:SMART_FUNCTION:REQUEST_END] "
}

/// Builds the framed log line that announces the start of one invocation:
/// the start marker, the encoded `Start` event, and the line terminator.
/// Handing the line to the ambient logging sink is the caller's part.
pub fn log_request_start(contract_address: Address, request_id: String) -> (r: String)
    ensures
        r@ == line_spec(true, contract_address@, request_id@),
{
    let ghost av = contract_address@;
    let ghost qv = request_id@;
    let e = RequestEvent::Start { contract_address, request_id };
    let p = e.to_string();
    let mut out = String::new();
    out.append("[JSTZ:SMART_FUNCTION:REQUEST_START] ");
    out.append(p.as_str());
    out.append("\n");
    proof {
        reveal_strlit("\n");
        assert("\n"@ =~= seq!['\n']);
        assert(out@ =~= line_spec(true, av, qv));
    }
    out
}

/// Builds the framed log line that announces the end of one invocation:
/// the end marker, the encoded `End` event, and the line terminator.
/// Handing the line to the ambient logging sink is the caller's part.
pub fn log_request_end(contract_address: Address, request_id: String) -> (r: String)
    ensures
        r@ == line_spec(false, contract_address@, request_id@),
{
    let ghost av = contract_address@;
    let ghost qv = request_id@;
    let e = RequestEvent::End { contract_address, request_id };
    let p = e.to_string();
    let mut out = String::new();
    out.append("[JSTZ:SMART_FUNCTION:REQUEST_END] ");
    out.append(p.as_str());
    out.append("\n");
    proof {
        reveal_strlit("\n");
        assert("\n"@ =~= seq!['\n']);
        assert(out@ =~= line_spec(false, av, qv));
    }
    out
}


/// No payload carries a control character, in particular no newline: the
/// head, separator and tail literals have none, and escaping removes them
/// from the fields.
pub proof fn lemma_payload_no_ctl(st: bool, a: Seq<char>, q: Seq<char>)
    ensures
        forall|i: int|
            0 <= i < payload_spec(st, a, q).len() ==> !is_ctl(#[trigger] payload_spec(st, a, q)[i]),
{
    lemma_literals();
    reveal_strlit("{\"type\":\"Start\",\"contract_address\":\"");
    reveal_strlit("{\"type\":\"End\",\"contract_address\":\"");
    reveal_strlit("\",\"request_id\":\"");
    reveal_strlit("\"}");
    lemma_esc_str_no_ctl(a);
    lemma_esc_str_no_ctl(q);
    let head = if st {
        start_head()
    } else {
        end_head()
    };
    let e1 = esc_str(a);
    let e2 = esc_str(q);
    let p = payload_spec(st, a, q);
    assert forall|i: int| 0 <= i < p.len() implies !is_ctl(#[trigger] p[i]) by {
        let b1 = head.len();
        let b2 = b1 + e1.len();
        let b3 = b2 + mid_lit().len();
        let b4 = b3 + e2.len();
        if i < b1 {
            assert(p[i] == head[i]);
            assert(!is_ctl(head[i]));
        } else if i < b2 {
            assert(p[i] == e1[i - b1]);
        } else if i < b3 {
            assert(p[i] == mid_lit()[i - b2]);
            assert(!is_ctl(mid_lit()[i - b2]));
        } else if i < b4 {
            assert(p[i] == e2[i - b3]);
        } else {
            assert(p[i] == tail_lit()[i - b4]);
            assert(!is_ctl(tail_lit()[i - b4]));
        }
    }
}

/// Tag fidelity: the payload of a start event opens with the `Start` tag,
/// the payload of an end event with the `End` tag, and no string is the
/// payload of both a start and an end event.
pub proof fn lemma_tag_fidelity(a: Seq<char>, q: Seq<char>)
    ensures
        payload_spec(true, a, q).subrange(1, 15) == "\"type\":\"Start\""@,
        payload_spec(false, a, q).subrange(1, 13) == "\"type\":\"End\""@,
        forall|a2: Seq<char>, q2: Seq<char>|
            payload_spec(true, a, q) != #[trigger] payload_spec(false, a2, q2),
{
    lemma_literals();
    reveal_strlit("{\"type\":\"Start\",\"contract_address\":\"");
    reveal_strlit("{\"type\":\"End\",\"contract_address\":\"");
    reveal_strlit("\"type\":\"Start\"");
    reveal_strlit("\"type\":\"End\"");
    let ps = payload_spec(true, a, q);
    let pe = payload_spec(false, a, q);
    assert forall|i: int| 0 <= i < 36 implies ps[i] == start_head()[i] by {}
    assert forall|i: int| 0 <= i < 34 implies pe[i] == end_head()[i] by {}
    assert(ps.subrange(1, 15) =~= "\"type\":\"Start\""@);
    assert(pe.subrange(1, 13) =~= "\"type\":\"End\""@);
    assert forall|a2: Seq<char>, q2: Seq<char>|
        payload_spec(true, a, q) != #[trigger] payload_spec(false, a2, q2) by {
        if payload_spec(true, a, q) == payload_spec(false, a2, q2) {
            lemma_payload_injective(true, a, q, false, a2, q2);
        }
    }
}

/// Framing uniqueness: the two markers differ, and no payload begins with
/// either marker, so a marker match at the head of a line is unambiguous.
pub proof fn lemma_framing_unique(st: bool, a: Seq<char>, q: Seq<char>)
    ensures
        start_marker() != end_marker(),
        !has_lit_at(payload_spec(st, a, q), 0, start_marker()),
        !has_lit_at(payload_spec(st, a, q), 0, end_marker()),
{
    lemma_literals();
    reveal_strlit("[JSTZ:SMART_FUNCTION:REQUEST_START] ");
    reveal_strlit("[JSTZ:SMART_FUNCTION:REQUEST_END] ");
    assert(start_marker().len() != end_marker().len());
    let p = payload_spec(st, a, q);
    assert(p[0] == '{');
    if has_lit_at(p, 0, start_marker()) {
        assert(p.subrange(0, start_marker().len() as int)[0] == p[0]);
    }
    if has_lit_at(p, 0, end_marker()) {
        assert(p.subrange(0, end_marker().len() as int)[0] == p[0]);
    }
}

/// A framed log line is exactly one line: it begins with the marker of its
/// phase, its last character is the only newline in it, and the payload
/// between them is newline-free.
pub proof fn lemma_line_single(st: bool, a: Seq<char>, q: Seq<char>)
    ensures
        line_spec(st, a, q).len() > 0,
        line_spec(st, a, q).last() == '\n',
        forall|i: int| 0 <= i < line_spec(st, a, q).len() - 1 ==> line_spec(st, a, q)[i] != '\n',
        has_lit_at(
            line_spec(st, a, q),
            0,
            if st {
                start_marker()
            } else {
                end_marker()
            },
        ),
{
    reveal_strlit("[JSTZ:SMART_FUNCTION:REQUEST_START] ");
    reveal_strlit("[JSTZ:SMART_FUNCTION:REQUEST_END] ");
    lemma_payload_no_ctl(st, a, q);
    let m = if st {
        start_marker()
    } else {
        end_marker()
    };
    let p = payload_spec(st, a, q);
    let l = line_spec(st, a, q);
    assert(l.len() == m.len() + p.len() + 1);
    assert(l.last() == '\n');
    assert(is_ctl('\n'));
    assert forall|i: int| 0 <= i < l.len() - 1 implies l[i] != '\n' by {
        if i < m.len() {
            assert(l[i] == m[i]);
            assert(m[i] != '\n');
        } else {
            assert(l[i] == p[i - m.len()]);
            assert(!is_ctl(p[i - m.len()]));
        }
    }
    assert(l.subrange(0, m.len() as int) =~= m);
}

} // verus!
