//! The envelope codec: between wire frames (JSON text) and typed messages.
//!
//! A frame is one JSON object with a discriminant member `s`, a
//! kind-dependent payload member `d`, and a sequence member `sn` carried by
//! some kinds.  Decoding reads the discriminant and sequence eagerly and the
//! payload according to the discriminant, ignoring members it does not know.

use vstd::prelude::*;

verus! {

use crate::json::{
    JField, FieldData, MAX_DEPTH, spec_skip_ws, spec_parse_string_body, spec_classify,
    spec_skip_value, spec_escape, dec_digits, field_matches, skip_ws, parse_string, classify,
    lemma_skip_ws_noop, lemma_escape_round_trip, lemma_skip_number_of_digits,
    lemma_dec_digits_shape, escape_into, format_u64, is_ws_char, is_digit_char, is_number_char,
    spec_parse_digits, spec_parse_string, spec_skip_number,
};
use crate::strutil::{to_chars, chars_to_string};
use vstd::string::StrSliceExecFns;

/// Why a frame was rejected.
#[derive(Debug, Clone, Copy, PartialEq, Eq, Structural)]
pub enum DecodeError {
    /// The text is not one well-formed JSON object, or has no discriminant.
    Malformed,
    /// The discriminant is no integer in 0..=6.
    UnknownKind,
    /// The payload or sequence does not fit the discriminant's schema.
    ShapeMismatch,
}

/// The event payload of a kind-0 frame: the member object handed to the
/// handler, kept as its exact wire text, with the author looked up inside.
#[derive(Debug, Clone, PartialEq, Eq)]
pub struct EventRecord {
    author_id: String,
    raw: String,
}

/// Ghost image of an `EventRecord`.
pub struct EventRecordV {
    pub author_id: Seq<char>,
    pub raw: Seq<char>,
}

impl View for EventRecord {
    type V = EventRecordV;

    closed spec fn view(&self) -> EventRecordV {
        EventRecordV { author_id: self.author_id@, raw: self.raw@ }
    }
}

/// One decoded wire frame.
#[derive(Debug, Clone, PartialEq, Eq)]
pub enum Envelope {
    Event { sequence: u64, event: EventRecord },
    Hello { code: i64, session_id: Option<String> },
    Ping { sequence: u64 },
    Pong,
    Resume { sequence: u64 },
    Reconnect { code: i64, err: String },
    ResumeAck { session_id: String },
}

/// Ghost image of an `Envelope`.
pub enum EnvelopeV {
    Event { sequence: u64, event: EventRecordV },
    Hello { code: i64, session_id: Option<Seq<char>> },
    Ping { sequence: u64 },
    Pong,
    Resume { sequence: u64 },
    Reconnect { code: i64, err: Seq<char> },
    ResumeAck { session_id: Seq<char> },
}

impl View for Envelope {
    type V = EnvelopeV;

    open spec fn view(&self) -> EnvelopeV {
        match self {
            Envelope::Event { sequence, event } => EnvelopeV::Event {
                sequence: *sequence,
                event: event@,
            },
            Envelope::Hello { code, session_id } => EnvelopeV::Hello {
                code: *code,
                session_id: match session_id {
                    Some(s) => Some(s@),
                    None => None,
                },
            },
            Envelope::Ping { sequence } => EnvelopeV::Ping { sequence: *sequence },
            Envelope::Pong => EnvelopeV::Pong,
            Envelope::Resume { sequence } => EnvelopeV::Resume { sequence: *sequence },
            Envelope::Reconnect { code, err } => EnvelopeV::Reconnect { code: *code, err: err@ },
            Envelope::ResumeAck { session_id } => EnvelopeV::ResumeAck { session_id: session_id@ },
        }
    }
}

// ---------------------------------------------------------------------------
// member names
// ---------------------------------------------------------------------------

pub open spec fn key_s() -> Seq<char> {
    seq!['s']
}

pub open spec fn key_sn() -> Seq<char> {
    seq!['s', 'n']
}

pub open spec fn key_d() -> Seq<char> {
    seq!['d']
}

pub open spec fn key_code() -> Seq<char> {
    seq!['c', 'o', 'd', 'e']
}

pub open spec fn key_session() -> Seq<char> {
    seq!['s', 'e', 's', 's', 'i', 'o', 'n', '_', 'i', 'd']
}

pub open spec fn key_err() -> Seq<char> {
    seq!['e', 'r', 'r']
}

pub open spec fn key_author() -> Seq<char> {
    seq!['a', 'u', 't', 'h', 'o', 'r', '_', 'i', 'd']
}

// ---------------------------------------------------------------------------
// scanning an object for the members the protocol reads
// ---------------------------------------------------------------------------

/// The members of interest found while walking one object; a later
/// occurrence of a name overwrites an earlier one.
pub struct FrameSlots {
    pub s_f: Option<JField>,
    pub sn_f: Option<JField>,
    pub d_f: Option<JField>,
    pub code_f: Option<JField>,
    pub session_f: Option<JField>,
    pub err_f: Option<JField>,
    pub author_f: Option<JField>,
}

pub open spec fn slots_empty() -> FrameSlots {
    FrameSlots {
        s_f: None,
        sn_f: None,
        d_f: None,
        code_f: None,
        session_f: None,
        err_f: None,
        author_f: None,
    }
}

pub open spec fn slots_update(sl: FrameSlots, key: Seq<char>, f: JField) -> FrameSlots {
    if key == key_s() {
        FrameSlots { s_f: Some(f), ..sl }
    } else if key == key_sn() {
        FrameSlots { sn_f: Some(f), ..sl }
    } else if key == key_d() {
        FrameSlots { d_f: Some(f), ..sl }
    } else if key == key_code() {
        FrameSlots { code_f: Some(f), ..sl }
    } else if key == key_session() {
        FrameSlots { session_f: Some(f), ..sl }
    } else if key == key_err() {
        FrameSlots { err_f: Some(f), ..sl }
    } else if key == key_author() {
        FrameSlots { author_f: Some(f), ..sl }
    } else {
        sl
    }
}

/// Walks the members of an object, entered just after the opening brace,
/// collecting the members of interest.  The shape and the guards mirror
/// `spec_skip_object_body`.
pub open spec fn spec_scan_obj(s: Seq<char>, depth: nat, sl: FrameSlots) -> Option<
    (FrameSlots, Seq<char>),
>
    decreases s.len(),
{
    let t = spec_skip_ws(s);
    if t.len() > s.len() {
        None
    } else if t.len() == 0 {
        None
    } else if t[0] == '}' {
        Some((sl, t.skip(1)))
    } else if t[0] == '"' {
        match spec_parse_string_body(t.skip(1), Seq::empty()) {
            None => None,
            Some(p) => {
                let u = spec_skip_ws(p.1);
                if u.len() == 0 || u[0] != ':' {
                    None
                } else {
                    let w = spec_skip_ws(u.skip(1));
                    if w.len() >= s.len() {
                        None
                    } else {
                        match spec_classify(w, depth) {
                            None => None,
                            Some(q) => {
                                let sl2 = slots_update(sl, p.0, q.0);
                                let v = spec_skip_ws(q.1);
                                if v.len() == 0 {
                                    None
                                } else if v[0] == '}' {
                                    Some((sl2, v.skip(1)))
                                } else if v[0] == ',' {
                                    let nx = spec_skip_ws(v.skip(1));
                                    if nx.len() >= s.len() || nx.len() == 0 || nx[0] != '"' {
                                        None
                                    } else {
                                        spec_scan_obj(nx, depth, sl2)
                                    }
                                } else {
                                    None
                                }
                            },
                        }
                    }
                }
            },
        }
    } else {
        None
    }
}

/// Scans a payload object held as a captured span; the span must be
/// consumed exactly.
pub open spec fn spec_scan_payload(text: Seq<char>) -> Option<FrameSlots> {
    if text.len() == 0 || text[0] != '{' {
        None
    } else {
        match spec_scan_obj(text.skip(1), MAX_DEPTH as nat, slots_empty()) {
            Some(p) => if p.1.len() == 0 {
                Some(p.0)
            } else {
                None
            },
            None => None,
        }
    }
}

// ---------------------------------------------------------------------------
// what decoding means
// ---------------------------------------------------------------------------

/// A well-formed event payload: one JSON object, consumed exactly by the
/// value skipper, whose `author_id` member is a string.
pub open spec fn event_wf(e: EventRecordV) -> bool {
    &&& e.raw.len() > 0
    &&& e.raw[0] == '{'
    &&& spec_skip_value(e.raw, MAX_DEPTH as nat) == Some(Seq::<char>::empty())
    &&& match spec_scan_payload(e.raw) {
        Some(ps) => ps.author_f == Some(JField::Text { val: e.author_id }),
        None => false,
    }
}

/// The envelopes the codec can put on the wire and read back.
pub open spec fn representable(m: EnvelopeV) -> bool {
    match m {
        EnvelopeV::Event { event, .. } => event_wf(event),
        _ => true,
    }
}

pub open spec fn in_i64(v: int) -> bool {
    i64::MIN <= v <= i64::MAX
}

pub open spec fn in_u64(v: int) -> bool {
    0 <= v <= u64::MAX
}

/// Reads the sequence member out of the slots.
pub open spec fn spec_sn_of(sl: FrameSlots) -> Option<u64> {
    match sl.sn_f {
        Some(JField::Num { val }) => if in_u64(val) {
            Some(val as u64)
        } else {
            None
        },
        _ => None,
    }
}

/// Reads the payload span out of the slots, when it is an object.
pub open spec fn spec_d_obj(sl: FrameSlots) -> Option<Seq<char>> {
    match sl.d_f {
        Some(JField::Span { text }) => if text.len() > 0 && text[0] == '{' {
            Some(text)
        } else {
            None
        },
        _ => None,
    }
}

/// Decoding of a frame whose discriminant `k` is already known to be 0..=6.
pub open spec fn spec_decode_kind(k: int, sl: FrameSlots) -> Result<EnvelopeV, DecodeError> {
    if k == 0 {
        match (spec_d_obj(sl), spec_sn_of(sl)) {
            (Some(text), Some(sn)) => if spec_skip_value(text, MAX_DEPTH as nat) != Some(
                Seq::<char>::empty(),
            ) {
                Err(DecodeError::ShapeMismatch)
            } else {
                match spec_scan_payload(text) {
                    Some(ps) => match ps.author_f {
                        Some(JField::Text { val }) => Ok(
                            EnvelopeV::Event {
                                sequence: sn,
                                event: EventRecordV { author_id: val, raw: text },
                            },
                        ),
                        _ => Err(DecodeError::ShapeMismatch),
                    },
                    None => Err(DecodeError::ShapeMismatch),
                }
            },
            _ => Err(DecodeError::ShapeMismatch),
        }
    } else if k == 1 {
        match spec_d_obj(sl) {
            Some(text) => match spec_scan_payload(text) {
                Some(ps) => match ps.code_f {
                    Some(JField::Num { val }) => if !in_i64(val) {
                        Err(DecodeError::ShapeMismatch)
                    } else {
                        match ps.session_f {
                            None => Ok(
                                EnvelopeV::Hello { code: val as i64, session_id: None },
                            ),
                            Some(JField::NullV) => Ok(
                                EnvelopeV::Hello { code: val as i64, session_id: None },
                            ),
                            Some(JField::Text { val: sid }) => Ok(
                                EnvelopeV::Hello { code: val as i64, session_id: Some(sid) },
                            ),
                            Some(_) => Err(DecodeError::ShapeMismatch),
                        }
                    },
                    _ => Err(DecodeError::ShapeMismatch),
                },
                None => Err(DecodeError::ShapeMismatch),
            },
            None => Err(DecodeError::ShapeMismatch),
        }
    } else if k == 2 {
        match spec_sn_of(sl) {
            Some(sn) => Ok(EnvelopeV::Ping { sequence: sn }),
            None => Err(DecodeError::ShapeMismatch),
        }
    } else if k == 3 {
        Ok(EnvelopeV::Pong)
    } else if k == 4 {
        match spec_sn_of(sl) {
            Some(sn) => Ok(EnvelopeV::Resume { sequence: sn }),
            None => Err(DecodeError::ShapeMismatch),
        }
    } else if k == 5 {
        match spec_d_obj(sl) {
            Some(text) => match spec_scan_payload(text) {
                Some(ps) => match (ps.code_f, ps.err_f) {
                    (Some(JField::Num { val }), Some(JField::Text { val: err })) => if in_i64(
                        val,
                    ) {
                        Ok(EnvelopeV::Reconnect { code: val as i64, err })
                    } else {
                        Err(DecodeError::ShapeMismatch)
                    },
                    _ => Err(DecodeError::ShapeMismatch),
                },
                None => Err(DecodeError::ShapeMismatch),
            },
            None => Err(DecodeError::ShapeMismatch),
        }
    } else {
        match spec_d_obj(sl) {
            Some(text) => match spec_scan_payload(text) {
                Some(ps) => match ps.session_f {
                    Some(JField::Text { val }) => Ok(EnvelopeV::ResumeAck { session_id: val }),
                    _ => Err(DecodeError::ShapeMismatch),
                },
                None => Err(DecodeError::ShapeMismatch),
            },
            None => Err(DecodeError::ShapeMismatch),
        }
    }
}

/// What `decode` returns, for every input text.
pub open spec fn spec_decode(s: Seq<char>) -> Result<EnvelopeV, DecodeError> {
    let t = spec_skip_ws(s);
    if t.len() == 0 || t[0] != '{' {
        Err(DecodeError::Malformed)
    } else {
        match spec_scan_obj(t.skip(1), MAX_DEPTH as nat, slots_empty()) {
            None => Err(DecodeError::Malformed),
            Some(p) => if spec_skip_ws(p.1).len() != 0 {
                Err(DecodeError::Malformed)
            } else {
                match p.0.s_f {
                    Some(JField::Num { val }) => if val < 0 || val > 6 {
                        Err(DecodeError::UnknownKind)
                    } else {
                        spec_decode_kind(val, p.0)
                    },
                    Some(_) => Err(DecodeError::Malformed),
                    None => Err(DecodeError::Malformed),
                }
            },
        }
    }
}

// ---------------------------------------------------------------------------
// what encoding means
// ---------------------------------------------------------------------------

/// A string value or member name on the wire: quoted and escaped.
pub open spec fn quoted(v: Seq<char>) -> Seq<char> {
    seq!['"'] + spec_escape(v) + seq!['"']
}

/// A signed integer on the wire.
pub open spec fn int_digits(v: int) -> Seq<char> {
    if v < 0 {
        seq!['-'] + dec_digits((-v) as nat)
    } else {
        dec_digits(v as nat)
    }
}

pub open spec fn null_text() -> Seq<char> {
    seq!['n', 'u', 'l', 'l']
}

/// The payload object of a Hello frame.
pub open spec fn hello_payload(code: i64, session_id: Option<Seq<char>>) -> Seq<char> {
    seq!['{'] + quoted(key_code()) + seq![':'] + int_digits(code as int) + seq![','] + quoted(
        key_session(),
    ) + seq![':'] + (match session_id {
        Some(v) => quoted(v),
        None => null_text(),
    }) + seq!['}']
}

/// The payload object of a Reconnect frame.
pub open spec fn reconnect_payload(code: i64, err: Seq<char>) -> Seq<char> {
    seq!['{'] + quoted(key_code()) + seq![':'] + int_digits(code as int) + seq![','] + quoted(
        key_err(),
    ) + seq![':'] + quoted(err) + seq!['}']
}

/// The payload object of a ResumeAck frame.
pub open spec fn resume_ack_payload(session_id: Seq<char>) -> Seq<char> {
    seq!['{'] + quoted(key_session()) + seq![':'] + quoted(session_id) + seq!['}']
}

/// A frame with only the discriminant.
pub open spec fn frame_bare(k: nat) -> Seq<char> {
    seq!['{'] + quoted(key_s()) + seq![':'] + dec_digits(k) + seq!['}']
}

/// A frame with the discriminant and a sequence member.
pub open spec fn frame_sn(k: nat, sn: u64) -> Seq<char> {
    seq!['{'] + quoted(key_s()) + seq![':'] + dec_digits(k) + seq![','] + quoted(key_sn())
        + seq![':'] + dec_digits(sn as nat) + seq!['}']
}

/// A frame with the discriminant and a payload member.
pub open spec fn frame_d(k: nat, payload: Seq<char>) -> Seq<char> {
    seq!['{'] + quoted(key_s()) + seq![':'] + dec_digits(k) + seq![','] + quoted(key_d())
        + seq![':'] + payload + seq!['}']
}

/// A frame with the discriminant, a payload and a sequence member.
pub open spec fn frame_d_sn(k: nat, payload: Seq<char>, sn: u64) -> Seq<char> {
    seq!['{'] + quoted(key_s()) + seq![':'] + dec_digits(k) + seq![','] + quoted(key_d())
        + seq![':'] + payload + seq![','] + quoted(key_sn()) + seq![':'] + dec_digits(sn as nat)
        + seq!['}']
}

/// What `encode` produces, for every envelope.
pub open spec fn spec_encode(m: EnvelopeV) -> Seq<char> {
    match m {
        EnvelopeV::Event { sequence, event } => frame_d_sn(0, event.raw, sequence),
        EnvelopeV::Hello { code, session_id } => frame_d(1, hello_payload(code, session_id)),
        EnvelopeV::Ping { sequence } => frame_sn(2, sequence),
        EnvelopeV::Pong => frame_bare(3),
        EnvelopeV::Resume { sequence } => frame_sn(4, sequence),
        EnvelopeV::Reconnect { code, err } => frame_d(5, reconnect_payload(code, err)),
        EnvelopeV::ResumeAck { session_id } => frame_d(6, resume_ack_payload(session_id)),
    }
}


// ---------------------------------------------------------------------------
// exec encoding
// ---------------------------------------------------------------------------

fn push_all(out: &mut Vec<char>, s: &[char])
    ensures
        final(out)@ == old(out)@ + s@,
{
    let mut i: usize = 0;
    proof {
        assert(out@ =~= old(out)@ + s@.take(0));
    }
    while i < s.len()
        invariant
            i <= s@.len(),
            out@ == old(out)@ + s@.take(i as int),
        decreases s@.len() - i,
    {
        out.push(s[i]);
        i = i + 1;
        proof {
            assert(old(out)@ + s@.take(i as int - 1) + seq![s@[i as int - 1]] =~= old(out)@
                + s@.take(i as int));
        }
    }
    proof {
        assert(s@.take(s@.len() as int) =~= s@);
    }
}

fn push_quoted(out: &mut Vec<char>, v: &[char])
    ensures
        final(out)@ == old(out)@ + quoted(v@),
{
    out.push('"');
    escape_into(out, v);
    out.push('"');
    proof {
        assert(out@ =~= old(out)@ + quoted(v@));
    }
}

fn push_key(out: &mut Vec<char>, name: &str)
    ensures
        final(out)@ == old(out)@ + quoted(name@) + seq![':'],
{
    let chars = to_chars(name);
    push_quoted(out, chars.as_slice());
    out.push(':');
    proof {
        assert(out@ =~= old(out)@ + quoted(name@) + seq![':']);
    }
}

fn push_u64(out: &mut Vec<char>, v: u64)
    ensures
        final(out)@ == old(out)@ + dec_digits(v as nat),
{
    let digits = format_u64(v);
    push_all(out, digits.as_slice());
}

fn push_i64(out: &mut Vec<char>, v: i64)
    ensures
        final(out)@ == old(out)@ + int_digits(v as int),
{
    if v < 0 {
        out.push('-');
        let mag: u64 = (-(v + 1)) as u64 + 1;
        proof {
            assert(mag as int == -(v as int));
        }
        let digits = format_u64(mag);
        push_all(out, digits.as_slice());
        proof {
            assert(out@ =~= old(out)@ + int_digits(v as int));
        }
    } else {
        let digits = format_u64(v as u64);
        push_all(out, digits.as_slice());
    }
}

impl EventRecord {
    /// The author of the event, as carried in its `author_id` member.
    pub fn author_id(&self) -> (r: &str)
        ensures
            r@ == self@.author_id,
    {
        self.author_id.as_str()
    }

    /// The exact wire text of the event payload object.
    pub fn raw_text(&self) -> (r: &str)
        ensures
            r@ == self@.raw,
    {
        self.raw.as_str()
    }
}

/// Writes one envelope as a frame.
#[verifier::rlimit(100)]
pub fn encode(m: &Envelope) -> (r: String)
    ensures
        r@ == spec_encode(m@),
{
    let mut out: Vec<char> = Vec::new();
    out.push('{');
    push_key(&mut out, "s");
    proof {
        reveal_strlit("s");
        assert("s"@ =~= key_s());
    }
    match m {
        Envelope::Event { sequence, event } => {
            push_u64(&mut out, 0);
            out.push(',');
            push_key(&mut out, "d");
            proof {
                reveal_strlit("d");
                assert("d"@ =~= key_d());
            }
            let raw = to_chars(event.raw.as_str());
            push_all(&mut out, raw.as_slice());
            out.push(',');
            push_key(&mut out, "sn");
            proof {
                reveal_strlit("sn");
                assert("sn"@ =~= key_sn());
            }
            push_u64(&mut out, *sequence);
            out.push('}');
            proof {
                assert(out@ =~= spec_encode(m@));
            }
        },
        Envelope::Hello { code, session_id } => {
            push_u64(&mut out, 1);
            out.push(',');
            push_key(&mut out, "d");
            proof {
                reveal_strlit("d");
                assert("d"@ =~= key_d());
            }
            out.push('{');
            push_key(&mut out, "code");
            proof {
                reveal_strlit("code");
                assert("code"@ =~= key_code());
            }
            push_i64(&mut out, *code);
            out.push(',');
            push_key(&mut out, "session_id");
            proof {
                reveal_strlit("session_id");
                assert("session_id"@ =~= key_session());
            }
            match session_id {
                Some(sid) => {
                    let chars = to_chars(sid.as_str());
                    push_quoted(&mut out, chars.as_slice());
                },
                None => {
                    out.push('n');
                    out.push('u');
                    out.push('l');
                    out.push('l');
                },
            }
            out.push('}');
            out.push('}');
            proof {
                assert(out@ =~= spec_encode(m@));
            }
        },
        Envelope::Ping { sequence } => {
            push_u64(&mut out, 2);
            out.push(',');
            push_key(&mut out, "sn");
            proof {
                reveal_strlit("sn");
                assert("sn"@ =~= key_sn());
            }
            push_u64(&mut out, *sequence);
            out.push('}');
            proof {
                assert(out@ =~= spec_encode(m@));
            }
        },
        Envelope::Pong => {
            push_u64(&mut out, 3);
            out.push('}');
            proof {
                assert(out@ =~= spec_encode(m@));
            }
        },
        Envelope::Resume { sequence } => {
            push_u64(&mut out, 4);
            out.push(',');
            push_key(&mut out, "sn");
            proof {
                reveal_strlit("sn");
                assert("sn"@ =~= key_sn());
            }
            push_u64(&mut out, *sequence);
            out.push('}');
            proof {
                assert(out@ =~= spec_encode(m@));
            }
        },
        Envelope::Reconnect { code, err } => {
            push_u64(&mut out, 5);
            out.push(',');
            push_key(&mut out, "d");
            proof {
                reveal_strlit("d");
                assert("d"@ =~= key_d());
            }
            out.push('{');
            push_key(&mut out, "code");
            proof {
                reveal_strlit("code");
                assert("code"@ =~= key_code());
            }
            push_i64(&mut out, *code);
            out.push(',');
            push_key(&mut out, "err");
            proof {
                reveal_strlit("err");
                assert("err"@ =~= key_err());
            }
            let chars = to_chars(err.as_str());
            push_quoted(&mut out, chars.as_slice());
            out.push('}');
            out.push('}');
            proof {
                assert(out@ =~= spec_encode(m@));
            }
        },
        Envelope::ResumeAck { session_id } => {
            push_u64(&mut out, 6);
            out.push(',');
            push_key(&mut out, "d");
            proof {
                reveal_strlit("d");
                assert("d"@ =~= key_d());
            }
            out.push('{');
            push_key(&mut out, "session_id");
            proof {
                reveal_strlit("session_id");
                assert("session_id"@ =~= key_session());
            }
            let chars = to_chars(session_id.as_str());
            push_quoted(&mut out, chars.as_slice());
            out.push('}');
            out.push('}');
            proof {
                assert(out@ =~= spec_encode(m@));
            }
        },
    }
    chars_to_string(out.as_slice())
}

// ---------------------------------------------------------------------------
// exec scanning
// ---------------------------------------------------------------------------

/// Exec slots, carrying their own ghost image.
struct Slots {
    s_f: Option<FieldData>,
    sn_f: Option<FieldData>,
    d_f: Option<FieldData>,
    code_f: Option<FieldData>,
    session_f: Option<FieldData>,
    err_f: Option<FieldData>,
    author_f: Option<FieldData>,
    model: Ghost<FrameSlots>,
}

spec fn slot_ok(x: &Option<FieldData>, j: Option<JField>) -> bool {
    match x {
        Some(a) => j is Some && field_matches(a, j->0),
        None => j is None,
    }
}

spec fn slots_ok(sl: &Slots) -> bool {
    &&& slot_ok(&sl.s_f, sl.model@.s_f)
    &&& slot_ok(&sl.sn_f, sl.model@.sn_f)
    &&& slot_ok(&sl.d_f, sl.model@.d_f)
    &&& slot_ok(&sl.code_f, sl.model@.code_f)
    &&& slot_ok(&sl.session_f, sl.model@.session_f)
    &&& slot_ok(&sl.err_f, sl.model@.err_f)
    &&& slot_ok(&sl.author_f, sl.model@.author_f)
}

fn slots_new() -> (r: Slots)
    ensures
        slots_ok(&r),
        r.model@ == slots_empty(),
{
    Slots {
        s_f: None,
        sn_f: None,
        d_f: None,
        code_f: None,
        session_f: None,
        err_f: None,
        author_f: None,
        model: Ghost(slots_empty()),
    }
}

/// Character-wise comparison of a scanned member name with an expected one.
fn key_is(key: &Vec<char>, pat: &str) -> (r: bool)
    ensures
        r == (key@ == pat@),
{
    let n = pat.unicode_len();
    if key.len() != n {
        proof {
            assert(key@.len() != pat@.len());
        }
        return false;
    }
    let mut i: usize = 0;
    while i < n
        invariant
            n == pat@.len(),
            key@.len() == n,
            i <= n,
            forall|j: int| 0 <= j < i ==> key@[j] == pat@[j],
        decreases n - i,
    {
        if key[i] != pat.get_char(i) {
            return false;
        }
        i = i + 1;
    }
    proof {
        assert(key@ =~= pat@);
    }
    true
}

/// Exec twin of `spec_scan_obj`.
#[verifier::rlimit(100)]
fn scan_obj<'a>(s: &'a [char], depth: usize, sl: Slots) -> (r: Option<(Slots, &'a [char])>)
    requires
        slots_ok(&sl),
    ensures
        ({
            let sp = spec_scan_obj(s@, depth as nat, sl.model@);
            match r {
                Some(p) => sp is Some && (sp->0).0 == p.0.model@ && slots_ok(&p.0) && p.1@ == (
                sp->0).1,
                None => sp is None,
            }
        }),
    decreases s@.len(),
{
    let t = skip_ws(s);
    if t.len() > s.len() {
        return None;
    }
    if t.len() == 0 {
        return None;
    }
    if t[0] == '}' {
        proof {
            assert(t@.skip(1) == t@.subrange(1, t@.len() as int));
        }
        return Some((sl, &t[1..t.len()]));
    }
    if t[0] != '"' {
        return None;
    }
    match parse_string(t) {
        None => None,
        Some(p) => {
            let (key, r1) = p;
            let u = skip_ws(r1);
            if u.len() == 0 || u[0] != ':' {
                return None;
            }
            proof {
                assert(u@.skip(1) == u@.subrange(1, u@.len() as int));
            }
            let w = skip_ws(&u[1..u.len()]);
            if w.len() >= s.len() {
                return None;
            }
            match classify(w, depth) {
                None => None,
                Some(q) => {
                    let (f, r2) = q;
                    let ghost fj = (spec_classify(w@, depth as nat)->0).0;
                    let mut sl2 = sl;
                    let b_s = key_is(&key, "s");
                    let b_sn = key_is(&key, "sn");
                    let b_d = key_is(&key, "d");
                    let b_code = key_is(&key, "code");
                    let b_session = key_is(&key, "session_id");
                    let b_err = key_is(&key, "err");
                    let b_author = key_is(&key, "author_id");
                    proof {
                        reveal_strlit("s");
                        reveal_strlit("sn");
                        reveal_strlit("d");
                        reveal_strlit("code");
                        reveal_strlit("session_id");
                        reveal_strlit("err");
                        reveal_strlit("author_id");
                        assert("s"@ =~= key_s());
                        assert("sn"@ =~= key_sn());
                        assert("d"@ =~= key_d());
                        assert("code"@ =~= key_code());
                        assert("session_id"@ =~= key_session());
                        assert("err"@ =~= key_err());
                        assert("author_id"@ =~= key_author());
                    }
                    if b_s {
                        sl2.s_f = Some(f);
                    } else if b_sn {
                        sl2.sn_f = Some(f);
                    } else if b_d {
                        sl2.d_f = Some(f);
                    } else if b_code {
                        sl2.code_f = Some(f);
                    } else if b_session {
                        sl2.session_f = Some(f);
                    } else if b_err {
                        sl2.err_f = Some(f);
                    } else if b_author {
                        sl2.author_f = Some(f);
                    }
                    proof {
                        sl2.model@ = slots_update(sl.model@, key@, fj);
                    }
                    proof {
                        assert(slots_ok(&sl2));
                    }
                    let v = skip_ws(r2);
                    if v.len() == 0 {
                        return None;
                    }
                    if v[0] == '}' {
                        proof {
                            assert(v@.skip(1) == v@.subrange(1, v@.len() as int));
                        }
                        return Some((sl2, &v[1..v.len()]));
                    }
                    if v[0] != ',' {
                        return None;
                    }
                    proof {
                        assert(v@.skip(1) == v@.subrange(1, v@.len() as int));
                    }
                    let nx = skip_ws(&v[1..v.len()]);
                    if nx.len() >= s.len() || nx.len() == 0 || nx[0] != '"' {
                        return None;
                    }
                    scan_obj(nx, depth, sl2)
                },
            }
        },
    }
}


// ---------------------------------------------------------------------------
// exec decoding
// ---------------------------------------------------------------------------

/// Scans a captured payload span as an object.
fn payload_slots(text: &[char]) -> (r: Option<Slots>)
    ensures
        ({
            let sp = spec_scan_payload(text@);
            match r {
                Some(sl) => sp == Some(sl.model@) && slots_ok(&sl),
                None => sp is None,
            }
        }),
{
    if text.len() == 0 || text[0] != '{' {
        return None;
    }
    proof {
        assert(text@.skip(1) == text@.subrange(1, text@.len() as int));
    }
    let body = &text[1..text.len()];
    match scan_obj(body, MAX_DEPTH, slots_new()) {
        Some(p) => {
            let (sl, rest) = p;
            if rest.len() == 0 {
                proof {
                    assert(rest@ =~= Seq::<char>::empty());
                }
                Some(sl)
            } else {
                None
            }
        },
        None => None,
    }
}

/// Turns a scanned integer member into a sequence number, when it is one.
fn sn_of_slot(f: &Option<FieldData>, Ghost(j): Ghost<Option<JField>>) -> (r: Option<u64>)
    requires
        slot_ok(f, j),
    ensures
        ({
            let sl = FrameSlots { sn_f: j, ..slots_empty() };
            r == spec_sn_of(sl)
        }),
{
    match f {
        Some(FieldData::Num { neg, mag, over }) => {
            if *over || (*neg && *mag > 0) {
                None
            } else {
                Some(*mag)
            }
        },
        _ => None,
    }
}

/// Turns a scanned integer member into an `i64`, when it fits.
fn i64_of_slot(f: &Option<FieldData>) -> (r: Option<i64>)
    ensures
        forall|j: JField|
            field_matches(&f->0, j) && f is Some ==> (match j {
                JField::Num { val } => if in_i64(val) {
                    r == Some(val as i64)
                } else {
                    r is None
                },
                _ => r is None,
            }),
{
    match f {
        Some(FieldData::Num { neg, mag, over }) => {
            if *over {
                None
            } else if *neg {
                if *mag > 0x8000_0000_0000_0000u64 {
                    None
                } else if *mag == 0x8000_0000_0000_0000u64 {
                    Some(i64::MIN)
                } else {
                    Some(-(*mag as i64))
                }
            } else {
                if *mag > i64::MAX as u64 {
                    None
                } else {
                    Some(*mag as i64)
                }
            }
        },
        _ => None,
    }
}

/// Reads one frame.  The result is exactly `spec_decode` of the text, and a
/// decoded event payload is well formed, so it can be written back out.
pub fn decode(s: &str) -> (r: Result<Envelope, DecodeError>)
    ensures
        ({
            let sp = spec_decode(s@);
            match r {
                Ok(env) => sp == Ok::<EnvelopeV, DecodeError>(env@),
                Err(e) => sp == Err::<EnvelopeV, DecodeError>(e),
            }
        }),
        ({
            match r {
                Ok(env) => match env@ {
                    EnvelopeV::Event { event, .. } => event_wf(event),
                    _ => true,
                },
                Err(e) => true,
            }
        }),
{
    let chars = to_chars(s);
    let cs = chars.as_slice();
    let t = skip_ws(cs);
    if t.len() == 0 || t[0] != '{' {
        return Err(DecodeError::Malformed);
    }
    proof {
        assert(t@.skip(1) == t@.subrange(1, t@.len() as int));
    }
    let body = &t[1..t.len()];
    let scanned = scan_obj(body, MAX_DEPTH, slots_new());
    match scanned {
        None => Err(DecodeError::Malformed),
        Some(p) => {
            let (sl, rest) = p;
            let tr = skip_ws(rest);
            if tr.len() != 0 {
                return Err(DecodeError::Malformed);
            }
            match &sl.s_f {
                None => Err(DecodeError::Malformed),
                Some(FieldData::Num { neg, mag, over }) => {
                    if *over || (*neg && *mag > 0) || *mag > 6 {
                        return Err(DecodeError::UnknownKind);
                    }
                    let k: u64 = *mag;
                    decode_kind(k, &sl)
                },
                Some(_) => Err(DecodeError::Malformed),
            }
        },
    }
}

/// Decodes a frame whose discriminant is already known to be 0..=6.
fn decode_kind(k: u64, sl: &Slots) -> (r: Result<Envelope, DecodeError>)
    requires
        slots_ok(sl),
        0 <= k <= 6,
    ensures
        ({
            let sp = spec_decode_kind(k as int, sl.model@);
            match r {
                Ok(env) => sp == Ok::<EnvelopeV, DecodeError>(env@),
                Err(e) => sp == Err::<EnvelopeV, DecodeError>(e),
            }
        }),
        ({
            match r {
                Ok(env) => match env@ {
                    EnvelopeV::Event { event, .. } => event_wf(event),
                    _ => true,
                },
                Err(e) => true,
            }
        }),
{
    if k == 0 {
        decode_event(sl)
    } else if k == 1 {
        decode_hello(sl)
    } else if k == 2 {
        match sn_of_slot(&sl.sn_f, Ghost(sl.model@.sn_f)) {
            Some(sequence) => Ok(Envelope::Ping { sequence }),
            None => Err(DecodeError::ShapeMismatch),
        }
    } else if k == 3 {
        Ok(Envelope::Pong)
    } else if k == 4 {
        match sn_of_slot(&sl.sn_f, Ghost(sl.model@.sn_f)) {
            Some(sequence) => Ok(Envelope::Resume { sequence }),
            None => Err(DecodeError::ShapeMismatch),
        }
    } else if k == 5 {
        decode_reconnect(sl)
    } else {
        decode_resume_ack(sl)
    }
}

fn decode_event(sl: &Slots) -> (r: Result<Envelope, DecodeError>)
    requires
        slots_ok(sl),
    ensures
        ({
            let sp = spec_decode_kind(0, sl.model@);
            match r {
                Ok(env) => sp == Ok::<EnvelopeV, DecodeError>(env@),
                Err(e) => sp == Err::<EnvelopeV, DecodeError>(e),
            }
        }),
        ({
            match r {
                Ok(env) => match env@ {
                    EnvelopeV::Event { event, .. } => event_wf(event),
                    _ => true,
                },
                Err(e) => true,
            }
        }),
{
    match &sl.d_f {
        Some(FieldData::Span { text }) => {
            if text.len() == 0 || text[0] != '{' {
                return Err(DecodeError::ShapeMismatch);
            }
            match crate::json::skip_value(text.as_slice(), MAX_DEPTH) {
                Some(left) => {
                    if left.len() != 0 {
                        return Err(DecodeError::ShapeMismatch);
                    }
                    proof {
                        assert(left@ =~= Seq::<char>::empty());
                    }
                },
                None => {
                    return Err(DecodeError::ShapeMismatch);
                },
            }
            let sn = sn_of_slot(&sl.sn_f, Ghost(sl.model@.sn_f));
            match sn {
                None => Err(DecodeError::ShapeMismatch),
                Some(sequence) => {
                    match payload_slots(text.as_slice()) {
                        None => Err(DecodeError::ShapeMismatch),
                        Some(ps) => match &ps.author_f {
                            Some(FieldData::Text { val }) => {
                                let author_id = chars_to_string(val.as_slice());
                                let raw = chars_to_string(text.as_slice());
                                Ok(
                                    Envelope::Event {
                                        sequence,
                                        event: EventRecord { author_id, raw },
                                    },
                                )
                            },
                            _ => Err(DecodeError::ShapeMismatch),
                        },
                    }
                },
            }
        },
        _ => Err(DecodeError::ShapeMismatch),
    }
}

fn decode_hello(sl: &Slots) -> (r: Result<Envelope, DecodeError>)
    requires
        slots_ok(sl),
    ensures
        ({
            let sp = spec_decode_kind(1, sl.model@);
            match r {
                Ok(env) => sp == Ok::<EnvelopeV, DecodeError>(env@),
                Err(e) => sp == Err::<EnvelopeV, DecodeError>(e),
            }
        }),
{
    match &sl.d_f {
        Some(FieldData::Span { text }) => {
            if text.len() == 0 || text[0] != '{' {
                return Err(DecodeError::ShapeMismatch);
            }
            match payload_slots(text.as_slice()) {
                None => Err(DecodeError::ShapeMismatch),
                Some(ps) => {
                    if !(matches!(&ps.code_f, Some(FieldData::Num { .. }))) {
                        return Err(DecodeError::ShapeMismatch);
                    }
                    match i64_of_slot(&ps.code_f) {
                        None => Err(DecodeError::ShapeMismatch),
                        Some(code) => match &ps.session_f {
                            None => Ok(Envelope::Hello { code, session_id: None }),
                            Some(FieldData::NullV) => Ok(
                                Envelope::Hello { code, session_id: None },
                            ),
                            Some(FieldData::Text { val }) => Ok(
                                Envelope::Hello {
                                    code,
                                    session_id: Some(chars_to_string(val.as_slice())),
                                },
                            ),
                            Some(_) => Err(DecodeError::ShapeMismatch),
                        },
                    }
                },
            }
        },
        _ => Err(DecodeError::ShapeMismatch),
    }
}

fn decode_reconnect(sl: &Slots) -> (r: Result<Envelope, DecodeError>)
    requires
        slots_ok(sl),
    ensures
        ({
            let sp = spec_decode_kind(5, sl.model@);
            match r {
                Ok(env) => sp == Ok::<EnvelopeV, DecodeError>(env@),
                Err(e) => sp == Err::<EnvelopeV, DecodeError>(e),
            }
        }),
{
    match &sl.d_f {
        Some(FieldData::Span { text }) => {
            if text.len() == 0 || text[0] != '{' {
                return Err(DecodeError::ShapeMismatch);
            }
            match payload_slots(text.as_slice()) {
                None => Err(DecodeError::ShapeMismatch),
                Some(ps) => {
                    if !(matches!(&ps.code_f, Some(FieldData::Num { .. }))) {
                        return Err(DecodeError::ShapeMismatch);
                    }
                    match i64_of_slot(&ps.code_f) {
                        None => Err(DecodeError::ShapeMismatch),
                        Some(code) => match &ps.err_f {
                            Some(FieldData::Text { val }) => Ok(
                                Envelope::Reconnect {
                                    code,
                                    err: chars_to_string(val.as_slice()),
                                },
                            ),
                            _ => Err(DecodeError::ShapeMismatch),
                        },
                    }
                },
            }
        },
        _ => Err(DecodeError::ShapeMismatch),
    }
}

fn decode_resume_ack(sl: &Slots) -> (r: Result<Envelope, DecodeError>)
    requires
        slots_ok(sl),
    ensures
        ({
            let sp = spec_decode_kind(6, sl.model@);
            match r {
                Ok(env) => sp == Ok::<EnvelopeV, DecodeError>(env@),
                Err(e) => sp == Err::<EnvelopeV, DecodeError>(e),
            }
        }),
{
    match &sl.d_f {
        Some(FieldData::Span { text }) => {
            if text.len() == 0 || text[0] != '{' {
                return Err(DecodeError::ShapeMismatch);
            }
            match payload_slots(text.as_slice()) {
                None => Err(DecodeError::ShapeMismatch),
                Some(ps) => match &ps.session_f {
                    Some(FieldData::Text { val }) => Ok(
                        Envelope::ResumeAck {
                            session_id: chars_to_string(val.as_slice()),
                        },
                    ),
                    _ => Err(DecodeError::ShapeMismatch),
                },
            }
        },
        _ => Err(DecodeError::ShapeMismatch),
    }
}


// ---------------------------------------------------------------------------
// reading back what encode wrote: small steps
// ---------------------------------------------------------------------------

/// Continuations that follow a member value in an encoded frame.
pub open spec fn member_end(c: Seq<char>) -> bool {
    c.len() > 0 && (c[0] == ',' || c[0] == '}')
}

/// A rendered unsigned decimal reads back as that number.
proof fn lemma_classify_u64(n: u64, cont: Seq<char>, depth: nat)
    requires
        member_end(cont),
    ensures
        spec_classify(dec_digits(n as nat) + cont, depth) == Some(
            (JField::Num { val: n as int }, cont),
        ),
{
    let s = dec_digits(n as nat) + cont;
    lemma_dec_digits_shape(n as nat);
    assert(s[0] == dec_digits(n as nat)[0]);
    crate::json::lemma_parse_of_dec(n as nat, 0, cont);
    assert(0 * crate::json::pow10(dec_digits(n as nat).len()) + n as nat == n as nat)
        by (nonlinear_arith);
    assert(spec_parse_digits(s, 0) == spec_parse_digits(cont, n as nat));
    assert(spec_parse_digits(cont, n as nat) == (n as nat, cont));
}

/// A rendered signed decimal reads back as that number.
proof fn lemma_classify_i64(v: i64, cont: Seq<char>, depth: nat)
    requires
        member_end(cont),
    ensures
        spec_classify(int_digits(v as int) + cont, depth) == Some(
            (JField::Num { val: v as int }, cont),
        ),
{
    if v >= 0 {
        assert(int_digits(v as int) =~= dec_digits(v as nat));
        let s0 = int_digits(v as int) + cont;
        let s1 = dec_digits(v as nat) + cont;
        assert(s0 =~= s1);
        lemma_classify_u64(v as u64, cont, depth);
        assert(v as u64 as int == v as int);
    } else {
        let mag = (-(v as int)) as nat;
        let s = int_digits(v as int) + cont;
        lemma_dec_digits_shape(mag);
        assert(s =~= seq!['-'] + (dec_digits(mag) + cont));
        assert(s[0] == '-');
        assert(s.skip(1) =~= dec_digits(mag) + cont);
        assert(s[1] == dec_digits(mag)[0]);
        crate::json::lemma_parse_of_dec(mag, 0, cont);
        assert(0 * crate::json::pow10(dec_digits(mag).len()) + mag == mag) by (nonlinear_arith);
        assert(spec_parse_digits(s.skip(1), 0) == (mag, cont));
    }
}

/// A quoted, escaped string reads back as that string.
proof fn lemma_classify_quoted(v: Seq<char>, cont: Seq<char>, depth: nat)
    ensures
        spec_classify(quoted(v) + cont, depth) == Some((JField::Text { val: v }, cont)),
{
    let s = quoted(v) + cont;
    assert(s[0] == '"');
    assert(s.skip(1) =~= spec_escape(v) + seq!['"'] + cont);
    lemma_escape_round_trip(v, Seq::empty(), cont);
    assert(Seq::<char>::empty() + v =~= v);
    assert(spec_parse_string(s) == Some((v, cont)));
}

/// The `null` literal reads back as null.
proof fn lemma_classify_null(cont: Seq<char>, depth: nat)
    ensures
        spec_classify(null_text() + cont, depth) == Some((JField::NullV, cont)),
{
    let s = null_text() + cont;
    assert(s[0] == 'n' && s[1] == 'u' && s[2] == 'l' && s[3] == 'l');
    assert(s.skip(4) =~= cont);
    assert(spec_skip_value(s, depth) == Some(cont));
}

/// A span whose skip is known classifies as that span.
proof fn lemma_classify_obj(vt: Seq<char>, cont: Seq<char>, depth: nat)
    requires
        vt.len() > 0,
        vt[0] == '{',
        spec_skip_value(vt + cont, depth) == Some(cont),
    ensures
        spec_classify(vt + cont, depth) == Some((JField::Span { text: vt }, cont)),
{
    let s = vt + cont;
    assert(s[0] == '{');
    assert(s.take(s.len() - cont.len()) =~= vt);
}

/// One member of an encoded object, followed by a comma and another member.
#[verifier::rlimit(100)]
#[verifier::spinoff_prover]
proof fn lemma_scan_member_mid(
    key: Seq<char>,
    vt: Seq<char>,
    f: JField,
    more: Seq<char>,
    depth: nat,
    sl: FrameSlots,
)
    requires
        vt.len() > 0,
        !is_ws_char(vt[0]),
        spec_classify(vt + (seq![','] + more), depth) == Some((f, seq![','] + more)),
        more.len() > 0,
        more[0] == '"',
    ensures
        spec_scan_obj(quoted(key) + seq![':'] + vt + seq![','] + more, depth, sl)
            == spec_scan_obj(more, depth, slots_update(sl, key, f)),
{
    let s = quoted(key) + seq![':'] + vt + seq![','] + more;
    let after_key = seq![':'] + vt + seq![','] + more;
    let w = vt + seq![','] + more;
    let cont = seq![','] + more;
    assert(s.len() > 0 && s[0] == '"' && s[0] != '}');
    lemma_skip_ws_noop(s);
    assert(s.skip(1) =~= spec_escape(key) + seq!['"'] + after_key);
    lemma_escape_round_trip(key, Seq::empty(), after_key);
    assert(Seq::<char>::empty() + key =~= key);
    assert(spec_parse_string_body(s.skip(1), Seq::empty()) == Some((key, after_key)));
    lemma_skip_ws_noop(after_key);
    assert(spec_skip_ws(after_key) == after_key);
    assert(after_key.len() > 0 && after_key[0] == ':');
    assert(after_key.skip(1) =~= w);
    lemma_skip_ws_noop(w);
    assert(spec_skip_ws(after_key.skip(1)) == w);
    assert(w.len() < s.len());
    assert(w =~= vt + cont);
    assert(spec_classify(w, depth) == Some((f, cont)));
    lemma_skip_ws_noop(cont);
    assert(spec_skip_ws(cont) == cont);
    assert(cont.len() > 0 && cont[0] == ',' && cont[0] != '}');
    assert(cont.skip(1) =~= more);
    lemma_skip_ws_noop(more);
    assert(spec_skip_ws(cont.skip(1)) == more);
    assert(more.len() < s.len());
    assert(spec_scan_obj(s, depth, sl) == spec_scan_obj(more, depth, slots_update(sl, key, f)));
}

/// The final member of an encoded object, followed by the closing brace.
#[verifier::rlimit(100)]
#[verifier::spinoff_prover]
proof fn lemma_scan_member_last(
    key: Seq<char>,
    vt: Seq<char>,
    f: JField,
    rest: Seq<char>,
    depth: nat,
    sl: FrameSlots,
)
    requires
        vt.len() > 0,
        !is_ws_char(vt[0]),
        spec_classify(vt + (seq!['}'] + rest), depth) == Some((f, seq!['}'] + rest)),
    ensures
        spec_scan_obj(quoted(key) + seq![':'] + vt + seq!['}'] + rest, depth, sl) == Some(
            (slots_update(sl, key, f), rest),
        ),
{
    let s = quoted(key) + seq![':'] + vt + seq!['}'] + rest;
    assert(s.len() > 0 && s[0] == '"');
    lemma_skip_ws_noop(s);
    let after_key = seq![':'] + vt + seq!['}'] + rest;
    assert(s.skip(1) =~= spec_escape(key) + seq!['"'] + after_key);
    lemma_escape_round_trip(key, Seq::empty(), after_key);
    assert(Seq::<char>::empty() + key =~= key);
    assert(spec_parse_string_body(s.skip(1), Seq::empty()) == Some((key, after_key)));
    lemma_skip_ws_noop(after_key);
    assert(after_key[0] == ':');
    let w = vt + seq!['}'] + rest;
    assert(after_key.skip(1) =~= w);
    lemma_skip_ws_noop(w);
    assert(w.len() < s.len());
    assert(w =~= vt + (seq!['}'] + rest));
    let cont = seq!['}'] + rest;
    assert(cont[0] == '}');
    lemma_skip_ws_noop(cont);
    assert(spec_skip_ws(cont) == cont);
    assert(cont.skip(1) =~= rest);
    assert(spec_scan_obj(s, depth, sl) == Some((slots_update(sl, key, f), rest)));
}

/// One member of an object being skipped, followed by a comma.
#[verifier::rlimit(100)]
#[verifier::spinoff_prover]
proof fn lemma_skip_member_mid(key: Seq<char>, vt: Seq<char>, more: Seq<char>, depth: nat)
    requires
        vt.len() > 0,
        !is_ws_char(vt[0]),
        spec_skip_value(vt + (seq![','] + more), depth) == Some(seq![','] + more),
        more.len() > 0,
        more[0] == '"',
    ensures
        crate::json::spec_skip_object_body(quoted(key) + seq![':'] + vt + seq![','] + more, depth)
            == crate::json::spec_skip_object_body(more, depth),
{
    let s = quoted(key) + seq![':'] + vt + seq![','] + more;
    assert(s.len() > 0 && s[0] == '"');
    lemma_skip_ws_noop(s);
    let after_key = seq![':'] + vt + seq![','] + more;
    assert(s.skip(1) =~= spec_escape(key) + seq!['"'] + after_key);
    lemma_escape_round_trip(key, Seq::empty(), after_key);
    assert(Seq::<char>::empty() + key =~= key);
    assert(spec_parse_string_body(s.skip(1), Seq::empty()) == Some((key, after_key)));
    lemma_skip_ws_noop(after_key);
    assert(after_key[0] == ':');
    let w = vt + seq![','] + more;
    assert(after_key.skip(1) =~= w);
    lemma_skip_ws_noop(w);
    assert(w.len() < s.len());
    assert(w =~= vt + (seq![','] + more));
    let cont = seq![','] + more;
    assert(cont[0] == ',');
    lemma_skip_ws_noop(cont);
    assert(spec_skip_ws(cont) == cont);
    assert(cont.skip(1) =~= more);
    lemma_skip_ws_noop(more);
    assert(spec_skip_ws(cont.skip(1)) == more);
    assert(more.len() < s.len());
    assert(crate::json::spec_skip_object_body(s, depth)
        == crate::json::spec_skip_object_body(more, depth));
}

/// The final member of an object being skipped.
#[verifier::rlimit(100)]
#[verifier::spinoff_prover]
proof fn lemma_skip_member_last(key: Seq<char>, vt: Seq<char>, rest: Seq<char>, depth: nat)
    requires
        vt.len() > 0,
        !is_ws_char(vt[0]),
        spec_skip_value(vt + (seq!['}'] + rest), depth) == Some(seq!['}'] + rest),
    ensures
        crate::json::spec_skip_object_body(quoted(key) + seq![':'] + vt + seq!['}'] + rest, depth)
            == Some(rest),
{
    let s = quoted(key) + seq![':'] + vt + seq!['}'] + rest;
    assert(s.len() > 0 && s[0] == '"');
    lemma_skip_ws_noop(s);
    let after_key = seq![':'] + vt + seq!['}'] + rest;
    assert(s.skip(1) =~= spec_escape(key) + seq!['"'] + after_key);
    lemma_escape_round_trip(key, Seq::empty(), after_key);
    assert(Seq::<char>::empty() + key =~= key);
    assert(spec_parse_string_body(s.skip(1), Seq::empty()) == Some((key, after_key)));
    lemma_skip_ws_noop(after_key);
    assert(after_key[0] == ':');
    let w = vt + seq!['}'] + rest;
    assert(after_key.skip(1) =~= w);
    lemma_skip_ws_noop(w);
    assert(w.len() < s.len());
    assert(w =~= vt + (seq!['}'] + rest));
    let cont = seq!['}'] + rest;
    assert(cont[0] == '}');
    lemma_skip_ws_noop(cont);
    assert(spec_skip_ws(cont) == cont);
    assert(cont.skip(1) =~= rest);
    assert(crate::json::spec_skip_object_body(s, depth) == Some(rest));
}

/// Skipping a rendered signed decimal consumes exactly it.
proof fn lemma_skip_int(v: i64, cont: Seq<char>, depth: nat)
    requires
        member_end(cont),
    ensures
        spec_skip_value(int_digits(v as int) + cont, depth) == Some(cont),
{
    let s = int_digits(v as int) + cont;
    if v >= 0 {
        lemma_dec_digits_shape(v as nat);
        assert(s =~= dec_digits(v as nat) + cont);
        crate::json::lemma_skip_number_of_digits(v as nat, cont);
        assert(s[0] == dec_digits(v as nat)[0]);
    } else {
        let mag = (-(v as int)) as nat;
        lemma_dec_digits_shape(mag);
        assert(s =~= seq!['-'] + (dec_digits(mag) + cont));
        assert(s[0] == '-');
        crate::json::lemma_skip_number_of_digits(mag, cont);
        assert(spec_skip_number(s) == spec_skip_number(s.skip(1))) by {
            assert(is_number_char(s[0]));
        }
        assert(s.skip(1) =~= dec_digits(mag) + cont);
    }
}

/// Skipping a quoted string consumes exactly it.
proof fn lemma_skip_quoted(v: Seq<char>, cont: Seq<char>, depth: nat)
    ensures
        spec_skip_value(quoted(v) + cont, depth) == Some(cont),
{
    let s = quoted(v) + cont;
    assert(s[0] == '"');
    assert(s.skip(1) =~= spec_escape(v) + seq!['"'] + cont);
    lemma_escape_round_trip(v, Seq::empty(), cont);
}

/// Skipping the `null` literal consumes exactly it.
proof fn lemma_skip_null(cont: Seq<char>, depth: nat)
    ensures
        spec_skip_value(null_text() + cont, depth) == Some(cont),
{
    let s = null_text() + cont;
    assert(s[0] == 'n' && s[1] == 'u' && s[2] == 'l' && s[3] == 'l');
    assert(s.skip(4) =~= cont);
}


// ---------------------------------------------------------------------------
// reading back what encode wrote: payloads and frames
// ---------------------------------------------------------------------------

/// The member names the scanner knows are pairwise distinct.
proof fn lemma_keys_distinct()
    ensures
        key_d() != key_s(),
        key_sn() != key_s(),
        key_sn() != key_d(),
        key_code() != key_s(),
        key_code() != key_sn(),
        key_code() != key_d(),
        key_session() != key_s(),
        key_session() != key_sn(),
        key_session() != key_d(),
        key_session() != key_code(),
        key_err() != key_s(),
        key_err() != key_sn(),
        key_err() != key_d(),
        key_err() != key_code(),
        key_err() != key_session(),
        key_author() != key_s(),
        key_author() != key_sn(),
        key_author() != key_d(),
        key_author() != key_code(),
        key_author() != key_session(),
        key_author() != key_err(),
{
    assert(key_s().len() == 1);
    assert(key_d().len() == 1);
    assert(key_sn().len() == 2);
    assert(key_err().len() == 3);
    assert(key_code().len() == 4);
    assert(key_author().len() == 9);
    assert(key_session().len() == 10);
    assert(key_s()[0] == 's');
    assert(key_d()[0] == 'd');
}

/// `int_digits` always renders something visible.
proof fn lemma_int_digits_head(v: int)
    ensures
        int_digits(v).len() > 0,
        !is_ws_char(int_digits(v)[0]),
        int_digits(v)[0] != '"',
{
    if v < 0 {
        lemma_dec_digits_shape((-v) as nat);
        assert(int_digits(v)[0] == '-');
    } else {
        lemma_dec_digits_shape(v as nat);
        assert(int_digits(v)[0] == dec_digits(v as nat)[0]);
        assert(is_digit_char(int_digits(v)[0]));
    }
}

proof fn lemma_dec_digits_head(n: nat)
    ensures
        dec_digits(n).len() > 0,
        !is_ws_char(dec_digits(n)[0]),
{
    lemma_dec_digits_shape(n);
    assert(is_digit_char(dec_digits(n)[0]));
}

/// Skipping a one-member object whose value is a string consumes exactly it.
#[verifier::rlimit(100)]
#[verifier::spinoff_prover]
proof fn lemma_skip_single_str_payload(key: Seq<char>, v: Seq<char>, cont: Seq<char>, depth: nat)
    requires
        depth >= 1,
    ensures
        spec_skip_value(
            seq!['{'] + quoted(key) + seq![':'] + quoted(v) + seq!['}'] + cont,
            depth,
        ) == Some(cont),
{
    let s = seq!['{'] + quoted(key) + seq![':'] + quoted(v) + seq!['}'] + cont;
    let body = quoted(key) + seq![':'] + quoted(v) + seq!['}'] + cont;
    assert(s[0] == '{');
    assert(s.skip(1) =~= body);
    lemma_skip_quoted(v, seq!['}'] + cont, (depth - 1) as nat);
    assert(quoted(v)[0] == '"');
    lemma_skip_member_last(key, quoted(v), cont, (depth - 1) as nat);
}

/// Scanning a one-member object whose value is a string finds that member.
#[verifier::rlimit(100)]
#[verifier::spinoff_prover]
proof fn lemma_scan_single_str_payload(key: Seq<char>, v: Seq<char>)
    ensures
        spec_scan_payload(seq!['{'] + quoted(key) + seq![':'] + quoted(v) + seq!['}'])
            == Some(slots_update(slots_empty(), key, JField::Text { val: v })),
{
    let p = seq!['{'] + quoted(key) + seq![':'] + quoted(v) + seq!['}'];
    let body = quoted(key) + seq![':'] + quoted(v) + seq!['}'] + Seq::<char>::empty();
    assert(p[0] == '{');
    assert(p.skip(1) =~= body);
    lemma_classify_quoted(v, seq!['}'] + Seq::<char>::empty(), MAX_DEPTH as nat);
    assert(quoted(v)[0] == '"');
    lemma_scan_member_last(
        key,
        quoted(v),
        JField::Text { val: v },
        Seq::<char>::empty(),
        MAX_DEPTH as nat,
        slots_empty(),
    );
    assert(spec_scan_obj(p.skip(1), MAX_DEPTH as nat, slots_empty()) == Some(
        (slots_update(slots_empty(), key, JField::Text { val: v }), Seq::<char>::empty()),
    ));
}

/// Skipping an encoded Hello payload consumes exactly it.
#[verifier::rlimit(100)]
#[verifier::spinoff_prover]
proof fn lemma_skip_hello_payload(
    code: i64,
    sid: Option<Seq<char>>,
    cont: Seq<char>,
    depth: nat,
)
    requires
        depth >= 1,
    ensures
        spec_skip_value(hello_payload(code, sid) + cont, depth) == Some(cont),
{
    let vmem = match sid {
        Some(v) => quoted(v),
        None => null_text(),
    };
    let more = quoted(key_session()) + seq![':'] + vmem + seq!['}'] + cont;
    let body = quoted(key_code()) + seq![':'] + int_digits(code as int) + seq![','] + more;
    let s = hello_payload(code, sid) + cont;
    assert(s[0] == '{');
    assert(s.skip(1) =~= body);
    lemma_int_digits_head(code as int);
    lemma_skip_int(code, seq![','] + more, (depth - 1) as nat);
    assert(more[0] == '"');
    lemma_skip_member_mid(key_code(), int_digits(code as int), more, (depth - 1) as nat);
    match sid {
        Some(v) => {
            lemma_skip_quoted(v, seq!['}'] + cont, (depth - 1) as nat);
            assert(vmem[0] == '"');
        },
        None => {
            lemma_skip_null(seq!['}'] + cont, (depth - 1) as nat);
            assert(vmem[0] == 'n');
        },
    }
    lemma_skip_member_last(key_session(), vmem, cont, (depth - 1) as nat);
    assert(crate::json::spec_skip_object_body(body, (depth - 1) as nat) == Some(cont));
}

/// Scanning an encoded Hello payload finds its two members.
#[verifier::rlimit(100)]
#[verifier::spinoff_prover]
proof fn lemma_scan_hello_payload(code: i64, sid: Option<Seq<char>>)
    ensures
        spec_scan_payload(hello_payload(code, sid)) == Some(
            FrameSlots {
                s_f: None,
                sn_f: None,
                d_f: None,
                code_f: Some(JField::Num { val: code as int }),
                session_f: Some(
                    match sid {
                        Some(v) => JField::Text { val: v },
                        None => JField::NullV,
                    },
                ),
                err_f: None,
                author_f: None,
            },
        ),
{
    let d = MAX_DEPTH as nat;
    let vmem = match sid {
        Some(v) => quoted(v),
        None => null_text(),
    };
    let f2 = match sid {
        Some(v) => JField::Text { val: v },
        None => JField::NullV,
    };
    let p = hello_payload(code, sid);
    let more = quoted(key_session()) + seq![':'] + vmem + seq!['}'] + Seq::<char>::empty();
    let body = quoted(key_code()) + seq![':'] + int_digits(code as int) + seq![','] + more;
    assert(p[0] == '{');
    assert(p.skip(1) =~= body);
    lemma_int_digits_head(code as int);
    lemma_classify_i64(code, seq![','] + more, d);
    assert(more[0] == '"');
    lemma_scan_member_mid(
        key_code(),
        int_digits(code as int),
        JField::Num { val: code as int },
        more,
        d,
        slots_empty(),
    );
    let sl1 = slots_update(slots_empty(), key_code(), JField::Num { val: code as int });
    match sid {
        Some(v) => {
            lemma_classify_quoted(v, seq!['}'] + Seq::<char>::empty(), d);
            assert(vmem[0] == '"');
        },
        None => {
            lemma_classify_null(seq!['}'] + Seq::<char>::empty(), d);
            assert(vmem[0] == 'n');
        },
    }
    lemma_scan_member_last(key_session(), vmem, f2, Seq::<char>::empty(), d, sl1);
    lemma_keys_distinct();
    assert(spec_scan_obj(p.skip(1), d, slots_empty()) == Some(
        (slots_update(sl1, key_session(), f2), Seq::<char>::empty()),
    ));
}

/// Skipping an encoded Reconnect payload consumes exactly it.
#[verifier::rlimit(100)]
#[verifier::spinoff_prover]
proof fn lemma_skip_reconnect_payload(code: i64, err: Seq<char>, cont: Seq<char>, depth: nat)
    requires
        depth >= 1,
    ensures
        spec_skip_value(reconnect_payload(code, err) + cont, depth) == Some(cont),
{
    let more = quoted(key_err()) + seq![':'] + quoted(err) + seq!['}'] + cont;
    let body = quoted(key_code()) + seq![':'] + int_digits(code as int) + seq![','] + more;
    let s = reconnect_payload(code, err) + cont;
    assert(s[0] == '{');
    assert(s.skip(1) =~= body);
    lemma_int_digits_head(code as int);
    lemma_skip_int(code, seq![','] + more, (depth - 1) as nat);
    assert(more[0] == '"');
    lemma_skip_member_mid(key_code(), int_digits(code as int), more, (depth - 1) as nat);
    lemma_skip_quoted(err, seq!['}'] + cont, (depth - 1) as nat);
    assert(quoted(err)[0] == '"');
    lemma_skip_member_last(key_err(), quoted(err), cont, (depth - 1) as nat);
    assert(crate::json::spec_skip_object_body(body, (depth - 1) as nat) == Some(cont));
}

/// Scanning an encoded Reconnect payload finds its two members.
#[verifier::rlimit(100)]
#[verifier::spinoff_prover]
proof fn lemma_scan_reconnect_payload(code: i64, err: Seq<char>)
    ensures
        spec_scan_payload(reconnect_payload(code, err)) == Some(
            FrameSlots {
                s_f: None,
                sn_f: None,
                d_f: None,
                code_f: Some(JField::Num { val: code as int }),
                session_f: None,
                err_f: Some(JField::Text { val: err }),
                author_f: None,
            },
        ),
{
    let d = MAX_DEPTH as nat;
    let p = reconnect_payload(code, err);
    let more = quoted(key_err()) + seq![':'] + quoted(err) + seq!['}'] + Seq::<char>::empty();
    let body = quoted(key_code()) + seq![':'] + int_digits(code as int) + seq![','] + more;
    assert(p[0] == '{');
    assert(p.skip(1) =~= body);
    lemma_int_digits_head(code as int);
    lemma_classify_i64(code, seq![','] + more, d);
    assert(more[0] == '"');
    lemma_scan_member_mid(
        key_code(),
        int_digits(code as int),
        JField::Num { val: code as int },
        more,
        d,
        slots_empty(),
    );
    let sl1 = slots_update(slots_empty(), key_code(), JField::Num { val: code as int });
    lemma_classify_quoted(err, seq!['}'] + Seq::<char>::empty(), d);
    assert(quoted(err)[0] == '"');
    lemma_scan_member_last(
        key_err(),
        quoted(err),
        JField::Text { val: err },
        Seq::<char>::empty(),
        d,
        sl1,
    );
    lemma_keys_distinct();
    assert(spec_scan_obj(p.skip(1), d, slots_empty()) == Some(
        (slots_update(sl1, key_err(), JField::Text { val: err }), Seq::<char>::empty()),
    ));
}


/// Decoding a bare frame (discriminant only, kind 3).
#[verifier::rlimit(100)]
#[verifier::spinoff_prover]
proof fn lemma_rt_pong()
    ensures
        spec_decode(frame_bare(3)) == Ok::<EnvelopeV, DecodeError>(EnvelopeV::Pong),
{
    let enc = frame_bare(3);
    let body = quoted(key_s()) + seq![':'] + dec_digits(3) + seq!['}'] + Seq::<char>::empty();
    assert(enc[0] == '{');
    assert(!is_ws_char(enc[0]));
    lemma_skip_ws_noop(enc);
    assert(enc.skip(1) =~= body);
    lemma_dec_digits_head(3);
    lemma_classify_u64(3, seq!['}'] + Seq::<char>::empty(), MAX_DEPTH as nat);
    lemma_scan_member_last(
        key_s(),
        dec_digits(3),
        JField::Num { val: 3 },
        Seq::<char>::empty(),
        MAX_DEPTH as nat,
        slots_empty(),
    );
    let sl = slots_update(slots_empty(), key_s(), JField::Num { val: 3 });
    assert(sl.s_f == Some(JField::Num { val: 3int }));
    assert(spec_skip_ws(Seq::<char>::empty()).len() == 0);
}

/// Decoding a frame with a discriminant and a sequence (kinds 2 and 4).
#[verifier::rlimit(100)]
#[verifier::spinoff_prover]
proof fn lemma_rt_sn(k: u64, sn: u64)
    requires
        k == 2 || k == 4,
    ensures
        k == 2 ==> spec_decode(frame_sn(2, sn)) == Ok::<EnvelopeV, DecodeError>(
            EnvelopeV::Ping { sequence: sn },
        ),
        k == 4 ==> spec_decode(frame_sn(4, sn)) == Ok::<EnvelopeV, DecodeError>(
            EnvelopeV::Resume { sequence: sn },
        ),
{
    let d = MAX_DEPTH as nat;
    let enc = frame_sn(k as nat, sn);
    let more = quoted(key_sn()) + seq![':'] + dec_digits(sn as nat) + seq!['}']
        + Seq::<char>::empty();
    let body = quoted(key_s()) + seq![':'] + dec_digits(k as nat) + seq![','] + more;
    assert(enc[0] == '{');
    assert(!is_ws_char(enc[0]));
    lemma_skip_ws_noop(enc);
    assert(enc.skip(1) =~= body);
    lemma_dec_digits_head(k as nat);
    lemma_classify_u64(k, seq![','] + more, d);
    assert(more[0] == '"');
    lemma_scan_member_mid(
        key_s(),
        dec_digits(k as nat),
        JField::Num { val: k as int },
        more,
        d,
        slots_empty(),
    );
    let sl1 = slots_update(slots_empty(), key_s(), JField::Num { val: k as int });
    lemma_dec_digits_head(sn as nat);
    lemma_classify_u64(sn, seq!['}'] + Seq::<char>::empty(), d);
    lemma_scan_member_last(
        key_sn(),
        dec_digits(sn as nat),
        JField::Num { val: sn as int },
        Seq::<char>::empty(),
        d,
        sl1,
    );
    let sl2 = slots_update(sl1, key_sn(), JField::Num { val: sn as int });
    lemma_keys_distinct();
    assert(sl2.s_f == Some(JField::Num { val: k as int }));
    assert(sl2.sn_f == Some(JField::Num { val: sn as int }));
    assert(spec_skip_ws(Seq::<char>::empty()).len() == 0);
    assert(spec_sn_of(sl2) == Some(sn));
}

/// Decoding a frame with a discriminant and a payload (kinds 1, 5 and 6).
#[verifier::rlimit(100)]
#[verifier::spinoff_prover]
proof fn lemma_rt_d_frame(k: u64, payload: Seq<char>, psl: FrameSlots)
    requires
        k == 1 || k == 5 || k == 6,
        payload.len() > 0,
        payload[0] == '{',
        spec_skip_value(payload + (seq!['}'] + Seq::<char>::empty()), MAX_DEPTH as nat) == Some(
            seq!['}'] + Seq::<char>::empty(),
        ),
        spec_scan_payload(payload) == Some(psl),
    ensures
        ({
            let sl2 = slots_update(
                slots_update(slots_empty(), key_s(), JField::Num { val: k as int }),
                key_d(),
                JField::Span { text: payload },
            );
            spec_decode(frame_d(k as nat, payload)) == spec_decode_kind(k as int, sl2)
        }),
{
    let d = MAX_DEPTH as nat;
    let enc = frame_d(k as nat, payload);
    let more = quoted(key_d()) + seq![':'] + payload + seq!['}'] + Seq::<char>::empty();
    let body = quoted(key_s()) + seq![':'] + dec_digits(k as nat) + seq![','] + more;
    assert(enc[0] == '{');
    assert(!is_ws_char(enc[0]));
    lemma_skip_ws_noop(enc);
    assert(enc.skip(1) =~= body);
    lemma_dec_digits_head(k as nat);
    lemma_classify_u64(k, seq![','] + more, d);
    assert(more[0] == '"');
    lemma_scan_member_mid(
        key_s(),
        dec_digits(k as nat),
        JField::Num { val: k as int },
        more,
        d,
        slots_empty(),
    );
    let sl1 = slots_update(slots_empty(), key_s(), JField::Num { val: k as int });
    lemma_classify_obj(payload, seq!['}'] + Seq::<char>::empty(), d);
    assert(!is_ws_char(payload[0]));
    lemma_scan_member_last(
        key_d(),
        payload,
        JField::Span { text: payload },
        Seq::<char>::empty(),
        d,
        sl1,
    );
    let sl2 = slots_update(sl1, key_d(), JField::Span { text: payload });
    lemma_keys_distinct();
    assert(sl2.s_f == Some(JField::Num { val: k as int }));
    assert(spec_skip_ws(Seq::<char>::empty()).len() == 0);
}

/// Decoding an encoded Event frame.
#[verifier::rlimit(100)]
#[verifier::spinoff_prover]
proof fn lemma_rt_event(sn: u64, event: EventRecordV)
    requires
        event_wf(event),
    ensures
        spec_decode(frame_d_sn(0, event.raw, sn)) == Ok::<EnvelopeV, DecodeError>(
            EnvelopeV::Event { sequence: sn, event: event },
        ),
{
    let d = MAX_DEPTH as nat;
    let raw = event.raw;
    let enc = frame_d_sn(0, raw, sn);
    let more2 = quoted(key_sn()) + seq![':'] + dec_digits(sn as nat) + seq!['}']
        + Seq::<char>::empty();
    let more1 = quoted(key_d()) + seq![':'] + raw + seq![','] + more2;
    let body = quoted(key_s()) + seq![':'] + dec_digits(0) + seq![','] + more1;
    assert(enc[0] == '{');
    assert(!is_ws_char(enc[0]));
    lemma_skip_ws_noop(enc);
    assert(enc.skip(1) =~= body);
    lemma_dec_digits_head(0);
    lemma_classify_u64(0, seq![','] + more1, d);
    assert(more1[0] == '"');
    lemma_scan_member_mid(
        key_s(),
        dec_digits(0),
        JField::Num { val: 0 },
        more1,
        d,
        slots_empty(),
    );
    let sl1 = slots_update(slots_empty(), key_s(), JField::Num { val: 0 });
    crate::json::lemma_skip_value_extend(raw, d, seq![','] + more2);
    assert(Seq::<char>::empty() + (seq![','] + more2) =~= seq![','] + more2);
    lemma_classify_obj(raw, seq![','] + more2, d);
    assert(!is_ws_char(raw[0]));
    assert(more2[0] == '"');
    lemma_scan_member_mid(key_d(), raw, JField::Span { text: raw }, more2, d, sl1);
    let sl2 = slots_update(sl1, key_d(), JField::Span { text: raw });
    lemma_dec_digits_head(sn as nat);
    lemma_classify_u64(sn, seq!['}'] + Seq::<char>::empty(), d);
    lemma_scan_member_last(
        key_sn(),
        dec_digits(sn as nat),
        JField::Num { val: sn as int },
        Seq::<char>::empty(),
        d,
        sl2,
    );
    let sl3 = slots_update(sl2, key_sn(), JField::Num { val: sn as int });
    lemma_keys_distinct();
    assert(sl3.s_f == Some(JField::Num { val: 0int }));
    assert(sl3.d_f == Some(JField::Span { text: raw }));
    assert(sl3.sn_f == Some(JField::Num { val: sn as int }));
    assert(spec_skip_ws(Seq::<char>::empty()).len() == 0);
    assert(spec_d_obj(sl3) == Some(raw));
    assert(spec_sn_of(sl3) == Some(sn));
}

/// Decoding an encoded Hello frame.
#[verifier::rlimit(100)]
#[verifier::spinoff_prover]
proof fn lemma_rt_hello(code: i64, session_id: Option<Seq<char>>)
    ensures
        spec_decode(frame_d(1, hello_payload(code, session_id))) == Ok::<
            EnvelopeV,
            DecodeError,
        >(EnvelopeV::Hello { code, session_id }),
{
    lemma_skip_hello_payload(
        code,
        session_id,
        seq!['}'] + Seq::<char>::empty(),
        MAX_DEPTH as nat,
    );
    lemma_scan_hello_payload(code, session_id);
    assert(hello_payload(code, session_id)[0] == '{');
    let psl = FrameSlots {
        s_f: None,
        sn_f: None,
        d_f: None,
        code_f: Some(JField::Num { val: code as int }),
        session_f: Some(
            match session_id {
                Some(v) => JField::Text { val: v },
                None => JField::NullV,
            },
        ),
        err_f: None,
        author_f: None,
    };
    lemma_rt_d_frame(1, hello_payload(code, session_id), psl);
    let sl2 = slots_update(
        slots_update(slots_empty(), key_s(), JField::Num { val: 1 }),
        key_d(),
        JField::Span { text: hello_payload(code, session_id) },
    );
    lemma_keys_distinct();
    assert(spec_d_obj(sl2) == Some(hello_payload(code, session_id)));
    assert(in_i64(code as int));
}

/// Decoding an encoded Reconnect frame.
#[verifier::rlimit(100)]
#[verifier::spinoff_prover]
proof fn lemma_rt_reconnect(code: i64, err: Seq<char>)
    ensures
        spec_decode(frame_d(5, reconnect_payload(code, err))) == Ok::<EnvelopeV, DecodeError>(
            EnvelopeV::Reconnect { code, err },
        ),
{
    lemma_skip_reconnect_payload(code, err, seq!['}'] + Seq::<char>::empty(), MAX_DEPTH as nat);
    lemma_scan_reconnect_payload(code, err);
    assert(reconnect_payload(code, err)[0] == '{');
    let psl = FrameSlots {
        s_f: None,
        sn_f: None,
        d_f: None,
        code_f: Some(JField::Num { val: code as int }),
        session_f: None,
        err_f: Some(JField::Text { val: err }),
        author_f: None,
    };
    lemma_rt_d_frame(5, reconnect_payload(code, err), psl);
    let sl2 = slots_update(
        slots_update(slots_empty(), key_s(), JField::Num { val: 5 }),
        key_d(),
        JField::Span { text: reconnect_payload(code, err) },
    );
    lemma_keys_distinct();
    assert(spec_d_obj(sl2) == Some(reconnect_payload(code, err)));
    assert(in_i64(code as int));
}

/// Decoding an encoded ResumeAck frame.
#[verifier::rlimit(100)]
#[verifier::spinoff_prover]
proof fn lemma_rt_resume_ack(session_id: Seq<char>)
    ensures
        spec_decode(frame_d(6, resume_ack_payload(session_id))) == Ok::<
            EnvelopeV,
            DecodeError,
        >(EnvelopeV::ResumeAck { session_id }),
{
    assert(resume_ack_payload(session_id) =~= seq!['{'] + quoted(key_session()) + seq![':']
        + quoted(session_id) + seq!['}']);
    lemma_skip_single_str_payload(
        key_session(),
        session_id,
        seq!['}'] + Seq::<char>::empty(),
        MAX_DEPTH as nat,
    );
    lemma_scan_single_str_payload(key_session(), session_id);
    lemma_keys_distinct();
    assert(resume_ack_payload(session_id)[0] == '{');
    let psl = slots_update(slots_empty(), key_session(), JField::Text { val: session_id });
    lemma_rt_d_frame(6, resume_ack_payload(session_id), psl);
    let sl2 = slots_update(
        slots_update(slots_empty(), key_s(), JField::Num { val: 6 }),
        key_d(),
        JField::Span { text: resume_ack_payload(session_id) },
    );
    assert(spec_d_obj(sl2) == Some(resume_ack_payload(session_id)));
    assert(psl.session_f == Some(JField::Text { val: session_id }));
}

/// The round-trip law: every representable envelope, written and read back,
/// yields itself.
pub proof fn lemma_round_trip(m: EnvelopeV)
    requires
        representable(m),
    ensures
        spec_decode(spec_encode(m)) == Ok::<EnvelopeV, DecodeError>(m),
{
    match m {
        EnvelopeV::Event { sequence, event } => lemma_rt_event(sequence, event),
        EnvelopeV::Hello { code, session_id } => lemma_rt_hello(code, session_id),
        EnvelopeV::Ping { sequence } => lemma_rt_sn(2, sequence),
        EnvelopeV::Pong => lemma_rt_pong(),
        EnvelopeV::Resume { sequence } => lemma_rt_sn(4, sequence),
        EnvelopeV::Reconnect { code, err } => lemma_rt_reconnect(code, err),
        EnvelopeV::ResumeAck { session_id } => lemma_rt_resume_ack(session_id),
    }
}


impl EventRecord {
    /// Builds a minimal event payload carrying only the author.
    pub fn new(author_id: &str) -> (r: EventRecord)
        ensures
            r@.author_id == author_id@,
            event_wf(r@),
    {
        let mut out: Vec<char> = Vec::new();
        out.push('{');
        push_key(&mut out, "author_id");
        proof {
            reveal_strlit("author_id");
            assert("author_id"@ =~= key_author());
        }
        let chars = to_chars(author_id);
        push_quoted(&mut out, chars.as_slice());
        out.push('}');
        proof {
            assert(out@ =~= seq!['{'] + quoted(key_author()) + seq![':'] + quoted(author_id@)
                + seq!['}']);
            assert(out@ =~= seq!['{'] + quoted(key_author()) + seq![':'] + quoted(author_id@)
                + seq!['}'] + Seq::<char>::empty());
            lemma_skip_single_str_payload(
                key_author(),
                author_id@,
                Seq::<char>::empty(),
                MAX_DEPTH as nat,
            );
            lemma_scan_single_str_payload(key_author(), author_id@);
            lemma_keys_distinct();
            assert(out@[0] == '{');
        }
        let raw = chars_to_string(out.as_slice());
        let author = chars_to_string(chars.as_slice());
        EventRecord { author_id: author, raw }
    }

    /// Says whether the event's author is the given identity.
    pub fn author_is(&self, other: &String) -> (r: bool)
        ensures
            r == (self@.author_id == other@),
    {
        self.author_id == *other
    }
}

} // verus!
