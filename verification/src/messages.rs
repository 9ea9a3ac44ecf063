use crate::codec::{
    all_digits, chars_eq, dec_of, esc, is_digit, lemma_dec_of_val, lemma_p_string_of_esc,
    lemma_split_digits_of, matches_at, num_val, p_num, p_string, parse_number_at, parse_string_at,
    push_escaped, push_number, split_digits, starts_with, str_to_chars,
};
use vstd::prelude::*;

verus! {

// ---------------------------------------------------------------------------
// Signaling payloads
//
// All frames on the signaling channel are JSON text: a session
// description object with the fields `type` and `sdp`, and an ICE
// candidate object with `candidate`, `sdpMid`, `sdpMLineIndex` and
// `usernameFragment`, the last three optional and `null` when absent.
// The encoder writes one canonical shape: fields in the order above,
// minimal escapes, no whitespace. The decoder takes what any standard
// JSON encoder may produce for these objects: insignificant
// whitespace, the fields in any order, absent optional fields, and the
// whole JSON string grammar inside values. Its two restrictions are
// that keys are expected in their plain spelling, not spelled with
// escapes, and that a key the schema does not know is refused rather
// than skipped.
// ---------------------------------------------------------------------------

/// The type of a session description.
#[derive(Clone, Copy, Debug, PartialEq, Eq, Structural)]
pub enum SdpKind {
    Offer,
    Answer,
    Pranswer,
    Rollback,
}

/// A session description: its type and the SDP text.
pub struct SessionDescription {
    pub kind: SdpKind,
    pub sdp: Vec<char>,
}

/// The mathematical value of a session description.
pub struct SessionDescriptionView {
    pub kind: SdpKind,
    pub sdp: Seq<char>,
}

impl View for SessionDescription {
    type V = SessionDescriptionView;

    open spec fn view(&self) -> SessionDescriptionView {
        SessionDescriptionView { kind: self.kind, sdp: self.sdp@ }
    }
}

/// A trickled ICE candidate, in its initialization form.
pub struct IceCandidate {
    pub candidate: Vec<char>,
    pub sdp_mid: Option<Vec<char>>,
    pub sdp_mline_index: Option<u16>,
    pub username_fragment: Option<Vec<char>>,
}

/// The mathematical value of an ICE candidate.
pub struct IceCandidateView {
    pub candidate: Seq<char>,
    pub sdp_mid: Option<Seq<char>>,
    pub sdp_mline_index: Option<u16>,
    pub username_fragment: Option<Seq<char>>,
}

/// The value an optional text field stands for.
pub open spec fn opt_chars_view(o: Option<Vec<char>>) -> Option<Seq<char>> {
    match o {
        Some(v) => Some(v@),
        None => None,
    }
}

impl View for IceCandidate {
    type V = IceCandidateView;

    open spec fn view(&self) -> IceCandidateView {
        IceCandidateView {
            candidate: self.candidate@,
            sdp_mid: opt_chars_view(self.sdp_mid),
            sdp_mline_index: self.sdp_mline_index,
            username_fragment: opt_chars_view(self.username_fragment),
        }
    }
}

/// The word naming a session description type on the wire.
pub open spec fn kind_word(k: SdpKind) -> Seq<char> {
    match k {
        SdpKind::Offer => "offer"@,
        SdpKind::Answer => "answer"@,
        SdpKind::Pranswer => "pranswer"@,
        SdpKind::Rollback => "rollback"@,
    }
}

/// The session description type a wire word names, if any.
pub open spec fn kind_of_word(w: Seq<char>) -> Option<SdpKind> {
    if w == "offer"@ {
        Some(SdpKind::Offer)
    } else if w == "answer"@ {
        Some(SdpKind::Answer)
    } else if w == "pranswer"@ {
        Some(SdpKind::Pranswer)
    } else if w == "rollback"@ {
        Some(SdpKind::Rollback)
    } else {
        None
    }
}

// ---------------------------------------------------------------------------
// The encoder's canonical text
// ---------------------------------------------------------------------------

/// A JSON string literal: the escaped body between quotes.
pub open spec fn enc_str(s: Seq<char>) -> Seq<char> {
    seq!['"'] + esc(s) + seq!['"']
}

/// An optional string: `null` when absent.
pub open spec fn enc_opt_str(o: Option<Seq<char>>) -> Seq<char> {
    match o {
        Some(s) => enc_str(s),
        None => "null"@,
    }
}

/// An optional number: `null` when absent.
pub open spec fn enc_opt_num(o: Option<u16>) -> Seq<char> {
    match o {
        Some(n) => dec_of(n as int),
        None => "null"@,
    }
}

/// The canonical wire text of a session description.
pub open spec fn enc_sdp(d: SessionDescriptionView) -> Seq<char> {
    seq!['{'] + "\"type\""@ + seq![':'] + enc_str(kind_word(d.kind)) + seq![','] + "\"sdp\""@
        + seq![':'] + enc_str(d.sdp) + seq!['}']
}

/// The canonical wire text of an ICE candidate.
pub open spec fn enc_ice(c: IceCandidateView) -> Seq<char> {
    seq!['{'] + "\"candidate\""@ + seq![':'] + enc_str(c.candidate) + seq![',']
        + "\"sdpMid\""@ + seq![':'] + enc_opt_str(c.sdp_mid) + seq![',']
        + "\"sdpMLineIndex\""@ + seq![':'] + enc_opt_num(c.sdp_mline_index) + seq![',']
        + "\"usernameFragment\""@ + seq![':'] + enc_opt_str(c.username_fragment) + seq!['}']
}

// ---------------------------------------------------------------------------
// The decoder's grammar
// ---------------------------------------------------------------------------

/// A character JSON counts as insignificant whitespace.
pub open spec fn is_ws(c: char) -> bool {
    c == ' ' || c == '\t' || c == '\n' || c == '\r'
}

/// The input with its leading whitespace removed.
pub open spec fn skip_ws(inp: Seq<char>) -> Seq<char>
    decreases inp.len(),
{
    if inp.len() > 0 && is_ws(inp[0]) {
        skip_ws(inp.drop_first())
    } else {
        inp
    }
}

/// Parse a JSON string literal, quotes included.
pub open spec fn p_jstring(inp: Seq<char>) -> Option<(Seq<char>, Seq<char>)> {
    if inp.len() >= 1 && inp[0] == '"' {
        p_string(inp.drop_first())
    } else {
        None
    }
}

/// Parse an optional string: `null` or a string literal.
pub open spec fn p_opt_str(inp: Seq<char>) -> Option<(Option<Seq<char>>, Seq<char>)> {
    if starts_with(inp, "null"@) {
        Some((None, inp.skip("null"@.len() as int)))
    } else {
        match p_jstring(inp) {
            Some((s, r)) => Some((Some(s), r)),
            None => None,
        }
    }
}

/// Parse an optional number: `null` or a run of digits.
pub open spec fn p_opt_num(inp: Seq<char>) -> Option<(Option<u16>, Seq<char>)> {
    if starts_with(inp, "null"@) {
        Some((None, inp.skip("null"@.len() as int)))
    } else {
        match p_num(inp) {
            Some((n, r)) => Some((Some(n), r)),
            None => None,
        }
    }
}

/// Consume whitespace, a colon, and whitespace after a key.
pub open spec fn p_colon(inp: Seq<char>) -> Option<Seq<char>> {
    let r = skip_ws(inp);
    if r.len() > 0 && r[0] == ':' {
        Some(skip_ws(r.drop_first()))
    } else {
        None
    }
}

/// What follows a field: a comma and a further field, the closing
/// brace, or neither.
pub enum FieldEnd {
    More(Seq<char>),
    Done(Seq<char>),
    Bad,
}

/// Consume what follows a field's value.
pub open spec fn p_field_end(inp: Seq<char>) -> FieldEnd {
    let r = skip_ws(inp);
    if r.len() == 0 {
        FieldEnd::Bad
    } else if r[0] == ',' {
        FieldEnd::More(skip_ws(r.drop_first()))
    } else if r[0] == '}' {
        FieldEnd::Done(r.drop_first())
    } else {
        FieldEnd::Bad
    }
}

/// The fields of a session description seen so far. Each key may
/// appear at most once.
pub struct SdpAcc {
    pub kind: Option<SdpKind>,
    pub sdp: Option<Seq<char>>,
}

/// Parse session description fields from the first key to the closing
/// brace, starting at a key's opening quote.
pub open spec fn p_sdp_fields(inp: Seq<char>, acc: SdpAcc) -> Option<(SdpAcc, Seq<char>)>
    decreases inp.len(),
{
    if starts_with(inp, "\"type\""@) {
        let r1 = inp.skip("\"type\""@.len() as int);
        match p_colon(r1) {
            None => None,
            Some(r2) => match p_jstring(r2) {
                None => None,
                Some((w, r3)) => match kind_of_word(w) {
                    None => None,
                    Some(k) => if acc.kind is Some {
                        None
                    } else {
                        let acc2 = SdpAcc { kind: Some(k), sdp: acc.sdp };
                        match p_field_end(r3) {
                            FieldEnd::Done(r) => Some((acc2, r)),
                            FieldEnd::More(r5) => if r5.len() < inp.len() {
                                p_sdp_fields(r5, acc2)
                            } else {
                                None
                            },
                            FieldEnd::Bad => None,
                        }
                    },
                },
            },
        }
    } else if starts_with(inp, "\"sdp\""@) {
        let r1 = inp.skip("\"sdp\""@.len() as int);
        match p_colon(r1) {
            None => None,
            Some(r2) => match p_jstring(r2) {
                None => None,
                Some((s, r3)) => if acc.sdp is Some {
                    None
                } else {
                    let acc2 = SdpAcc { kind: acc.kind, sdp: Some(s) };
                    match p_field_end(r3) {
                        FieldEnd::Done(r) => Some((acc2, r)),
                        FieldEnd::More(r5) => if r5.len() < inp.len() {
                            p_sdp_fields(r5, acc2)
                        } else {
                            None
                        },
                        FieldEnd::Bad => None,
                    }
                },
            },
        }
    } else {
        None
    }
}

/// The parser for a whole session description frame. Both fields are
/// required; whitespace may stand around every token.
pub open spec fn p_sdp(inp: Seq<char>) -> Option<SessionDescriptionView> {
    let r0 = skip_ws(inp);
    if r0.len() == 0 || r0[0] != '{' {
        None
    } else {
        let r1 = skip_ws(r0.drop_first());
        match p_sdp_fields(r1, SdpAcc { kind: None, sdp: None }) {
            None => None,
            Some((acc, r2)) => if skip_ws(r2).len() != 0 {
                None
            } else {
                match (acc.kind, acc.sdp) {
                    (Some(k), Some(s)) => Some(SessionDescriptionView { kind: k, sdp: s }),
                    _ => None,
                }
            },
        }
    }
}

/// The fields of an ICE candidate seen so far. The outer option says
/// whether the key appeared; the inner one holds its value, `None` for
/// an explicit `null`.
pub struct IceAcc {
    pub candidate: Option<Seq<char>>,
    pub sdp_mid: Option<Option<Seq<char>>>,
    pub sdp_mline_index: Option<Option<u16>>,
    pub username_fragment: Option<Option<Seq<char>>>,
}

/// Parse ICE candidate fields from the first key to the closing brace,
/// starting at a key's opening quote.
pub open spec fn p_ice_fields(inp: Seq<char>, acc: IceAcc) -> Option<(IceAcc, Seq<char>)>
    decreases inp.len(),
{
    if starts_with(inp, "\"candidate\""@) {
        let r1 = inp.skip("\"candidate\""@.len() as int);
        match p_colon(r1) {
            None => None,
            Some(r2) => match p_jstring(r2) {
                None => None,
                Some((v, r3)) => if acc.candidate is Some {
                    None
                } else {
                    let acc2 = IceAcc {
                        candidate: Some(v),
                        sdp_mid: acc.sdp_mid,
                        sdp_mline_index: acc.sdp_mline_index,
                        username_fragment: acc.username_fragment,
                    };
                    match p_field_end(r3) {
                        FieldEnd::Done(r) => Some((acc2, r)),
                        FieldEnd::More(r5) => if r5.len() < inp.len() {
                            p_ice_fields(r5, acc2)
                        } else {
                            None
                        },
                        FieldEnd::Bad => None,
                    }
                },
            },
        }
    } else if starts_with(inp, "\"sdpMid\""@) {
        let r1 = inp.skip("\"sdpMid\""@.len() as int);
        match p_colon(r1) {
            None => None,
            Some(r2) => match p_opt_str(r2) {
                None => None,
                Some((v, r3)) => if acc.sdp_mid is Some {
                    None
                } else {
                    let acc2 = IceAcc {
                        candidate: acc.candidate,
                        sdp_mid: Some(v),
                        sdp_mline_index: acc.sdp_mline_index,
                        username_fragment: acc.username_fragment,
                    };
                    match p_field_end(r3) {
                        FieldEnd::Done(r) => Some((acc2, r)),
                        FieldEnd::More(r5) => if r5.len() < inp.len() {
                            p_ice_fields(r5, acc2)
                        } else {
                            None
                        },
                        FieldEnd::Bad => None,
                    }
                },
            },
        }
    } else if starts_with(inp, "\"sdpMLineIndex\""@) {
        let r1 = inp.skip("\"sdpMLineIndex\""@.len() as int);
        match p_colon(r1) {
            None => None,
            Some(r2) => match p_opt_num(r2) {
                None => None,
                Some((v, r3)) => if acc.sdp_mline_index is Some {
                    None
                } else {
                    let acc2 = IceAcc {
                        candidate: acc.candidate,
                        sdp_mid: acc.sdp_mid,
                        sdp_mline_index: Some(v),
                        username_fragment: acc.username_fragment,
                    };
                    match p_field_end(r3) {
                        FieldEnd::Done(r) => Some((acc2, r)),
                        FieldEnd::More(r5) => if r5.len() < inp.len() {
                            p_ice_fields(r5, acc2)
                        } else {
                            None
                        },
                        FieldEnd::Bad => None,
                    }
                },
            },
        }
    } else if starts_with(inp, "\"usernameFragment\""@) {
        let r1 = inp.skip("\"usernameFragment\""@.len() as int);
        match p_colon(r1) {
            None => None,
            Some(r2) => match p_opt_str(r2) {
                None => None,
                Some((v, r3)) => if acc.username_fragment is Some {
                    None
                } else {
                    let acc2 = IceAcc {
                        candidate: acc.candidate,
                        sdp_mid: acc.sdp_mid,
                        sdp_mline_index: acc.sdp_mline_index,
                        username_fragment: Some(v),
                    };
                    match p_field_end(r3) {
                        FieldEnd::Done(r) => Some((acc2, r)),
                        FieldEnd::More(r5) => if r5.len() < inp.len() {
                            p_ice_fields(r5, acc2)
                        } else {
                            None
                        },
                        FieldEnd::Bad => None,
                    }
                },
            },
        }
    } else {
        None
    }
}

/// The candidate an accumulator assembles: `candidate` is required,
/// the optional fields read as `None` whether absent or `null`.
pub open spec fn ice_of_acc(acc: IceAcc) -> Option<IceCandidateView> {
    match acc.candidate {
        None => None,
        Some(c) => Some(
            IceCandidateView {
                candidate: c,
                sdp_mid: match acc.sdp_mid {
                    Some(m) => m,
                    None => None,
                },
                sdp_mline_index: match acc.sdp_mline_index {
                    Some(x) => x,
                    None => None,
                },
                username_fragment: match acc.username_fragment {
                    Some(f) => f,
                    None => None,
                },
            },
        ),
    }
}

/// The parser for a whole ICE candidate frame. The candidate text is
/// required; the other fields may be `null` or missing; whitespace may
/// stand around every token.
pub open spec fn p_ice(inp: Seq<char>) -> Option<IceCandidateView> {
    let r0 = skip_ws(inp);
    if r0.len() == 0 || r0[0] != '{' {
        None
    } else {
        let r1 = skip_ws(r0.drop_first());
        match p_ice_fields(
            r1,
            IceAcc {
                candidate: None,
                sdp_mid: None,
                sdp_mline_index: None,
                username_fragment: None,
            },
        ) {
            None => None,
            Some((acc, r2)) => if skip_ws(r2).len() != 0 {
                None
            } else {
                ice_of_acc(acc)
            },
        }
    }
}

// ---------------------------------------------------------------------------
// Round-trip laws: decoding is a left inverse of encoding, so a frame
// survives the trip through the wire format unchanged.
// ---------------------------------------------------------------------------

/// A literal at the front of the input is found and consumed exactly.
proof fn lemma_consume_lit(lit: Seq<char>, rest: Seq<char>)
    ensures
        starts_with(lit + rest, lit),
        (lit + rest).skip(lit.len() as int) == rest,
{
    assert((lit + rest).take(lit.len() as int) =~= lit);
    assert((lit + rest).skip(lit.len() as int) =~= rest);
}

/// One differing position refutes a prefix.
proof fn lemma_not_starts_with(s: Seq<char>, p: Seq<char>, i: int)
    requires
        0 <= i < p.len(),
        i < s.len(),
        s[i] != p[i],
    ensures
        !starts_with(s, p),
{
    if starts_with(s, p) {
        assert(s.take(p.len() as int)[i] == s[i]);
    }
}

/// A string literal at the front of the input parses back to its body.
proof fn lemma_p_jstring_of(s: Seq<char>, rest: Seq<char>)
    ensures
        p_jstring(enc_str(s) + rest) == Some((s, rest)),
{
    let inp = enc_str(s) + rest;
    assert(inp[0] == '"');
    assert(inp.drop_first() =~= esc(s) + seq!['"'] + rest);
    lemma_p_string_of_esc(s, rest);
}

/// An optional string at the front of the input parses back.
proof fn lemma_p_opt_str_of(o: Option<Seq<char>>, rest: Seq<char>)
    ensures
        p_opt_str(enc_opt_str(o) + rest) == Some((o, rest)),
{
    reveal_strlit("null");
    match o {
        None => {
            let inp = "null"@ + rest;
            assert(inp.take("null"@.len() as int) =~= "null"@);
            assert(inp.skip("null"@.len() as int) =~= rest);
        },
        Some(s) => {
            let inp = enc_str(s) + rest;
            assert(inp[0] == '"');
            if starts_with(inp, "null"@) {
                assert(inp.take("null"@.len() as int)[0] == inp[0]);
                assert("null"@[0] == 'n');
            }
            assert(!starts_with(inp, "null"@));
            lemma_p_jstring_of(s, rest);
        },
    }
}

/// An optional number at the front of the input parses back, provided
/// the input does not continue with another digit.
proof fn lemma_p_opt_num_of(o: Option<u16>, rest: Seq<char>)
    requires
        rest.len() == 0 || !is_digit(rest[0]),
    ensures
        p_opt_num(enc_opt_num(o) + rest) == Some((o, rest)),
{
    reveal_strlit("null");
    match o {
        None => {
            let inp = "null"@ + rest;
            assert(inp.take("null"@.len() as int) =~= "null"@);
            assert(inp.skip("null"@.len() as int) =~= rest);
        },
        Some(n) => {
            let d = dec_of(n as int);
            let inp = d + rest;
            lemma_dec_of_val(n as int);
            assert(is_digit(d[0]));
            assert(inp[0] == d[0]);
            if starts_with(inp, "null"@) {
                assert(inp.take("null"@.len() as int)[0] == inp[0]);
                assert("null"@[0] == 'n');
                assert(!is_digit('n'));
            }
            assert(!starts_with(inp, "null"@));
            lemma_split_digits_of(d, rest);
            assert(split_digits(inp) == (d, rest));
            assert(num_val(d) == n as int);
            assert(p_num(inp) == Some((n, rest)));
        },
    }
}

/// The wire word of each session description type names that type.
proof fn lemma_kind_word_roundtrip(k: SdpKind)
    ensures
        kind_of_word(kind_word(k)) == Some(k),
{
    reveal_strlit("offer");
    reveal_strlit("answer");
    reveal_strlit("pranswer");
    reveal_strlit("rollback");
    match k {
        SdpKind::Offer => {},
        SdpKind::Answer => {
            assert("answer"@.len() != "offer"@.len());
        },
        SdpKind::Pranswer => {
            assert("pranswer"@.len() != "offer"@.len());
            assert("pranswer"@.len() != "answer"@.len());
        },
        SdpKind::Rollback => {
            assert("rollback"@.len() != "offer"@.len());
            assert("rollback"@.len() != "answer"@.len());
            assert("rollback"@[0] != "pranswer"@[0]);
            assert("rollback"@ != "pranswer"@);
        },
    }
}

/// Decoding a session description is the identity on what encoding
/// produced: the wire format loses nothing.
#[verifier::rlimit(100)]
#[verifier::spinoff_prover]
pub proof fn lemma_sdp_roundtrip(d: SessionDescriptionView)
    ensures
        p_sdp(enc_sdp(d)) == Some(d),
{
    reveal_strlit("\"type\"");
    reveal_strlit("\"sdp\"");
    let kt = "\"type\""@;
    let ks = "\"sdp\""@;
    let w = enc_str(kind_word(d.kind));
    let s = enc_str(d.sdp);
    let t8 = s + seq!['}'];
    let t7 = seq![':'] + t8;
    let t6 = ks + t7;
    let t5 = seq![','] + t6;
    let t4 = w + t5;
    let t3 = seq![':'] + t4;
    let t2 = kt + t3;
    let inp = enc_sdp(d);
    assert(inp =~= seq!['{'] + t2);

    assert(inp[0] == '{' && !is_ws('{'));
    assert(skip_ws(inp) == inp);
    assert(inp.drop_first() =~= t2);
    assert(kt[0] == '"');
    assert(t2[0] == '"' && !is_ws('"'));
    assert(skip_ws(t2) == t2);

    // first field: "type"
    lemma_consume_lit(kt, t3);
    assert(t3[0] == ':' && !is_ws(':'));
    assert(skip_ws(t3) == t3);
    assert(t3.drop_first() =~= t4);
    assert(w[0] == '"');
    assert(t4[0] == '"');
    assert(skip_ws(t4) == t4);
    assert(p_colon(t3) == Some(t4));
    lemma_p_jstring_of(kind_word(d.kind), t5);
    assert(p_jstring(t4) == Some((kind_word(d.kind), t5)));
    lemma_kind_word_roundtrip(d.kind);
    assert(t5[0] == ',' && !is_ws(','));
    assert(skip_ws(t5) == t5);
    assert(t5.drop_first() =~= t6);
    assert(ks[0] == '"');
    assert(t6[0] == '"');
    assert(skip_ws(t6) == t6);
    assert(p_field_end(t5) == FieldEnd::More(t6));
    assert(t6.len() < t2.len());

    // second field: "sdp"; it is not "type"
    assert(t6[1] == ks[1]);
    assert(ks[1] == 's' && kt[1] == 't');
    lemma_not_starts_with(t6, kt, 1);
    lemma_consume_lit(ks, t7);
    assert(t7[0] == ':');
    assert(skip_ws(t7) == t7);
    assert(t7.drop_first() =~= t8);
    assert(s[0] == '"');
    assert(t8[0] == '"');
    assert(skip_ws(t8) == t8);
    assert(p_colon(t7) == Some(t8));
    lemma_p_jstring_of(d.sdp, seq!['}']);
    assert(p_jstring(t8) == Some((d.sdp, seq!['}'])));
    assert((seq!['}'])[0] == '}' && !is_ws('}'));
    assert(skip_ws(seq!['}']) == seq!['}']);
    assert((seq!['}']).drop_first() =~= Seq::<char>::empty());
    assert(p_field_end(seq!['}']) == FieldEnd::Done(Seq::<char>::empty()));

    let acc1 = SdpAcc { kind: Some(d.kind), sdp: None };
    let acc2 = SdpAcc { kind: Some(d.kind), sdp: Some(d.sdp) };
    assert(p_sdp_fields(t6, acc1) == Some((acc2, Seq::<char>::empty())));
    assert(p_sdp_fields(t2, SdpAcc { kind: None, sdp: None }) == Some(
        (acc2, Seq::<char>::empty()),
    ));
    assert(skip_ws(Seq::<char>::empty()).len() == 0);
    assert(p_sdp(inp) == Some(SessionDescriptionView { kind: d.kind, sdp: d.sdp }));
    assert(SessionDescriptionView { kind: d.kind, sdp: d.sdp } == d);
}

/// The accumulator holding every field of the candidate.
pub open spec fn ice_full_acc(v: IceCandidateView) -> IceAcc {
    IceAcc {
        candidate: Some(v.candidate),
        sdp_mid: Some(v.sdp_mid),
        sdp_mline_index: Some(v.sdp_mline_index),
        username_fragment: Some(v.username_fragment),
    }
}

/// The canonical tail from the `usernameFragment` key parses to the
/// full accumulator.
proof fn lemma_ice_roundtrip_frag(v: IceCandidateView)
    ensures
        p_ice_fields(
            "\"usernameFragment\""@ + (seq![':'] + (enc_opt_str(v.username_fragment)
                + seq!['}'])),
            IceAcc {
                candidate: Some(v.candidate),
                sdp_mid: Some(v.sdp_mid),
                sdp_mline_index: Some(v.sdp_mline_index),
                username_fragment: None,
            },
        ) == Some((ice_full_acc(v), Seq::<char>::empty())),
{
    reveal_strlit("\"candidate\"");
    reveal_strlit("\"sdpMid\"");
    reveal_strlit("\"sdpMLineIndex\"");
    reveal_strlit("\"usernameFragment\"");
    reveal_strlit("null");
    let kf = "\"usernameFragment\""@;
    let vf = enc_opt_str(v.username_fragment);
    let m16 = vf + seq!['}'];
    let m15 = seq![':'] + m16;
    let m14 = kf + m15;
    assert(vf.len() > 0 && (vf[0] == '"' || vf[0] == 'n')) by {
        match v.username_fragment {
            Some(f) => {
                assert(vf[0] == '"');
            },
            None => {
                assert(vf[0] == 'n');
            },
        }
    }
    assert(m14[1] == kf[1]);
    assert(kf[1] == 'u' && "\"candidate\""@[1] == 'c' && "\"sdpMid\""@[1] == 's'
        && "\"sdpMLineIndex\""@[1] == 's');
    lemma_not_starts_with(m14, "\"candidate\""@, 1);
    lemma_not_starts_with(m14, "\"sdpMid\""@, 1);
    lemma_not_starts_with(m14, "\"sdpMLineIndex\""@, 1);
    lemma_consume_lit(kf, m15);
    assert(m15[0] == ':' && !is_ws(':'));
    assert(skip_ws(m15) == m15);
    assert(m15.drop_first() =~= m16);
    assert(m16[0] == vf[0]);
    assert(skip_ws(m16) == m16);
    assert(p_colon(m15) == Some(m16));
    lemma_p_opt_str_of(v.username_fragment, seq!['}']);
    assert(p_opt_str(m16) == Some((v.username_fragment, seq!['}'])));
    assert((seq!['}'])[0] == '}' && !is_ws('}'));
    assert(skip_ws(seq!['}']) == seq!['}']);
    assert((seq!['}']).drop_first() =~= Seq::<char>::empty());
    assert(p_field_end(seq!['}']) == FieldEnd::Done(Seq::<char>::empty()));
}

/// The canonical tail from the `sdpMLineIndex` key parses to the full
/// accumulator.
proof fn lemma_ice_roundtrip_idx(v: IceCandidateView)
    ensures
        p_ice_fields(
            "\"sdpMLineIndex\""@ + (seq![':'] + (enc_opt_num(v.sdp_mline_index) + (seq![',']
                + ("\"usernameFragment\""@ + (seq![':'] + (enc_opt_str(v.username_fragment)
                + seq!['}'])))))),
            IceAcc {
                candidate: Some(v.candidate),
                sdp_mid: Some(v.sdp_mid),
                sdp_mline_index: None,
                username_fragment: None,
            },
        ) == Some((ice_full_acc(v), Seq::<char>::empty())),
{
    reveal_strlit("\"candidate\"");
    reveal_strlit("\"sdpMid\"");
    reveal_strlit("\"sdpMLineIndex\"");
    reveal_strlit("\"usernameFragment\"");
    reveal_strlit("null");
    let ki = "\"sdpMLineIndex\""@;
    let kf = "\"usernameFragment\""@;
    let vi = enc_opt_num(v.sdp_mline_index);
    let vf = enc_opt_str(v.username_fragment);
    let m16 = vf + seq!['}'];
    let m15 = seq![':'] + m16;
    let m14 = kf + m15;
    let m13 = seq![','] + m14;
    let m12 = vi + m13;
    let m11 = seq![':'] + m12;
    let m10 = ki + m11;
    assert(vi.len() > 0 && !is_ws(vi[0])) by {
        match v.sdp_mline_index {
            Some(n) => {
                lemma_dec_of_val(n as int);
                assert(is_digit(vi[0]));
            },
            None => {
                assert(vi[0] == 'n');
            },
        }
    }
    assert(m10[1] == ki[1]);
    assert(ki[1] == 's' && "\"candidate\""@[1] == 'c');
    lemma_not_starts_with(m10, "\"candidate\""@, 1);
    assert(m10[5] == ki[5]);
    assert(ki[5] == 'L' && "\"sdpMid\""@[5] == 'i');
    lemma_not_starts_with(m10, "\"sdpMid\""@, 5);
    lemma_consume_lit(ki, m11);
    assert(m11[0] == ':' && !is_ws(':'));
    assert(skip_ws(m11) == m11);
    assert(m11.drop_first() =~= m12);
    assert(m12[0] == vi[0]);
    assert(skip_ws(m12) == m12);
    assert(p_colon(m11) == Some(m12));
    assert(m13[0] == ',' && !is_digit(',') && !is_ws(','));
    lemma_p_opt_num_of(v.sdp_mline_index, m13);
    assert(p_opt_num(m12) == Some((v.sdp_mline_index, m13)));
    assert(skip_ws(m13) == m13);
    assert(m13.drop_first() =~= m14);
    assert(kf[0] == '"' && !is_ws('"'));
    assert(m14[0] == '"');
    assert(skip_ws(m14) == m14);
    assert(p_field_end(m13) == FieldEnd::More(m14));
    assert(m14.len() < m10.len());
    lemma_ice_roundtrip_frag(v);
}

/// The canonical tail from the `sdpMid` key parses to the full
/// accumulator.
proof fn lemma_ice_roundtrip_mid(v: IceCandidateView)
    ensures
        p_ice_fields(
            "\"sdpMid\""@ + (seq![':'] + (enc_opt_str(v.sdp_mid) + (seq![',']
                + ("\"sdpMLineIndex\""@ + (seq![':'] + (enc_opt_num(v.sdp_mline_index)
                + (seq![','] + ("\"usernameFragment\""@ + (seq![':']
                + (enc_opt_str(v.username_fragment) + seq!['}'])))))))))),
            IceAcc {
                candidate: Some(v.candidate),
                sdp_mid: None,
                sdp_mline_index: None,
                username_fragment: None,
            },
        ) == Some((ice_full_acc(v), Seq::<char>::empty())),
{
    reveal_strlit("\"candidate\"");
    reveal_strlit("\"sdpMid\"");
    reveal_strlit("\"sdpMLineIndex\"");
    reveal_strlit("\"usernameFragment\"");
    reveal_strlit("null");
    let km = "\"sdpMid\""@;
    let ki = "\"sdpMLineIndex\""@;
    let kf = "\"usernameFragment\""@;
    let vm = enc_opt_str(v.sdp_mid);
    let vi = enc_opt_num(v.sdp_mline_index);
    let vf = enc_opt_str(v.username_fragment);
    let m16 = vf + seq!['}'];
    let m15 = seq![':'] + m16;
    let m14 = kf + m15;
    let m13 = seq![','] + m14;
    let m12 = vi + m13;
    let m11 = seq![':'] + m12;
    let m10 = ki + m11;
    let m9 = seq![','] + m10;
    let m8 = vm + m9;
    let m7 = seq![':'] + m8;
    let m6 = km + m7;
    assert(vm.len() > 0 && (vm[0] == '"' || vm[0] == 'n')) by {
        match v.sdp_mid {
            Some(m) => {
                assert(vm[0] == '"');
            },
            None => {
                assert(vm[0] == 'n');
            },
        }
    }
    assert(m6[1] == km[1]);
    assert(km[1] == 's' && "\"candidate\""@[1] == 'c');
    lemma_not_starts_with(m6, "\"candidate\""@, 1);
    lemma_consume_lit(km, m7);
    assert(m7[0] == ':' && !is_ws(':'));
    assert(skip_ws(m7) == m7);
    assert(m7.drop_first() =~= m8);
    assert(m8[0] == vm[0]);
    assert(skip_ws(m8) == m8);
    assert(p_colon(m7) == Some(m8));
    lemma_p_opt_str_of(v.sdp_mid, m9);
    assert(p_opt_str(m8) == Some((v.sdp_mid, m9)));
    assert(m9[0] == ',' && !is_ws(','));
    assert(skip_ws(m9) == m9);
    assert(m9.drop_first() =~= m10);
    assert(ki[0] == '"' && !is_ws('"'));
    assert(m10[0] == '"');
    assert(skip_ws(m10) == m10);
    assert(p_field_end(m9) == FieldEnd::More(m10));
    assert(m10.len() < m6.len());
    lemma_ice_roundtrip_idx(v);
}

/// Decoding an ICE candidate is the identity on what encoding produced.
#[verifier::rlimit(100)]
#[verifier::spinoff_prover]
pub proof fn lemma_ice_roundtrip(v: IceCandidateView)
    ensures
        p_ice(enc_ice(v)) == Some(v),
{
    reveal_strlit("\"candidate\"");
    reveal_strlit("\"sdpMid\"");
    reveal_strlit("\"sdpMLineIndex\"");
    reveal_strlit("\"usernameFragment\"");
    let kc = "\"candidate\""@;
    let km = "\"sdpMid\""@;
    let ki = "\"sdpMLineIndex\""@;
    let kf = "\"usernameFragment\""@;
    let vc = enc_str(v.candidate);
    let vm = enc_opt_str(v.sdp_mid);
    let vi = enc_opt_num(v.sdp_mline_index);
    let vf = enc_opt_str(v.username_fragment);
    let m16 = vf + seq!['}'];
    let m15 = seq![':'] + m16;
    let m14 = kf + m15;
    let m13 = seq![','] + m14;
    let m12 = vi + m13;
    let m11 = seq![':'] + m12;
    let m10 = ki + m11;
    let m9 = seq![','] + m10;
    let m8 = vm + m9;
    let m7 = seq![':'] + m8;
    let m6 = km + m7;
    let m5 = seq![','] + m6;
    let m4 = vc + m5;
    let m3 = seq![':'] + m4;
    let m2 = kc + m3;
    let inp = enc_ice(v);
    assert(inp =~= seq!['{'] + m2);

    assert(inp[0] == '{' && !is_ws('{'));
    assert(skip_ws(inp) == inp);
    assert(inp.drop_first() =~= m2);
    assert(kc[0] == '"');
    assert(m2[0] == '"' && !is_ws('"'));
    assert(skip_ws(m2) == m2);

    // first field: "candidate"
    lemma_consume_lit(kc, m3);
    assert(m3[0] == ':' && !is_ws(':'));
    assert(skip_ws(m3) == m3);
    assert(m3.drop_first() =~= m4);
    assert(vc[0] == '"');
    assert(m4[0] == '"');
    assert(skip_ws(m4) == m4);
    assert(p_colon(m3) == Some(m4));
    lemma_p_jstring_of(v.candidate, m5);
    assert(p_jstring(m4) == Some((v.candidate, m5)));
    assert(m5[0] == ',' && !is_ws(','));
    assert(skip_ws(m5) == m5);
    assert(m5.drop_first() =~= m6);
    assert(km[0] == '"');
    assert(m6[0] == '"');
    assert(skip_ws(m6) == m6);
    assert(p_field_end(m5) == FieldEnd::More(m6));
    assert(m6.len() < m2.len());

    // the remaining three fields
    lemma_ice_roundtrip_mid(v);
    let acc0 = IceAcc {
        candidate: None,
        sdp_mid: None,
        sdp_mline_index: None,
        username_fragment: None,
    };
    assert(p_ice_fields(m2, acc0) == Some((ice_full_acc(v), Seq::<char>::empty())));
    assert(skip_ws(Seq::<char>::empty()).len() == 0);
    assert(ice_of_acc(ice_full_acc(v)) == Some(
        IceCandidateView {
            candidate: v.candidate,
            sdp_mid: v.sdp_mid,
            sdp_mline_index: v.sdp_mline_index,
            username_fragment: v.username_fragment,
        },
    ));
    assert(IceCandidateView {
        candidate: v.candidate,
        sdp_mid: v.sdp_mid,
        sdp_mline_index: v.sdp_mline_index,
        username_fragment: v.username_fragment,
    } == v);
}

// ---------------------------------------------------------------------------
// Executable encoding
// ---------------------------------------------------------------------------

/// Append the characters of a literal to the output.
fn push_lit(out: &mut Vec<char>, s: &str)
    ensures
        final(out)@ == old(out)@ + s@,
{
    let mut tmp = str_to_chars(s);
    out.append(&mut tmp);
}

/// Append a JSON string literal: quote, escaped body, quote.
fn push_quoted(out: &mut Vec<char>, s: &Vec<char>)
    ensures
        final(out)@ == old(out)@ + enc_str(s@),
{
    let ghost out0 = old(out)@;
    out.push('"');
    push_escaped(out, s);
    out.push('"');
    proof {
        assert(out@ =~= out0 + enc_str(s@));
    }
}

/// Append an optional string: `null` when absent.
fn push_opt_quoted(out: &mut Vec<char>, o: &Option<Vec<char>>)
    ensures
        final(out)@ == old(out)@ + enc_opt_str(opt_chars_view(*o)),
{
    match o {
        Some(s) => push_quoted(out, s),
        None => push_lit(out, "null"),
    }
}

/// Append an optional number: `null` when absent.
fn push_opt_number(out: &mut Vec<char>, o: &Option<u16>)
    ensures
        final(out)@ == old(out)@ + enc_opt_num(*o),
{
    match o {
        Some(n) => push_number(out, *n),
        None => push_lit(out, "null"),
    }
}

/// The word naming a session description type, as a vector.
fn kind_word_chars(k: SdpKind) -> (v: Vec<char>)
    ensures
        v@ == kind_word(k),
{
    match k {
        SdpKind::Offer => str_to_chars("offer"),
        SdpKind::Answer => str_to_chars("answer"),
        SdpKind::Pranswer => str_to_chars("pranswer"),
        SdpKind::Rollback => str_to_chars("rollback"),
    }
}

/// Encode a session description into its canonical wire text.
pub fn encode_session_description(d: &SessionDescription) -> (out: Vec<char>)
    ensures
        out@ == enc_sdp(d@),
{
    let mut out: Vec<char> = Vec::new();
    out.push('{');
    push_lit(&mut out, "\"type\"");
    out.push(':');
    let w = kind_word_chars(d.kind);
    push_quoted(&mut out, &w);
    out.push(',');
    push_lit(&mut out, "\"sdp\"");
    out.push(':');
    push_quoted(&mut out, &d.sdp);
    out.push('}');
    proof {
        assert(out@ =~= enc_sdp(d@));
    }
    out
}

/// Encode an ICE candidate into its canonical wire text.
pub fn encode_ice_candidate(c: &IceCandidate) -> (out: Vec<char>)
    ensures
        out@ == enc_ice(c@),
{
    let mut out: Vec<char> = Vec::new();
    out.push('{');
    push_lit(&mut out, "\"candidate\"");
    out.push(':');
    push_quoted(&mut out, &c.candidate);
    out.push(',');
    push_lit(&mut out, "\"sdpMid\"");
    out.push(':');
    push_opt_quoted(&mut out, &c.sdp_mid);
    out.push(',');
    push_lit(&mut out, "\"sdpMLineIndex\"");
    out.push(':');
    push_opt_number(&mut out, &c.sdp_mline_index);
    out.push(',');
    push_lit(&mut out, "\"usernameFragment\"");
    out.push(':');
    push_opt_quoted(&mut out, &c.username_fragment);
    out.push('}');
    proof {
        assert(out@ =~= enc_ice(c@));
    }
    out
}

// ---------------------------------------------------------------------------
// Executable decoding
// ---------------------------------------------------------------------------

/// Move past leading whitespace, from `i` to the first solid character.
fn skip_ws_at(inp: &Vec<char>, i: usize) -> (j: usize)
    requires
        i <= inp.len(),
    ensures
        i <= j <= inp.len(),
        inp@.skip(j as int) == skip_ws(inp@.skip(i as int)),
{
    let mut j = i;
    while j < inp.len() && (inp[j] == ' ' || inp[j] == '\t' || inp[j] == '\n' || inp[j] == '\r')
        invariant
            i <= j <= inp.len(),
            skip_ws(inp@.skip(i as int)) == skip_ws(inp@.skip(j as int)),
        decreases inp.len() - j,
    {
        proof {
            assert(inp@.skip(j as int)[0] == inp@[j as int]);
            assert(inp@.skip(j as int).drop_first() =~= inp@.skip(j as int + 1));
        }
        j += 1;
    }
    proof {
        if j < inp.len() {
            assert(inp@.skip(j as int)[0] == inp@[j as int]);
        }
        assert(skip_ws(inp@.skip(j as int)) == inp@.skip(j as int));
    }
    j
}

/// Consume whitespace, a colon, and whitespace, from `i`.
fn parse_colon_at(inp: &Vec<char>, i: usize) -> (r: Option<usize>)
    requires
        i <= inp.len(),
    ensures
        match r {
            Some(j) => {
                &&& i < j <= inp.len()
                &&& p_colon(inp@.skip(i as int)) == Some(inp@.skip(j as int))
            },
            None => p_colon(inp@.skip(i as int)) is None,
        },
{
    let j1 = skip_ws_at(inp, i);
    if j1 == inp.len() || inp[j1] != ':' {
        proof {
            if j1 < inp.len() {
                assert(inp@.skip(j1 as int)[0] == inp@[j1 as int]);
            }
        }
        return None;
    }
    proof {
        assert(inp@.skip(j1 as int)[0] == inp@[j1 as int]);
        assert(inp@.skip(j1 as int).drop_first() =~= inp@.skip(j1 as int + 1));
    }
    let j2 = skip_ws_at(inp, j1 + 1);
    Some(j2)
}

/// What follows a field, with positions instead of suffixes.
enum FieldEndAt {
    MoreAt(usize),
    DoneAt(usize),
    BadEnd,
}

/// Consume what follows a field's value, from `i`.
fn parse_field_end(inp: &Vec<char>, i: usize) -> (r: FieldEndAt)
    requires
        i <= inp.len(),
    ensures
        match r {
            FieldEndAt::MoreAt(j) => {
                &&& i < j <= inp.len()
                &&& p_field_end(inp@.skip(i as int)) == FieldEnd::More(inp@.skip(j as int))
            },
            FieldEndAt::DoneAt(j) => {
                &&& i < j <= inp.len()
                &&& p_field_end(inp@.skip(i as int)) == FieldEnd::Done(inp@.skip(j as int))
            },
            FieldEndAt::BadEnd => p_field_end(inp@.skip(i as int)) == FieldEnd::Bad,
        },
{
    let j1 = skip_ws_at(inp, i);
    if j1 == inp.len() {
        return FieldEndAt::BadEnd;
    }
    let c = inp[j1];
    proof {
        assert(inp@.skip(j1 as int)[0] == inp@[j1 as int]);
        assert(inp@.skip(j1 as int).drop_first() =~= inp@.skip(j1 as int + 1));
    }
    if c == ',' {
        let j2 = skip_ws_at(inp, j1 + 1);
        FieldEndAt::MoreAt(j2)
    } else if c == '}' {
        FieldEndAt::DoneAt(j1 + 1)
    } else {
        FieldEndAt::BadEnd
    }
}

/// The session description type a word vector names, if any.
fn kind_of_word_exec(w: &Vec<char>) -> (r: Option<SdpKind>)
    ensures
        r == kind_of_word(w@),
{
    if chars_eq(w, &str_to_chars("offer")) {
        Some(SdpKind::Offer)
    } else if chars_eq(w, &str_to_chars("answer")) {
        Some(SdpKind::Answer)
    } else if chars_eq(w, &str_to_chars("pranswer")) {
        Some(SdpKind::Pranswer)
    } else if chars_eq(w, &str_to_chars("rollback")) {
        Some(SdpKind::Rollback)
    } else {
        None
    }
}

/// Parse a JSON string literal at `i`, quotes included.
fn parse_jstring_at(inp: &Vec<char>, i: usize) -> (r: Option<(Vec<char>, usize)>)
    requires
        i <= inp.len(),
    ensures
        match r {
            Some(sj) => {
                &&& i < sj.1 <= inp.len()
                &&& p_jstring(inp@.skip(i as int)) == Some((sj.0@, inp@.skip(sj.1 as int)))
            },
            None => p_jstring(inp@.skip(i as int)) is None,
        },
{
    if i == inp.len() || inp[i] != '"' {
        proof {
            if i < inp.len() {
                assert(inp@.skip(i as int)[0] == inp@[i as int]);
            }
        }
        return None;
    }
    proof {
        assert(inp@.skip(i as int)[0] == inp@[i as int]);
        assert(inp@.skip(i as int).drop_first() =~= inp@.skip(i as int + 1));
    }
    match parse_string_at(inp, i + 1) {
        Some((s, j)) => Some((s, j)),
        None => None,
    }
}

/// Parse an optional string at `i`: `null` or a quoted string.
fn parse_opt_string_at(inp: &Vec<char>, i: usize) -> (r: Option<(Option<Vec<char>>, usize)>)
    requires
        i <= inp.len(),
    ensures
        match r {
            Some(oj) => {
                &&& i <= oj.1 <= inp.len()
                &&& p_opt_str(inp@.skip(i as int)) == Some(
                    (opt_chars_view(oj.0), inp@.skip(oj.1 as int)),
                )
            },
            None => p_opt_str(inp@.skip(i as int)) is None,
        },
{
    let null_w = str_to_chars("null");
    if matches_at(inp, i, &null_w) {
        let j = i + null_w.len();
        proof {
            assert(inp@.skip(i as int).skip("null"@.len() as int) =~= inp@.skip(j as int));
        }
        return Some((None, j));
    }
    match parse_jstring_at(inp, i) {
        Some((s, j)) => Some((Some(s), j)),
        None => None,
    }
}

/// Parse an optional number at `i`: `null` or a run of digits.
fn parse_opt_number_at(inp: &Vec<char>, i: usize) -> (r: Option<(Option<u16>, usize)>)
    requires
        i <= inp.len(),
    ensures
        match r {
            Some(oj) => {
                &&& i <= oj.1 <= inp.len()
                &&& p_opt_num(inp@.skip(i as int)) == Some((oj.0, inp@.skip(oj.1 as int)))
            },
            None => p_opt_num(inp@.skip(i as int)) is None,
        },
{
    let null_w = str_to_chars("null");
    if matches_at(inp, i, &null_w) {
        let j = i + null_w.len();
        proof {
            assert(inp@.skip(i as int).skip("null"@.len() as int) =~= inp@.skip(j as int));
        }
        return Some((None, j));
    }
    match parse_number_at(inp, i) {
        Some((n, j)) => Some((Some(n), j)),
        None => None,
    }
}

/// The accumulator a pair of optional exec fields stands for.
pub open spec fn sdp_acc_of(kind: Option<SdpKind>, sdp: Option<Vec<char>>) -> SdpAcc {
    SdpAcc { kind, sdp: opt_chars_view(sdp) }
}

/// Parse session description fields from a key's opening quote at `i`.
fn parse_sdp_fields(
    inp: &Vec<char>,
    i: usize,
    kind: Option<SdpKind>,
    sdp: Option<Vec<char>>,
) -> (r: Option<(Option<SdpKind>, Option<Vec<char>>, usize)>)
    requires
        i <= inp.len(),
    ensures
        match r {
            Some(t) => {
                &&& t.2 <= inp.len()
                &&& p_sdp_fields(inp@.skip(i as int), sdp_acc_of(kind, sdp)) == Some(
                    (sdp_acc_of(t.0, t.1), inp@.skip(t.2 as int)),
                )
            },
            None => p_sdp_fields(inp@.skip(i as int), sdp_acc_of(kind, sdp)) is None,
        },
    decreases inp.len() - i,
{
    let ghost here = inp@.skip(i as int);
    let key_type = str_to_chars("\"type\"");
    let key_sdp = str_to_chars("\"sdp\"");
    if matches_at(inp, i, &key_type) {
        let j1 = i + key_type.len();
        proof {
            assert(here.skip("\"type\""@.len() as int) =~= inp@.skip(j1 as int));
        }
        let j2 = match parse_colon_at(inp, j1) {
            Some(j) => j,
            None => {
                return None;
            },
        };
        let (w, j3) = match parse_jstring_at(inp, j2) {
            Some(x) => x,
            None => {
                return None;
            },
        };
        let k = match kind_of_word_exec(&w) {
            Some(k) => k,
            None => {
                return None;
            },
        };
        if kind.is_some() {
            return None;
        }
        match parse_field_end(inp, j3) {
            FieldEndAt::DoneAt(j4) => Some((Some(k), sdp, j4)),
            FieldEndAt::MoreAt(j5) => {
                proof {
                    assert(inp@.skip(j5 as int).len() < here.len());
                }
                parse_sdp_fields(inp, j5, Some(k), sdp)
            },
            FieldEndAt::BadEnd => None,
        }
    } else if matches_at(inp, i, &key_sdp) {
        let j1 = i + key_sdp.len();
        proof {
            assert(here.skip("\"sdp\""@.len() as int) =~= inp@.skip(j1 as int));
        }
        let j2 = match parse_colon_at(inp, j1) {
            Some(j) => j,
            None => {
                return None;
            },
        };
        let (s, j3) = match parse_jstring_at(inp, j2) {
            Some(x) => x,
            None => {
                return None;
            },
        };
        if sdp.is_some() {
            return None;
        }
        match parse_field_end(inp, j3) {
            FieldEndAt::DoneAt(j4) => Some((kind, Some(s), j4)),
            FieldEndAt::MoreAt(j5) => {
                proof {
                    assert(inp@.skip(j5 as int).len() < here.len());
                }
                parse_sdp_fields(inp, j5, kind, Some(s))
            },
            FieldEndAt::BadEnd => None,
        }
    } else {
        None
    }
}

/// Decode a session description from its wire text. Exactly the frames
/// the decoder's grammar admits decode; everything else is rejected.
pub fn decode_session_description(inp: &Vec<char>) -> (r: Option<SessionDescription>)
    ensures
        match r {
            Some(d) => p_sdp(inp@) == Some(d@),
            None => p_sdp(inp@) is None,
        },
{
    proof {
        assert(inp@.skip(0) =~= inp@);
    }
    let j0 = skip_ws_at(inp, 0);
    if j0 == inp.len() || inp[j0] != '{' {
        proof {
            if j0 < inp.len() {
                assert(inp@.skip(j0 as int)[0] == inp@[j0 as int]);
            }
        }
        return None;
    }
    proof {
        assert(inp@.skip(j0 as int)[0] == inp@[j0 as int]);
        assert(inp@.skip(j0 as int).drop_first() =~= inp@.skip(j0 as int + 1));
    }
    let j1 = skip_ws_at(inp, j0 + 1);
    let (kind_o, sdp_o, j2) = match parse_sdp_fields(inp, j1, None, None) {
        Some(t) => t,
        None => {
            return None;
        },
    };
    let j3 = skip_ws_at(inp, j2);
    if j3 != inp.len() {
        proof {
            assert(inp@.skip(j3 as int).len() > 0);
        }
        return None;
    }
    proof {
        assert(inp@.skip(j3 as int).len() == 0);
    }
    match (kind_o, sdp_o) {
        (Some(k), Some(s)) => {
            let d = SessionDescription { kind: k, sdp: s };
            proof {
                assert(p_sdp(inp@) == Some(d@));
            }
            Some(d)
        },
        _ => None,
    }
}

/// The accumulator four optional exec fields stand for.
pub open spec fn ice_acc_of(
    candidate: Option<Vec<char>>,
    sdp_mid: Option<Option<Vec<char>>>,
    sdp_mline_index: Option<Option<u16>>,
    username_fragment: Option<Option<Vec<char>>>,
) -> IceAcc {
    IceAcc {
        candidate: opt_chars_view(candidate),
        sdp_mid: match sdp_mid {
            Some(m) => Some(opt_chars_view(m)),
            None => None,
        },
        sdp_mline_index,
        username_fragment: match username_fragment {
            Some(f) => Some(opt_chars_view(f)),
            None => None,
        },
    }
}

/// Parse ICE candidate fields from a key's opening quote at `i`.
#[verifier::rlimit(100)]
#[verifier::spinoff_prover]
fn parse_ice_fields(
    inp: &Vec<char>,
    i: usize,
    candidate: Option<Vec<char>>,
    sdp_mid: Option<Option<Vec<char>>>,
    sdp_mline_index: Option<Option<u16>>,
    username_fragment: Option<Option<Vec<char>>>,
) -> (r: Option<
    (
        Option<Vec<char>>,
        Option<Option<Vec<char>>>,
        Option<Option<u16>>,
        Option<Option<Vec<char>>>,
        usize,
    ),
>)
    requires
        i <= inp.len(),
    ensures
        match r {
            Some(t) => {
                &&& t.4 <= inp.len()
                &&& p_ice_fields(
                    inp@.skip(i as int),
                    ice_acc_of(candidate, sdp_mid, sdp_mline_index, username_fragment),
                ) == Some((ice_acc_of(t.0, t.1, t.2, t.3), inp@.skip(t.4 as int)))
            },
            None => p_ice_fields(
                inp@.skip(i as int),
                ice_acc_of(candidate, sdp_mid, sdp_mline_index, username_fragment),
            ) is None,
        },
    decreases inp.len() - i,
{
    let ghost here = inp@.skip(i as int);
    let key_cand = str_to_chars("\"candidate\"");
    let key_mid = str_to_chars("\"sdpMid\"");
    let key_idx = str_to_chars("\"sdpMLineIndex\"");
    let key_frag = str_to_chars("\"usernameFragment\"");
    if matches_at(inp, i, &key_cand) {
        let j1 = i + key_cand.len();
        proof {
            assert(here.skip("\"candidate\""@.len() as int) =~= inp@.skip(j1 as int));
        }
        let j2 = match parse_colon_at(inp, j1) {
            Some(j) => j,
            None => {
                return None;
            },
        };
        let (v, j3) = match parse_jstring_at(inp, j2) {
            Some(x) => x,
            None => {
                return None;
            },
        };
        if candidate.is_some() {
            return None;
        }
        match parse_field_end(inp, j3) {
            FieldEndAt::DoneAt(j4) => Some(
                (Some(v), sdp_mid, sdp_mline_index, username_fragment, j4),
            ),
            FieldEndAt::MoreAt(j5) => {
                proof {
                    assert(inp@.skip(j5 as int).len() < here.len());
                }
                parse_ice_fields(inp, j5, Some(v), sdp_mid, sdp_mline_index, username_fragment)
            },
            FieldEndAt::BadEnd => None,
        }
    } else if matches_at(inp, i, &key_mid) {
        let j1 = i + key_mid.len();
        proof {
            assert(here.skip("\"sdpMid\""@.len() as int) =~= inp@.skip(j1 as int));
        }
        let j2 = match parse_colon_at(inp, j1) {
            Some(j) => j,
            None => {
                return None;
            },
        };
        let (v, j3) = match parse_opt_string_at(inp, j2) {
            Some(x) => x,
            None => {
                return None;
            },
        };
        if sdp_mid.is_some() {
            return None;
        }
        match parse_field_end(inp, j3) {
            FieldEndAt::DoneAt(j4) => Some(
                (candidate, Some(v), sdp_mline_index, username_fragment, j4),
            ),
            FieldEndAt::MoreAt(j5) => {
                proof {
                    assert(inp@.skip(j5 as int).len() < here.len());
                }
                parse_ice_fields(inp, j5, candidate, Some(v), sdp_mline_index, username_fragment)
            },
            FieldEndAt::BadEnd => None,
        }
    } else if matches_at(inp, i, &key_idx) {
        let j1 = i + key_idx.len();
        proof {
            assert(here.skip("\"sdpMLineIndex\""@.len() as int) =~= inp@.skip(j1 as int));
        }
        let j2 = match parse_colon_at(inp, j1) {
            Some(j) => j,
            None => {
                return None;
            },
        };
        let (v, j3) = match parse_opt_number_at(inp, j2) {
            Some(x) => x,
            None => {
                return None;
            },
        };
        if sdp_mline_index.is_some() {
            return None;
        }
        match parse_field_end(inp, j3) {
            FieldEndAt::DoneAt(j4) => Some((candidate, sdp_mid, Some(v), username_fragment, j4)),
            FieldEndAt::MoreAt(j5) => {
                proof {
                    assert(inp@.skip(j5 as int).len() < here.len());
                }
                parse_ice_fields(inp, j5, candidate, sdp_mid, Some(v), username_fragment)
            },
            FieldEndAt::BadEnd => None,
        }
    } else if matches_at(inp, i, &key_frag) {
        let j1 = i + key_frag.len();
        proof {
            assert(here.skip("\"usernameFragment\""@.len() as int) =~= inp@.skip(j1 as int));
        }
        let j2 = match parse_colon_at(inp, j1) {
            Some(j) => j,
            None => {
                return None;
            },
        };
        let (v, j3) = match parse_opt_string_at(inp, j2) {
            Some(x) => x,
            None => {
                return None;
            },
        };
        if username_fragment.is_some() {
            return None;
        }
        match parse_field_end(inp, j3) {
            FieldEndAt::DoneAt(j4) => Some((candidate, sdp_mid, sdp_mline_index, Some(v), j4)),
            FieldEndAt::MoreAt(j5) => {
                proof {
                    assert(inp@.skip(j5 as int).len() < here.len());
                }
                parse_ice_fields(inp, j5, candidate, sdp_mid, sdp_mline_index, Some(v))
            },
            FieldEndAt::BadEnd => None,
        }
    } else {
        None
    }
}

/// Decode an ICE candidate from its wire text. Exactly the frames the
/// decoder's grammar admits decode; everything else is rejected.
pub fn decode_ice_candidate(inp: &Vec<char>) -> (r: Option<IceCandidate>)
    ensures
        match r {
            Some(c) => p_ice(inp@) == Some(c@),
            None => p_ice(inp@) is None,
        },
{
    proof {
        assert(inp@.skip(0) =~= inp@);
    }
    let j0 = skip_ws_at(inp, 0);
    if j0 == inp.len() || inp[j0] != '{' {
        proof {
            if j0 < inp.len() {
                assert(inp@.skip(j0 as int)[0] == inp@[j0 as int]);
            }
        }
        return None;
    }
    proof {
        assert(inp@.skip(j0 as int)[0] == inp@[j0 as int]);
        assert(inp@.skip(j0 as int).drop_first() =~= inp@.skip(j0 as int + 1));
    }
    let j1 = skip_ws_at(inp, j0 + 1);
    let (cand_o, mid_o, idx_o, frag_o, j2) = match parse_ice_fields(
        inp,
        j1,
        None,
        None,
        None,
        None,
    ) {
        Some(t) => t,
        None => {
            return None;
        },
    };
    let j3 = skip_ws_at(inp, j2);
    if j3 != inp.len() {
        proof {
            assert(inp@.skip(j3 as int).len() > 0);
        }
        return None;
    }
    proof {
        assert(inp@.skip(j3 as int).len() == 0);
    }
    match cand_o {
        Some(cand) => {
            let c = IceCandidate {
                candidate: cand,
                sdp_mid: match mid_o {
                    Some(m) => m,
                    None => None,
                },
                sdp_mline_index: match idx_o {
                    Some(x) => x,
                    None => None,
                },
                username_fragment: match frag_o {
                    Some(f) => f,
                    None => None,
                },
            };
            proof {
                assert(p_ice(inp@) == Some(c@));
            }
            Some(c)
        },
        None => None,
    }
}

} // verus!
