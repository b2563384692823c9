//! The control protocol: each datagram holds one JSON-shaped document
//! `{"t":<variant>}` or `{"t":"AddProcess","d":{...}}` in UTF-8.
use vstd::prelude::*;
use vstd::utf8::*;
use crate::text::{
    chars_of, expect_at, lemma_parse_quoted, lemma_strip, parse_text, parse_text_at, push_quoted,
    push_text, quoted, rest_is, strip, utf8_str, bytes_of, string_of, suffix,
};

verus! {

/// One command or reply exchanged between the client and the daemon.
#[derive(Debug, Clone, PartialEq, Eq)]
pub enum ControlEvent {
    Kill,
    /// Reserved: decoded, but no handler acts on it.
    Start,
    /// Reserved: decoded, but no handler acts on it.
    Restart,
    Success,
    AddProcess { command: String, args: Vec<String>, pwd: String, name: String },
}

/// What a `ControlEvent` holds, as mathematical values.
pub enum EventModel {
    Kill,
    Start,
    Restart,
    Success,
    AddProcess { command: Seq<char>, args: Seq<Seq<char>>, pwd: Seq<char>, name: Seq<char> },
}

#[derive(Debug, Clone, Copy, PartialEq, Eq, Structural)]
pub enum ProtocolError {
    /// The payload is not UTF-8 text.
    InvalidUtf8,
    /// The document does not have the shape of any variant.
    Malformed,
    /// The discriminant names no variant.
    UnknownVariant,
    /// The payload does not fit the receive buffer.
    TooLarge,
}

pub open spec fn texts_view(v: Seq<String>) -> Seq<Seq<char>> {
    v.map_values(|s: String| s@)
}

impl View for ControlEvent {
    type V = EventModel;

    open spec fn view(&self) -> EventModel {
        match self {
            ControlEvent::Kill => EventModel::Kill,
            ControlEvent::Start => EventModel::Start,
            ControlEvent::Restart => EventModel::Restart,
            ControlEvent::Success => EventModel::Success,
            ControlEvent::AddProcess { command, args, pwd, name } => EventModel::AddProcess {
                command: command@,
                args: texts_view(args@),
                pwd: pwd@,
                name: name@,
            },
        }
    }
}

pub open spec fn tag_of(e: EventModel) -> Seq<char> {
    match e {
        EventModel::Kill => "Kill"@,
        EventModel::Start => "Start"@,
        EventModel::Restart => "Restart"@,
        EventModel::Success => "Success"@,
        EventModel::AddProcess { .. } => "AddProcess"@,
    }
}

/// `,"x"` for each text, in order.
pub open spec fn more_texts(xs: Seq<Seq<char>>) -> Seq<char>
    decreases xs.len(),
{
    if xs.len() == 0 {
        Seq::empty()
    } else {
        seq![','] + quoted(xs[0]) + more_texts(xs.drop_first())
    }
}

/// A list of texts: `[]` or `["a","b",...]`.
pub open spec fn text_list(xs: Seq<Seq<char>>) -> Seq<char> {
    if xs.len() == 0 {
        seq!['[', ']']
    } else {
        seq!['['] + quoted(xs[0]) + more_texts(xs.drop_first()) + seq![']']
    }
}

/// What follows the discriminant: nothing, or the payload of `AddProcess`.
pub open spec fn body_of(e: EventModel) -> Seq<char> {
    match e {
        EventModel::AddProcess { command, args, pwd, name } =>
            ",\"d\":{\"command\":"@ + quoted(command) + ",\"args\":"@ + text_list(args)
                + ",\"pwd\":"@ + quoted(pwd) + ",\"name\":"@ + quoted(name) + "}"@,
        _ => Seq::empty(),
    }
}

/// The document that encodes an event.
pub open spec fn document(e: EventModel) -> Seq<char> {
    "{\"t\":"@ + quoted(tag_of(e)) + body_of(e) + "}"@
}

/// The bytes that encode an event.
pub open spec fn encoding(e: EventModel) -> Seq<u8> {
    encode_utf8(document(e))
}

/// The texts that `more_texts` wrote, up to the closing bracket.
pub open spec fn parse_more_texts(b: Seq<char>) -> Option<(Seq<Seq<char>>, Seq<char>)>
    decreases b.len(),
{
    if b.len() > 0 && b[0] == ']' {
        Some((Seq::empty(), b.drop_first()))
    } else if b.len() > 0 && b[0] == ',' {
        match parse_text(b.drop_first()) {
            Some((s, r)) => if r.len() < b.len() {
                match parse_more_texts(r) {
                    Some((ss, r2)) => Some((seq![s] + ss, r2)),
                    None => None,
                }
            } else {
                None
            },
            None => None,
        }
    } else {
        None
    }
}

pub open spec fn parse_text_list(b: Seq<char>) -> Option<(Seq<Seq<char>>, Seq<char>)> {
    if b.len() >= 2 && b[0] == '[' && b[1] == ']' {
        Some((Seq::empty(), b.subrange(2, b.len() as int)))
    } else if b.len() > 0 && b[0] == '[' {
        match parse_text(b.drop_first()) {
            Some((s, r)) => match parse_more_texts(r) {
                Some((ss, r2)) => Some((seq![s] + ss, r2)),
                None => None,
            },
            None => None,
        }
    } else {
        None
    }
}

/// The fields of an `AddProcess` payload, read from what follows its discriminant.
pub open spec fn parse_add_body(b: Seq<char>) -> Option<EventModel> {
    match strip(b, ",\"d\":{\"command\":"@) {
        None => None,
        Some(r0) => match parse_text(r0) {
            None => None,
            Some((command, r1)) => match strip(r1, ",\"args\":"@) {
                None => None,
                Some(r2) => match parse_text_list(r2) {
                    None => None,
                    Some((args, r3)) => match strip(r3, ",\"pwd\":"@) {
                        None => None,
                        Some(r4) => match parse_text(r4) {
                            None => None,
                            Some((pwd, r5)) => match strip(r5, ",\"name\":"@) {
                                None => None,
                                Some(r6) => match parse_text(r6) {
                                    None => None,
                                    Some((name, r7)) => if r7 == "}}"@ {
                                        Some(EventModel::AddProcess { command, args, pwd, name })
                                    } else {
                                        None
                                    },
                                },
                            },
                        },
                    },
                },
            },
        },
    }
}

pub open spec fn known_tag(tag: Seq<char>) -> bool {
    tag == "Kill"@ || tag == "Start"@ || tag == "Restart"@ || tag == "Success"@ || tag
        == "AddProcess"@
}

pub open spec fn plain_event(tag: Seq<char>) -> EventModel {
    if tag == "Kill"@ {
        EventModel::Kill
    } else if tag == "Start"@ {
        EventModel::Start
    } else if tag == "Restart"@ {
        EventModel::Restart
    } else {
        EventModel::Success
    }
}

/// How a document reads: the event, or why none.
pub open spec fn parse_document(b: Seq<char>) -> Result<EventModel, ProtocolError> {
    match strip(b, "{\"t\":"@) {
        None => Err(ProtocolError::Malformed),
        Some(r0) => match parse_text(r0) {
            None => Err(ProtocolError::Malformed),
            Some((tag, r1)) => if !known_tag(tag) {
                Err(ProtocolError::UnknownVariant)
            } else if tag == "AddProcess"@ {
                match parse_add_body(r1) {
                    Some(e) => Ok(e),
                    None => Err(ProtocolError::Malformed),
                }
            } else if r1 == "}"@ {
                Ok(plain_event(tag))
            } else {
                Err(ProtocolError::Malformed)
            },
        },
    }
}

/// How a payload decodes.
pub open spec fn decoding(b: Seq<u8>) -> Result<EventModel, ProtocolError> {
    if valid_utf8(b) {
        parse_document(decode_utf8(b))
    } else {
        Err(ProtocolError::InvalidUtf8)
    }
}

proof fn lemma_parse_more(ys: Seq<Seq<char>>, rest: Seq<char>)
    ensures
        parse_more_texts(more_texts(ys) + seq![']'] + rest) == Some((ys, rest)),
    decreases ys.len(),
{
    let b = more_texts(ys) + seq![']'] + rest;
    if ys.len() == 0 {
        assert(b =~= seq![']'] + rest);
        assert(b.drop_first() =~= rest);
    } else {
        let r = more_texts(ys.drop_first()) + seq![']'] + rest;
        assert(b =~= seq![','] + (quoted(ys[0]) + r));
        assert(b.drop_first() =~= quoted(ys[0]) + r);
        lemma_parse_quoted(ys[0], r);
        lemma_parse_more(ys.drop_first(), rest);
        assert(seq![ys[0]] + ys.drop_first() =~= ys);
    }
}

proof fn lemma_parse_list(xs: Seq<Seq<char>>, rest: Seq<char>)
    ensures
        parse_text_list(text_list(xs) + rest) == Some((xs, rest)),
{
    let b = text_list(xs) + rest;
    if xs.len() == 0 {
        assert(b.subrange(2, b.len() as int) =~= rest);
    } else {
        let r = more_texts(xs.drop_first()) + seq![']'] + rest;
        assert(b.drop_first() =~= quoted(xs[0]) + r);
        assert(quoted(xs[0])[0] == '"');
        assert(b[1] == '"');
        lemma_parse_quoted(xs[0], r);
        lemma_parse_more(xs.drop_first(), rest);
        assert(seq![xs[0]] + xs.drop_first() =~= xs);
    }
}

proof fn lemma_parse_add_body(e: EventModel)
    requires
        e is AddProcess,
    ensures
        parse_add_body(body_of(e) + "}"@) == Some(e),
{
    reveal_strlit("}");
    reveal_strlit("}}");
    let command = e->AddProcess_command;
    let args = e->AddProcess_args;
    let pwd = e->AddProcess_pwd;
    let name = e->AddProcess_name;
    let h0 = ",\"d\":{\"command\":"@;
    let h1 = ",\"args\":"@;
    let h2 = ",\"pwd\":"@;
    let h3 = ",\"name\":"@;
    let end = "}}"@;
    let r6 = quoted(name) + end;
    let r5 = h3 + r6;
    let r4 = quoted(pwd) + r5;
    let r3 = h2 + r4;
    let r2 = text_list(args) + r3;
    let r1 = h1 + r2;
    let r0 = quoted(command) + r1;
    assert(body_of(e) + "}"@ =~= h0 + r0);
    lemma_strip(h0, r0);
    lemma_parse_quoted(command, r1);
    lemma_strip(h1, r2);
    lemma_parse_list(args, r3);
    lemma_strip(h2, r4);
    lemma_parse_quoted(pwd, r5);
    lemma_strip(h3, r6);
    lemma_parse_quoted(name, end);
}

/// Every event's document reads back as that event.
pub proof fn lemma_document_round_trip(e: EventModel)
    ensures
        parse_document(document(e)) == Ok::<EventModel, ProtocolError>(e),
{
    reveal_strlit("Kill");
    reveal_strlit("Start");
    reveal_strlit("Restart");
    reveal_strlit("Success");
    reveal_strlit("AddProcess");
    reveal_strlit("}");
    let open = "{\"t\":"@;
    let r1 = body_of(e) + "}"@;
    let r0 = quoted(tag_of(e)) + r1;
    assert(document(e) =~= open + r0);
    lemma_strip(open, r0);
    lemma_parse_quoted(tag_of(e), r1);
    if e is AddProcess {
        lemma_parse_add_body(e);
    } else {
        assert(r1 =~= "}"@);
    }
}

/// Decoding the encoding of an event gives that event back.
pub proof fn lemma_round_trip(e: EventModel)
    ensures
        decoding(encoding(e)) == Ok::<EventModel, ProtocolError>(e),
{
    encode_utf8_valid_utf8(document(e));
    encode_utf8_decode_utf8(document(e));
    lemma_document_round_trip(e);
}

/// A discriminant that names no variant is refused, whatever follows it.
pub proof fn lemma_unknown_variant(tag: Seq<char>, rest: Seq<char>)
    requires
        !known_tag(tag),
    ensures
        decoding(encode_utf8("{\"t\":"@ + quoted(tag) + rest)) == Err::<EventModel, ProtocolError>(
            ProtocolError::UnknownVariant,
        ),
{
    let open = "{\"t\":"@;
    let d = open + quoted(tag) + rest;
    encode_utf8_valid_utf8(d);
    encode_utf8_decode_utf8(d);
    assert(d =~= open + (quoted(tag) + rest));
    lemma_strip(open, quoted(tag) + rest);
    lemma_parse_quoted(tag, rest);
}

proof fn lemma_more_texts_push(ys: Seq<Seq<char>>, y: Seq<char>)
    ensures
        more_texts(ys.push(y)) == more_texts(ys) + seq![','] + quoted(y),
    decreases ys.len(),
{
    if ys.len() == 0 {
        assert(ys.push(y).drop_first() =~= Seq::<Seq<char>>::empty());
        assert(more_texts(Seq::<Seq<char>>::empty()) == Seq::<char>::empty());
        assert(more_texts(ys.push(y)) =~= more_texts(ys) + seq![','] + quoted(y));
    } else {
        assert(ys.push(y).drop_first() =~= ys.drop_first().push(y));
        lemma_more_texts_push(ys.drop_first(), y);
        assert(more_texts(ys.push(y)) =~= more_texts(ys) + seq![','] + quoted(y));
    }
}

fn push_text_list(out: &mut Vec<char>, xs: &Vec<String>)
    ensures
        final(out)@ == old(out)@ + text_list(texts_view(xs@)),
{
    let ghost start = out@;
    let ghost v = texts_view(xs@);
    if xs.len() == 0 {
        push_text(out, "[]");
        proof {
            reveal_strlit("[]");
        }
        assert(out@ =~= start + text_list(v));
        return;
    }
    out.push('[');
    push_quoted(out, xs[0].as_str());
    let mut i: usize = 1;
    assert(v.subrange(1, 1) =~= Seq::<Seq<char>>::empty());
    assert(out@ =~= start + seq!['['] + quoted(v[0]) + more_texts(v.subrange(1, 1)));
    while i < xs.len()
        invariant
            v == texts_view(xs@),
            1 <= i <= xs@.len(),
            out@ == start + seq!['['] + quoted(v[0]) + more_texts(v.subrange(1, i as int)),
        decreases xs@.len() - i,
    {
        proof {
            assert(v.subrange(1, i + 1) =~= v.subrange(1, i as int).push(v[i as int]));
            lemma_more_texts_push(v.subrange(1, i as int), v[i as int]);
        }
        out.push(',');
        push_quoted(out, xs[i].as_str());
        i = i + 1;
        assert(out@ =~= start + seq!['['] + quoted(v[0]) + more_texts(v.subrange(1, i as int)));
    }
    out.push(']');
    assert(v.subrange(1, i as int) =~= v.drop_first());
    assert(out@ =~= start + text_list(v));
}

impl ControlEvent {
    /// The UTF-8 payload that carries this event.
    pub fn encode(&self) -> (r: Vec<u8>)
        ensures
            r@ == encoding(self@),
    {
        let mut out: Vec<char> = Vec::new();
        push_text(&mut out, "{\"t\":");
        match self {
            ControlEvent::Kill => push_quoted(&mut out, "Kill"),
            ControlEvent::Start => push_quoted(&mut out, "Start"),
            ControlEvent::Restart => push_quoted(&mut out, "Restart"),
            ControlEvent::Success => push_quoted(&mut out, "Success"),
            ControlEvent::AddProcess { command, args, pwd, name } => {
                push_quoted(&mut out, "AddProcess");
                push_text(&mut out, ",\"d\":{\"command\":");
                push_quoted(&mut out, command.as_str());
                push_text(&mut out, ",\"args\":");
                push_text_list(&mut out, args);
                push_text(&mut out, ",\"pwd\":");
                push_quoted(&mut out, pwd.as_str());
                push_text(&mut out, ",\"name\":");
                push_quoted(&mut out, name.as_str());
                push_text(&mut out, "}");
            },
        }
        push_text(&mut out, "}");
        assert(out@ =~= document(self@));
        let s = string_of(&out);
        bytes_of(s.as_str())
    }

    /// Reads the event that a payload carries.
    pub fn decode(b: &[u8]) -> (r: Result<ControlEvent, ProtocolError>)
        ensures
            match decoding(b@) {
                Ok(m) => r is Ok && r->Ok_0@ == m,
                Err(e) => r == Err::<ControlEvent, ProtocolError>(e),
            },
    {
        let s = match utf8_str(b) {
            Some(s) => s,
            None => return Err(ProtocolError::InvalidUtf8),
        };
        let t = chars_of(s);
        assert(suffix(t@, 0) =~= t@);
        let p0 = match expect_at(&t, 0, "{\"t\":") {
            Some(p) => p,
            None => return Err(ProtocolError::Malformed),
        };
        let (tag, p1) = match parse_text_at(&t, p0) {
            Some(x) => x,
            None => return Err(ProtocolError::Malformed),
        };
        if text_is(&tag, "AddProcess") {
            return match parse_add_body_at(&t, p1) {
                Some(e) => Ok(e),
                None => Err(ProtocolError::Malformed),
            };
        }
        let e = if text_is(&tag, "Kill") {
            ControlEvent::Kill
        } else if text_is(&tag, "Start") {
            ControlEvent::Start
        } else if text_is(&tag, "Restart") {
            ControlEvent::Restart
        } else if text_is(&tag, "Success") {
            ControlEvent::Success
        } else {
            return Err(ProtocolError::UnknownVariant);
        };
        if rest_is(&t, p1, "}") {
            Ok(e)
        } else {
            Err(ProtocolError::Malformed)
        }
    }
}

fn text_is(s: &String, lit: &str) -> (r: bool)
    ensures
        r == (s@ == lit@),
{
    let o = lit.to_owned();
    *s == o
}

fn parse_text_list_at(t: &Vec<char>, pos: usize) -> (r: Option<(Vec<String>, usize)>)
    requires
        pos <= t@.len(),
    ensures
        match parse_text_list(suffix(t@, pos as int)) {
            Some((xs, rest)) => match r {
                Some((v, p)) => texts_view(v@) == xs && p <= t@.len() && rest == suffix(t@, p as int),
                None => false,
            },
            None => r is None,
        },
{
    let ghost b = suffix(t@, pos as int);
    if pos < t.len() && t.len() - pos >= 2 && t[pos] == '[' && t[pos + 1] == ']' {
        assert(b.subrange(2, b.len() as int) =~= suffix(t@, pos + 2));
        let v: Vec<String> = Vec::new();
        assert(texts_view(v@) =~= Seq::<Seq<char>>::empty());
        return Some((v, pos + 2));
    }
    if pos >= t.len() || t[pos] != '[' {
        return None;
    }
    assert(b.drop_first() =~= suffix(t@, pos + 1));
    let (first, mut p) = match parse_text_at(t, pos + 1) {
        Some(x) => x,
        None => return None,
    };
    let mut acc: Vec<String> = Vec::new();
    acc.push(first);
    assert(texts_view(acc@) =~= seq![first@]);
    while p < t.len()
        invariant
            pos < p <= t@.len(),
            parse_text_list(b) == match parse_more_texts(suffix(t@, p as int)) {
                Some((ss, r2)) => Some((texts_view(acc@) + ss, r2)),
                None => None,
            },
            b == suffix(t@, pos as int),
        decreases t@.len() - p,
    {
        let ghost c = suffix(t@, p as int);
        if t[p] == ']' {
            assert(c.drop_first() =~= suffix(t@, p + 1));
            assert(texts_view(acc@) + Seq::<Seq<char>>::empty() =~= texts_view(acc@));
            return Some((acc, p + 1));
        } else if t[p] == ',' {
            assert(c.drop_first() =~= suffix(t@, p + 1));
            let (x, q) = match parse_text_at(t, p + 1) {
                Some(y) => y,
                None => return None,
            };
            let ghost old_acc = texts_view(acc@);
            acc.push(x);
            proof {
                assert(texts_view(acc@) =~= old_acc.push(x@));
                match parse_more_texts(suffix(t@, q as int)) {
                    Some((ss, r2)) => {
                        assert(old_acc + (seq![x@] + ss) =~= texts_view(acc@) + ss);
                    },
                    None => {},
                }
            }
            p = q;
        } else {
            return None;
        }
    }
    None
}

fn parse_add_body_at(t: &Vec<char>, pos: usize) -> (r: Option<ControlEvent>)
    requires
        pos <= t@.len(),
    ensures
        match parse_add_body(suffix(t@, pos as int)) {
            Some(m) => r is Some && r->0@ == m,
            None => r is None,
        },
{
    let p0 = match expect_at(t, pos, ",\"d\":{\"command\":") {
        Some(p) => p,
        None => return None,
    };
    let (command, p1) = match parse_text_at(t, p0) {
        Some(x) => x,
        None => return None,
    };
    let p2 = match expect_at(t, p1, ",\"args\":") {
        Some(p) => p,
        None => return None,
    };
    let (args, p3) = match parse_text_list_at(t, p2) {
        Some(x) => x,
        None => return None,
    };
    let p4 = match expect_at(t, p3, ",\"pwd\":") {
        Some(p) => p,
        None => return None,
    };
    let (pwd, p5) = match parse_text_at(t, p4) {
        Some(x) => x,
        None => return None,
    };
    let p6 = match expect_at(t, p5, ",\"name\":") {
        Some(p) => p,
        None => return None,
    };
    let (name, p7) = match parse_text_at(t, p6) {
        Some(x) => x,
        None => return None,
    };
    if rest_is(t, p7, "}}") {
        Some(ControlEvent::AddProcess { command, args, pwd, name })
    } else {
        None
    }
}

} // verus!
