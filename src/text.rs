//! Quoted text in the wire documents: escaping, scanning, and the
//! conversions between bytes, characters and `String`.
use vstd::prelude::*;
use vstd::utf8::*;

verus! {

/// Relies on `std::str::from_utf8`: it accepts exactly the valid UTF-8
/// byte sequences and then reads them as characters.
#[verifier::external_body]
pub(crate) fn utf8_str(b: &[u8]) -> (r: Option<&str>)
    ensures
        r is Some <==> valid_utf8(b@),
        r is Some ==> r->0@ == decode_utf8(b@),
{
    std::str::from_utf8(b).ok()
}

/// Relies on `str::chars`: it yields the characters of the text in order.
#[verifier::external_body]
pub(crate) fn chars_of(s: &str) -> (r: Vec<char>)
    ensures
        r@ == s@,
{
    s.chars().collect()
}

/// Relies on `String`'s `FromIterator<char>`: it appends the characters in order.
#[verifier::external_body]
pub(crate) fn string_of(v: &Vec<char>) -> (r: String)
    ensures
        r@ == v@,
{
    v.iter().collect()
}

/// The UTF-8 bytes of a text.
pub fn bytes_of(s: &str) -> (r: Vec<u8>)
    ensures
        r@ == encode_utf8(s@),
{
    let b = s.as_bytes();
    let mut out: Vec<u8> = Vec::new();
    let mut i: usize = 0;
    while i < b.len()
        invariant
            b@ == encode_utf8(s@),
            i <= b@.len(),
            out@ == b@.subrange(0, i as int),
        decreases b@.len() - i,
    {
        out.push(b[i]);
        i = i + 1;
        assert(out@ =~= b@.subrange(0, i as int));
    }
    assert(out@ =~= b@);
    out
}

pub open spec fn escape_char(c: char) -> Seq<char> {
    if c == '"' || c == '\\' {
        seq!['\\', c]
    } else {
        seq![c]
    }
}

/// Backslash before every quote and every backslash; other characters as they are.
pub open spec fn escape(s: Seq<char>) -> Seq<char>
    decreases s.len(),
{
    if s.len() == 0 {
        Seq::empty()
    } else {
        escape_char(s[0]) + escape(s.drop_first())
    }
}

/// A text as it stands in a document: escaped, between quotes.
pub open spec fn quoted(s: Seq<char>) -> Seq<char> {
    seq!['"'] + escape(s) + seq!['"']
}

/// Reads escaped text up to its closing quote: the text and what follows the quote.
pub open spec fn scan_text(b: Seq<char>) -> Option<(Seq<char>, Seq<char>)>
    decreases b.len(),
{
    if b.len() == 0 {
        None
    } else if b[0] == '"' {
        Some((Seq::empty(), b.drop_first()))
    } else if b[0] == '\\' {
        if b.len() >= 2 && (b[1] == '"' || b[1] == '\\') {
            match scan_text(b.subrange(2, b.len() as int)) {
                Some((s, r)) => Some((seq![b[1]] + s, r)),
                None => None,
            }
        } else {
            None
        }
    } else {
        match scan_text(b.drop_first()) {
            Some((s, r)) => Some((seq![b[0]] + s, r)),
            None => None,
        }
    }
}

/// A quoted text at the start of `b`, and what follows it.
pub open spec fn parse_text(b: Seq<char>) -> Option<(Seq<char>, Seq<char>)> {
    if b.len() > 0 && b[0] == '"' {
        scan_text(b.drop_first())
    } else {
        None
    }
}

/// What follows `lit` when `b` starts with it.
pub open spec fn strip(b: Seq<char>, lit: Seq<char>) -> Option<Seq<char>> {
    if lit.len() <= b.len() && b.subrange(0, lit.len() as int) == lit {
        Some(b.subrange(lit.len() as int, b.len() as int))
    } else {
        None
    }
}

pub proof fn lemma_escape_concat(a: Seq<char>, b: Seq<char>)
    ensures
        escape(a + b) == escape(a) + escape(b),
    decreases a.len(),
{
    if a.len() == 0 {
        assert(a + b =~= b);
        assert(escape(a) + escape(b) =~= escape(b));
    } else {
        assert((a + b).drop_first() =~= a.drop_first() + b);
        lemma_escape_concat(a.drop_first(), b);
        assert(escape(a + b) =~= escape(a) + escape(b));
    }
}

pub proof fn lemma_escape_push(a: Seq<char>, c: char)
    ensures
        escape(a.push(c)) == escape(a) + escape_char(c),
{
    assert(a.push(c) =~= a + seq![c]);
    lemma_escape_concat(a, seq![c]);
    assert(seq![c].drop_first() =~= Seq::<char>::empty());
    assert(escape(Seq::<char>::empty()) == Seq::<char>::empty());
    assert(escape(seq![c]) =~= escape_char(c) + escape(Seq::<char>::empty()));
}

/// Scanning escaped text stops at the first unescaped quote.
pub proof fn lemma_scan_escaped(s: Seq<char>, rest: Seq<char>)
    ensures
        scan_text(escape(s) + seq!['"'] + rest) == Some((s, rest)),
    decreases s.len(),
{
    let b = escape(s) + seq!['"'] + rest;
    if s.len() == 0 {
        assert(b =~= seq!['"'] + rest);
        assert(b.drop_first() =~= rest);
    } else {
        let t = s.drop_first();
        lemma_scan_escaped(t, rest);
        assert(seq![s[0]] + t =~= s);
        if s[0] == '"' || s[0] == '\\' {
            assert(b =~= seq!['\\', s[0]] + (escape(t) + seq!['"'] + rest));
            assert(b.subrange(2, b.len() as int) =~= escape(t) + seq!['"'] + rest);
        } else {
            assert(b =~= seq![s[0]] + (escape(t) + seq!['"'] + rest));
            assert(b.drop_first() =~= escape(t) + seq!['"'] + rest);
        }
    }
}

/// A quoted text reads back as itself.
pub proof fn lemma_parse_quoted(s: Seq<char>, rest: Seq<char>)
    ensures
        parse_text(quoted(s) + rest) == Some((s, rest)),
{
    let b = quoted(s) + rest;
    assert(b.drop_first() =~= escape(s) + seq!['"'] + rest);
    lemma_scan_escaped(s, rest);
}

pub proof fn lemma_strip(lit: Seq<char>, rest: Seq<char>)
    ensures
        strip(lit + rest, lit) == Some(rest),
{
    assert((lit + rest).subrange(0, lit.len() as int) =~= lit);
    assert((lit + rest).subrange(lit.len() as int, (lit + rest).len() as int) =~= rest);
}

/// Appends the characters of `s`.
pub fn push_text(out: &mut Vec<char>, s: &str)
    ensures
        final(out)@ == old(out)@ + s@,
{
    let cs = chars_of(s);
    let ghost start = out@;
    let mut i: usize = 0;
    while i < cs.len()
        invariant
            cs@ == s@,
            i <= cs@.len(),
            out@ == start + cs@.subrange(0, i as int),
        decreases cs@.len() - i,
    {
        out.push(cs[i]);
        i = i + 1;
        assert(out@ =~= start + cs@.subrange(0, i as int));
    }
    assert(cs@.subrange(0, i as int) =~= cs@);
}

/// Appends `s` escaped and between quotes.
pub fn push_quoted(out: &mut Vec<char>, s: &str)
    ensures
        final(out)@ == old(out)@ + quoted(s@),
{
    let cs = chars_of(s);
    let ghost start = out@;
    out.push('"');
    let mut i: usize = 0;
    while i < cs.len()
        invariant
            cs@ == s@,
            i <= cs@.len(),
            out@ == start + seq!['"'] + escape(cs@.subrange(0, i as int)),
        decreases cs@.len() - i,
    {
        let c = cs[i];
        proof {
            assert(cs@.subrange(0, i + 1) =~= cs@.subrange(0, i as int).push(c));
            lemma_escape_push(cs@.subrange(0, i as int), c);
        }
        if c == '"' || c == '\\' {
            out.push('\\');
        }
        out.push(c);
        i = i + 1;
        assert(out@ =~= start + seq!['"'] + escape(cs@.subrange(0, i as int)));
    }
    out.push('"');
    assert(cs@.subrange(0, i as int) =~= cs@);
    assert(out@ =~= start + quoted(s@));
}

/// What stands in `t` from position `p` on.
pub open spec fn suffix(t: Seq<char>, p: int) -> Seq<char> {
    t.subrange(p, t.len() as int)
}

/// The position after `lit` when `t` holds it at `pos`.
pub fn expect_at(t: &Vec<char>, pos: usize, lit: &str) -> (r: Option<usize>)
    requires
        pos <= t@.len(),
    ensures
        match strip(suffix(t@, pos as int), lit@) {
            Some(rest) => r is Some && r->0 <= t@.len() && rest == suffix(t@, r->0 as int),
            None => r is None,
        },
{
    let l = chars_of(lit);
    if l.len() > t.len() - pos {
        return None;
    }
    let mut i: usize = 0;
    while i < l.len()
        invariant
            l@ == lit@,
            pos + l@.len() <= t@.len(),
            t@.len() <= usize::MAX,
            i <= l@.len(),
            forall|j: int| 0 <= j < i ==> t@[pos + j] == l@[j],
        decreases l@.len() - i,
    {
        if t[pos + i] != l[i] {
            assert(suffix(t@, pos as int).subrange(0, l@.len() as int)[i as int] != lit@[i as int]);
            return None;
        }
        i = i + 1;
    }
    assert(suffix(t@, pos as int).subrange(0, l@.len() as int) =~= lit@);
    assert(suffix(t@, pos as int).subrange(l@.len() as int, suffix(t@, pos as int).len() as int)
        =~= suffix(t@, (pos + l.len()) as int));
    Some(pos + l.len())
}

/// Whether `t` from position `pos` on is exactly `lit`.
pub fn rest_is(t: &Vec<char>, pos: usize, lit: &str) -> (r: bool)
    requires
        pos <= t@.len(),
    ensures
        r == (suffix(t@, pos as int) == lit@),
{
    let ghost b = suffix(t@, pos as int);
    match expect_at(t, pos, lit) {
        Some(q) => {
            assert(b.subrange(lit@.len() as int, b.len() as int) == suffix(t@, q as int));
            if q == t.len() {
                assert(b =~= b.subrange(0, lit@.len() as int));
                true
            } else {
                assert(b.len() > lit@.len());
                false
            }
        },
        None => {
            assert(b == lit@ ==> b.subrange(0, lit@.len() as int) =~= lit@);
            false
        },
    }
}

/// Reads a quoted text at `pos`: the text and the position after its closing quote.
pub fn parse_text_at(t: &Vec<char>, pos: usize) -> (r: Option<(String, usize)>)
    requires
        pos <= t@.len(),
    ensures
        match parse_text(suffix(t@, pos as int)) {
            Some((s, rest)) => match r {
                Some((v, p)) => v@ == s && pos < p <= t@.len() && rest == suffix(t@, p as int),
                None => false,
            },
            None => r is None,
        },
{
    if pos >= t.len() || t[pos] != '"' {
        return None;
    }
    let ghost start = (pos + 1) as int;
    assert(suffix(t@, pos as int).drop_first() =~= suffix(t@, start));
    let mut out: Vec<char> = Vec::new();
    let mut i: usize = pos + 1;
    while i < t.len()
        invariant
            start == pos + 1,
            start <= i <= t@.len(),
            parse_text(suffix(t@, pos as int)) == scan_text(suffix(t@, start)),
            scan_text(suffix(t@, start)) == match scan_text(suffix(t@, i as int)) {
                Some((s, rest)) => Some((out@ + s, rest)),
                None => None,
            },
        decreases t@.len() - i,
    {
        let c = t[i];
        let ghost b = suffix(t@, i as int);
        if c == '"' {
            assert(b.drop_first() =~= suffix(t@, i + 1));
            assert(out@ + Seq::<char>::empty() =~= out@);
            return Some((string_of(&out), i + 1));
        } else if c == '\\' {
            if i + 1 < t.len() && (t[i + 1] == '"' || t[i + 1] == '\\') {
                let d = t[i + 1];
                assert(b.subrange(2, b.len() as int) =~= suffix(t@, i + 2));
                proof {
                    match scan_text(suffix(t@, i + 2)) {
                        Some((s, rest)) => {
                            assert(out@ + (seq![d] + s) =~= out@.push(d) + s);
                        },
                        None => {},
                    }
                }
                out.push(d);
                i = i + 2;
            } else {
                return None;
            }
        } else {
            assert(b.drop_first() =~= suffix(t@, i + 1));
            proof {
                match scan_text(suffix(t@, i + 1)) {
                    Some((s, rest)) => {
                        assert(out@ + (seq![c] + s) =~= out@.push(c) + s);
                    },
                    None => {},
                }
            }
            out.push(c);
            i = i + 1;
        }
    }
    assert(suffix(t@, i as int).len() == 0);
    None
}

} // verus!
