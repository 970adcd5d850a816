//! Wire form of the protocol: JSON text for the request and response
//! envelopes. Every envelope is a tagged object of string-valued
//! fields, in any order, with optional whitespace between tokens.
//! Strings are escaped with the usual backslash escapes; the decoder
//! also accepts the other common single-character escapes, but not
//! `\u` sequences.

use vstd::prelude::*;
use vstd::string::StringExecFns;
use crate::text::push_char;
use crate::types::{
    HandlerError, MyRequestV, MyResponseV, HelloWorldClauseV, RequestV, ResponseV, MyRequest,
    MyResponse, HelloWorldClause, GenerateAgreementAsPDFRequest, GenerateAgreementAsPDFResponse,
    RequestType, ResponseType,
};

verus! {

/// The escaped form of one character inside a JSON string literal.
pub open spec fn esc_char(c: char) -> Seq<char> {
    if c == '"' {
        seq!['\\', '"']
    } else if c == '\\' {
        seq!['\\', '\\']
    } else if c == '\n' {
        seq!['\\', 'n']
    } else if c == '\t' {
        seq!['\\', 't']
    } else if c == '\r' {
        seq!['\\', 'r']
    } else {
        seq![c]
    }
}

/// The escaped form of a whole string.
pub open spec fn esc(s: Seq<char>) -> Seq<char>
    decreases s.len(),
{
    if s.len() == 0 {
        Seq::empty()
    } else {
        esc_char(s[0]) + esc(s.drop_first())
    }
}

/// A JSON string literal: quote, escaped content, quote.
pub open spec fn enc_jstr(s: Seq<char>) -> Seq<char> {
    seq!['"'] + esc(s) + seq!['"']
}

/// Escaping works one character at a time from either end.
pub proof fn lemma_esc_snoc(s: Seq<char>, c: char)
    ensures
        esc(s.push(c)) == esc(s) + esc_char(c),
    decreases s.len(),
{
    if s.len() == 0 {
        assert(s.push(c).drop_first() =~= Seq::<char>::empty());
        assert(s.push(c)[0] == c);
        assert(esc(s.push(c)) == esc_char(c) + esc(Seq::<char>::empty()));
        assert(esc_char(c) + Seq::<char>::empty() =~= esc_char(c));
        assert(esc(s) + esc_char(c) =~= esc_char(c));
    } else {
        lemma_esc_snoc(s.drop_first(), c);
        assert(s.push(c).drop_first() =~= s.drop_first().push(c));
        assert(esc(s.push(c)) == esc_char(s[0]) + (esc(s.drop_first()) + esc_char(c)));
        assert(esc_char(s[0]) + (esc(s.drop_first()) + esc_char(c))
            =~= (esc_char(s[0]) + esc(s.drop_first())) + esc_char(c));
    }
}

/// Appends the escaped form of `s` to `out`.
pub fn append_escaped(out: &mut String, s: &str)
    ensures
        final(out)@ == old(out)@ + esc(s@),
{
    let chars = crate::text::str_to_chars(s);
    let n = chars.len();
    let mut i: usize = 0;
    while i < n
        invariant
            chars@ == s@,
            n == s@.len(),
            i <= n,
            out@ == old(out)@ + esc(s@.subrange(0, i as int)),
        decreases n - i,
    {
        let c = chars[i];
        proof {
            lemma_esc_snoc(s@.subrange(0, i as int), c);
            assert(s@.subrange(0, i as int).push(c) =~= s@.subrange(0, i as int + 1));
        }
        if c == '"' {
            push_char(out, '\\');
            push_char(out, '"');
        } else if c == '\\' {
            push_char(out, '\\');
            push_char(out, '\\');
        } else if c == '\n' {
            push_char(out, '\\');
            push_char(out, 'n');
        } else if c == '\t' {
            push_char(out, '\\');
            push_char(out, 't');
        } else if c == '\r' {
            push_char(out, '\\');
            push_char(out, 'r');
        } else {
            push_char(out, c);
        }
        proof {
            assert(out@ =~= old(out)@ + esc(s@.subrange(0, i as int + 1)));
        }
        i = i + 1;
    }
    proof {
        assert(s@.subrange(0, n as int) =~= s@);
    }
}

/// Appends `s` as a JSON string literal to `out`.
pub fn append_jstr(out: &mut String, s: &str)
    ensures
        final(out)@ == old(out)@ + enc_jstr(s@),
{
    push_char(out, '"');
    append_escaped(out, s);
    push_char(out, '"');
    proof {
        assert(out@ =~= old(out)@ + enc_jstr(s@));
    }
}

/// One member of a JSON object: key and string value, both escaped.
pub open spec fn member_txt(p: (Seq<char>, Seq<char>)) -> Seq<char> {
    enc_jstr(p.0) + seq![':'] + enc_jstr(p.1)
}

/// Comma-separated members of a JSON object.
pub open spec fn members_txt(ps: Seq<(Seq<char>, Seq<char>)>) -> Seq<char>
    decreases ps.len(),
{
    if ps.len() == 0 {
        Seq::empty()
    } else if ps.len() == 1 {
        member_txt(ps[0])
    } else {
        members_txt(ps.drop_last()) + seq![','] + member_txt(ps.last())
    }
}

/// Appends members of a JSON object, in order, with commas between.
pub fn append_members(out: &mut String, pairs: &Vec<(String, String)>)
    ensures
        final(out)@ == old(out)@ + members_txt(
            pairs@.map_values(|p: (String, String)| (p.0@, p.1@)),
        ),
{
    let ghost ps = pairs@.map_values(|p: (String, String)| (p.0@, p.1@));
    let n = pairs.len();
    let mut k: usize = 0;
    while k < n
        invariant
            n == pairs.len(),
            k <= n,
            ps == pairs@.map_values(|p: (String, String)| (p.0@, p.1@)),
            out@ == old(out)@ + members_txt(ps.subrange(0, k as int)),
        decreases n - k,
    {
        if k > 0 {
            push_char(out, ',');
        }
        append_jstr(out, pairs[k].0.as_str());
        push_char(out, ':');
        append_jstr(out, pairs[k].1.as_str());
        proof {
            let pre = ps.subrange(0, k as int);
            let cur = ps.subrange(0, k as int + 1);
            assert(cur.drop_last() =~= pre);
            assert(cur.last() == ps[k as int]);
            assert(ps[k as int] == (pairs@[k as int].0@, pairs@[k as int].1@));
            if k == 0 {
                assert(members_txt(cur) == member_txt(ps[0]));
                assert(out@ =~= old(out)@ + members_txt(cur));
            } else {
                assert(members_txt(cur)
                    == members_txt(pre) + seq![','] + member_txt(ps[k as int]));
                assert(out@ =~= old(out)@ + members_txt(cur));
            }
        }
        k = k + 1;
    }
    proof {
        assert(ps.subrange(0, n as int) =~= ps);
    }
}

/// Whether a character is JSON whitespace.
pub open spec fn is_ws(c: char) -> bool {
    c == ' ' || c == '\n' || c == '\t' || c == '\r'
}

/// Count of leading whitespace characters.
pub open spec fn ws_len(s: Seq<char>) -> nat
    decreases s.len(),
{
    if s.len() > 0 && is_ws(s[0]) {
        1 + ws_len(s.drop_first())
    } else {
        0
    }
}

/// Leading whitespace never runs past the end.
pub proof fn lemma_ws_len_le(s: Seq<char>)
    ensures
        ws_len(s) <= s.len(),
    decreases s.len(),
{
    if s.len() > 0 && is_ws(s[0]) {
        lemma_ws_len_le(s.drop_first());
    }
}

/// The character one single-character escape code stands for.
pub open spec fn unesc_code(c: char) -> Option<char> {
    if c == '"' {
        Some('"')
    } else if c == '\\' {
        Some('\\')
    } else if c == '/' {
        Some('/')
    } else if c == 'n' {
        Some('\n')
    } else if c == 't' {
        Some('\t')
    } else if c == 'r' {
        Some('\r')
    } else if c == 'b' {
        Some('\u{8}')
    } else if c == 'f' {
        Some('\u{c}')
    } else {
        None
    }
}

/// Parses the body of a JSON string literal, after the opening quote:
/// the decoded content, and how many source characters were consumed,
/// closing quote included.
pub open spec fn p_str_body(s: Seq<char>) -> Option<(Seq<char>, nat)>
    decreases s.len(),
{
    if s.len() == 0 {
        None
    } else if s[0] == '"' {
        Some((Seq::empty(), 1))
    } else if s[0] == '\\' {
        if s.len() >= 2 {
            match unesc_code(s[1]) {
                None => None,
                Some(c) => match p_str_body(s.skip(2)) {
                    None => None,
                    Some((t, n)) => Some((seq![c] + t, (n + 2) as nat)),
                },
            }
        } else {
            None
        }
    } else {
        match p_str_body(s.drop_first()) {
            None => None,
            Some((t, n)) => Some((seq![s[0]] + t, (n + 1) as nat)),
        }
    }
}

/// A parsed string literal consumes no more than is there.
pub proof fn lemma_p_str_body_le(s: Seq<char>)
    ensures
        p_str_body(s) matches Some((t, n)) ==> 1 <= n <= s.len(),
    decreases s.len(),
{
    if s.len() > 0 && s[0] != '"' {
        if s[0] == '\\' {
            if s.len() >= 2 {
                lemma_p_str_body_le(s.skip(2));
            }
        } else {
            lemma_p_str_body_le(s.drop_first());
        }
    }
}

/// Parses optional whitespace, then a JSON string literal.
pub open spec fn p_string(s: Seq<char>) -> Option<(Seq<char>, nat)> {
    let k = ws_len(s);
    if k < s.len() && s[k as int] == '"' {
        match p_str_body(s.skip(k as int + 1)) {
            None => None,
            Some((v, n)) => Some((v, (k + 1 + n) as nat)),
        }
    } else {
        None
    }
}

/// Parses optional whitespace, then one expected character.
pub open spec fn p_ch(s: Seq<char>, c: char) -> Option<nat> {
    let k = ws_len(s);
    if k < s.len() && s[k as int] == c {
        Some((k + 1) as nat)
    } else {
        None
    }
}

/// Parses one member of a flat object: a key, a colon, and a string
/// value.
pub open spec fn p_member(s: Seq<char>) -> Option<((Seq<char>, Seq<char>), nat)> {
    match p_string(s) {
        None => None,
        Some((key, n1)) => match p_ch(s.skip(n1 as int), ':') {
            None => None,
            Some(n2) => match p_string(s.skip(n1 + n2 as int)) {
                None => None,
                Some((val, n3)) => Some(((key, val), (n1 + n2 + n3) as nat)),
            },
        },
    }
}

/// Parses the members of a flat object of string-valued fields, up to
/// and including the closing brace. The fuel only bounds recursion;
/// any fuel at least the remaining length is enough.
pub open spec fn p_members(s: Seq<char>, fuel: nat) -> Option<(Seq<(Seq<char>, Seq<char>)>, nat)>
    decreases fuel,
{
    if fuel == 0 {
        None
    } else {
        match p_member(s) {
            None => None,
            Some((kv, m)) => {
                let t = s.skip(m as int);
                let k = ws_len(t);
                if k < t.len() && t[k as int] == ',' {
                    match p_members(t.skip(k as int + 1), (fuel - 1) as nat) {
                        None => None,
                        Some((ps, n4)) => Some((seq![kv] + ps, (m + k + 1 + n4) as nat)),
                    }
                } else if k < t.len() && t[k as int] == '}' {
                    Some((seq![kv], (m + k + 1) as nat))
                } else {
                    None
                }
            },
        }
    }
}

/// Parses a flat object of string-valued fields, braces included.
pub open spec fn p_flat_obj(s: Seq<char>) -> Option<(Seq<(Seq<char>, Seq<char>)>, nat)> {
    match p_ch(s, '{') {
        None => None,
        Some(n1) => {
            let t = s.skip(n1 as int);
            let k = ws_len(t);
            if k < t.len() && t[k as int] == '}' {
                Some((Seq::empty(), (n1 + k + 1) as nat))
            } else {
                match p_members(t, t.len()) {
                    None => None,
                    Some((ps, n2)) => Some((ps, (n1 + n2) as nat)),
                }
            }
        },
    }
}

/// Parses one tagged flat object, `{"Tag":{...}}`.
pub open spec fn p_tagged(s: Seq<char>) -> Option<((Seq<char>, Seq<(Seq<char>, Seq<char>)>), nat)> {
    match p_ch(s, '{') {
        None => None,
        Some(n1) => match p_string(s.skip(n1 as int)) {
            None => None,
            Some((tag, n2)) => match p_ch(s.skip(n1 + n2 as int), ':') {
                None => None,
                Some(n3) => match p_flat_obj(s.skip(n1 + n2 + n3 as int)) {
                    None => None,
                    Some((ps, n4)) => match p_ch(s.skip(n1 + n2 + n3 + n4 as int), '}') {
                        None => None,
                        Some(n5) => Some(((tag, ps), (n1 + n2 + n3 + n4 + n5) as nat)),
                    },
                },
            },
        },
    }
}

/// Nothing but whitespace remains.
pub open spec fn only_ws(s: Seq<char>) -> bool {
    ws_len(s) == s.len()
}

/// The first field with the given key, if any.
pub open spec fn field_of(ps: Seq<(Seq<char>, Seq<char>)>, key: Seq<char>) -> Option<Seq<char>>
    decreases ps.len(),
{
    if ps.len() == 0 {
        None
    } else if ps[0].0 == key {
        Some(ps[0].1)
    } else {
        field_of(ps.drop_first(), key)
    }
}

/// Builds the response value a tagged flat object denotes:
/// `UnknownOperation` for an unrecognized tag, `DecodeError` when a
/// required field is absent.
pub open spec fn response_of(
    tag: Seq<char>,
    ps: Seq<(Seq<char>, Seq<char>)>,
) -> Result<ResponseV, HandlerError> {
    if tag == "MyResponse"@ {
        match (field_of(ps, "$class"@), field_of(ps, "output"@), field_of(ps, "$timestamp"@)) {
            (Some(c), Some(o), Some(ts)) => Ok(
                ResponseV::Invoke(MyResponseV { class: c, output: o, timestamp: ts }),
            ),
            _ => Err(HandlerError::DecodeError),
        }
    } else if tag == "HelloWorldClause"@ {
        match (
            field_of(ps, "$class"@),
            field_of(ps, "name"@),
            field_of(ps, "clauseId"@),
            field_of(ps, "$identifier"@),
        ) {
            (Some(c), Some(nm), Some(ci), Some(id)) => Ok(
                ResponseV::Construct(
                    HelloWorldClauseV { class: c, name: nm, clause_id: ci, identifier: id },
                ),
            ),
            _ => Err(HandlerError::DecodeError),
        }
    } else if tag == "GenerateAgreementAsPDFResponse"@ {
        match field_of(ps, "message"@) {
            Some(m) => Ok(ResponseV::Render(m)),
            None => Err(HandlerError::DecodeError),
        }
    } else {
        Err(HandlerError::UnknownOperation)
    }
}

/// Builds the request value a tagged flat object denotes.
pub open spec fn request_of(
    tag: Seq<char>,
    ps: Seq<(Seq<char>, Seq<char>)>,
) -> Result<RequestV, HandlerError> {
    if tag == "MyRequest"@ {
        match (field_of(ps, "$class"@), field_of(ps, "input"@), field_of(ps, "$timestamp"@)) {
            (Some(c), Some(i), Some(ts)) => Ok(
                RequestV::Invoke(MyRequestV { class: c, input: i, timestamp: ts }),
            ),
            _ => Err(HandlerError::DecodeError),
        }
    } else if tag == "HelloWorldClause"@ {
        match (
            field_of(ps, "$class"@),
            field_of(ps, "name"@),
            field_of(ps, "clauseId"@),
            field_of(ps, "$identifier"@),
        ) {
            (Some(c), Some(nm), Some(ci), Some(id)) => Ok(
                RequestV::Construct(
                    HelloWorldClauseV { class: c, name: nm, clause_id: ci, identifier: id },
                ),
            ),
            _ => Err(HandlerError::DecodeError),
        }
    } else if tag == "GenerateAgreementAsPDFRequest"@ {
        match field_of(ps, "notify_to"@) {
            Some(nt) => Ok(RequestV::Render(nt)),
            None => Err(HandlerError::DecodeError),
        }
    } else {
        Err(HandlerError::UnknownOperation)
    }
}

/// The meaning of response-envelope text: one tagged flat object with
/// nothing but whitespace after it.
pub open spec fn decode_response_spec(s: Seq<char>) -> Result<ResponseV, HandlerError> {
    match p_tagged(s) {
        None => Err(HandlerError::DecodeError),
        Some(((tag, ps), n)) => if only_ws(s.skip(n as int)) {
            response_of(tag, ps)
        } else {
            Err(HandlerError::DecodeError)
        },
    }
}

/// The meaning of request-envelope text: a `request` member holding
/// one tagged flat object.
pub open spec fn decode_request_spec(s: Seq<char>) -> Result<RequestV, HandlerError> {
    match p_ch(s, '{') {
        None => Err(HandlerError::DecodeError),
        Some(n1) => match p_string(s.skip(n1 as int)) {
            None => Err(HandlerError::DecodeError),
            Some((key, n2)) => if key != "request"@ {
                Err(HandlerError::DecodeError)
            } else {
                match p_ch(s.skip(n1 + n2 as int), ':') {
                    None => Err(HandlerError::DecodeError),
                    Some(n3) => match p_tagged(s.skip(n1 + n2 + n3 as int)) {
                        None => Err(HandlerError::DecodeError),
                        Some(((tag, ps), n4)) => match p_ch(s.skip(n1 + n2 + n3 + n4 as int), '}') {
                            None => Err(HandlerError::DecodeError),
                            Some(n5) => if only_ws(s.skip(n1 + n2 + n3 + n4 + n5 as int)) {
                                request_of(tag, ps)
                            } else {
                                Err(HandlerError::DecodeError)
                            },
                        },
                    },
                }
            },
        },
    }
}

/// A flat object as text, braces included.
pub open spec fn enc_obj(ps: Seq<(Seq<char>, Seq<char>)>) -> Seq<char> {
    seq!['{'] + members_txt(ps) + seq!['}']
}

/// A tagged flat object as text.
pub open spec fn enc_tagged(tag: Seq<char>, ps: Seq<(Seq<char>, Seq<char>)>) -> Seq<char> {
    seq!['{'] + enc_jstr(tag) + seq![':'] + enc_obj(ps) + seq!['}']
}

/// The discriminator tag of a response variant.
pub open spec fn response_tag(r: ResponseV) -> Seq<char> {
    match r {
        ResponseV::Invoke(_) => "MyResponse"@,
        ResponseV::Construct(_) => "HelloWorldClause"@,
        ResponseV::Render(_) => "GenerateAgreementAsPDFResponse"@,
    }
}

/// The fields a response variant carries, in encoded order.
pub open spec fn response_pairs(r: ResponseV) -> Seq<(Seq<char>, Seq<char>)> {
    match r {
        ResponseV::Invoke(m) => seq![
            ("$class"@, m.class),
            ("output"@, m.output),
            ("$timestamp"@, m.timestamp),
        ],
        ResponseV::Construct(c) => seq![
            ("$class"@, c.class),
            ("name"@, c.name),
            ("clauseId"@, c.clause_id),
            ("$identifier"@, c.identifier),
        ],
        ResponseV::Render(msg) => seq![("message"@, msg)],
    }
}

/// Response-envelope text for a response value.
pub open spec fn encode_response_spec(r: ResponseV) -> Seq<char> {
    enc_tagged(response_tag(r), response_pairs(r))
}

/// Parsing inverts escaping: the body parser applied to an escaped
/// string, its closing quote and anything after gives back the string
/// and consumes exactly through the quote.
pub proof fn lemma_p_str_body_esc(v: Seq<char>, rest: Seq<char>)
    ensures
        p_str_body(esc(v) + seq!['"'] + rest) == Some((v, (esc(v).len() + 1) as nat)),
    decreases v.len(),
{
    let s = esc(v) + seq!['"'] + rest;
    if v.len() == 0 {
        assert(esc(v) =~= Seq::<char>::empty());
        assert(s[0] == '"');
        assert(v =~= Seq::<char>::empty());
    } else {
        let c = v[0];
        let v1 = v.drop_first();
        lemma_p_str_body_esc(v1, rest);
        assert(esc(v) == esc_char(c) + esc(v1));
        let s1 = esc(v1) + seq!['"'] + rest;
        if c == '"' || c == '\\' || c == '\n' || c == '\t' || c == '\r' {
            assert(esc_char(c).len() == 2);
            assert(esc_char(c)[0] == '\\');
            assert(s[0] == '\\');
            assert(s[1] == esc_char(c)[1]);
            assert(unesc_code(esc_char(c)[1]) == Some(c));
            assert(s.skip(2) =~= s1);
            assert(seq![c] + v1 =~= v);
        } else {
            assert(esc_char(c) =~= seq![c]);
            assert(s[0] == c);
            assert(c != '"' && c != '\\');
            assert(s.drop_first() =~= s1);
            assert(seq![c] + v1 =~= v);
        }
    }
}

/// A string literal parses back to what was encoded, whatever follows.
proof fn lemma_p_string_enc(v: Seq<char>, rest: Seq<char>)
    ensures
        p_string(enc_jstr(v) + rest) == Some((v, (esc(v).len() + 2) as nat)),
{
    let s = enc_jstr(v) + rest;
    assert(s[0] == '"');
    assert(!is_ws('"'));
    assert(ws_len(s) == 0);
    assert(s.skip(1) =~= esc(v) + seq!['"'] + rest);
    lemma_p_str_body_esc(v, rest);
}

/// A non-whitespace character at the front is taken as itself.
proof fn lemma_p_ch_lit(c: char, rest: Seq<char>)
    requires
        !is_ws(c),
    ensures
        p_ch(seq![c] + rest, c) == Some(1nat),
{
    let s = seq![c] + rest;
    assert(s[0] == c);
    assert(ws_len(s) == 0);
}

/// Member text can also be read off from the front.
proof fn lemma_members_front(ps: Seq<(Seq<char>, Seq<char>)>)
    requires
        ps.len() >= 1,
    ensures
        ps.len() == 1 ==> members_txt(ps) == member_txt(ps[0]),
        ps.len() > 1 ==> members_txt(ps) == member_txt(ps[0]) + seq![','] + members_txt(
            ps.drop_first(),
        ),
    decreases ps.len(),
{
    if ps.len() > 1 {
        let q = ps.drop_last();
        let pf = ps.drop_first();
        lemma_members_front(q);
        if ps.len() == 2 {
            assert(q[0] == ps[0]);
            assert(pf.len() == 1);
            assert(pf[0] == ps[1]);
            assert(ps.last() == ps[1]);
            assert(members_txt(ps) == member_txt(ps[0]) + seq![','] + member_txt(ps[1]))
                by {
                assert(members_txt(q) == member_txt(ps[0]));
                assert(members_txt(ps) == members_txt(q) + seq![','] + member_txt(ps[1]));
            }
        } else {
            assert(q[0] == ps[0]);
            assert(q.drop_first() =~= pf.drop_last());
            assert(pf.last() == ps.last());
            assert(pf.len() > 1);
            assert(members_txt(pf) == members_txt(pf.drop_last()) + seq![','] + member_txt(
                pf.last(),
            ));
            assert(members_txt(q) == member_txt(ps[0]) + seq![','] + members_txt(pf.drop_last()));
            assert(members_txt(ps) == members_txt(q) + seq![','] + member_txt(ps.last()));
            assert(members_txt(ps) =~= member_txt(ps[0]) + seq![','] + members_txt(pf));
        }
    }
}

/// Member text is at least as long as the member count.
proof fn lemma_members_len(ps: Seq<(Seq<char>, Seq<char>)>)
    ensures
        members_txt(ps).len() >= ps.len(),
    decreases ps.len(),
{
    if ps.len() > 1 {
        lemma_members_len(ps.drop_last());
    }
}

/// Parsing one encoded member gives the pair back and consumes
/// exactly the member text, whatever follows.
proof fn lemma_member_parse(p: (Seq<char>, Seq<char>), tail: Seq<char>)
    ensures
        p_member(member_txt(p) + tail) == Some((p, member_txt(p).len() as nat)),
        (member_txt(p) + tail).skip(member_txt(p).len() as int) == tail,
{
    let s = member_txt(p) + tail;
    let r1 = seq![':'] + (enc_jstr(p.1) + tail);
    assert(s =~= enc_jstr(p.0) + r1);
    lemma_p_string_enc(p.0, r1);
    let n1 = esc(p.0).len() as int + 2;
    assert(s.skip(n1) =~= r1);
    lemma_p_ch_lit(':', enc_jstr(p.1) + tail);
    assert(r1.skip(1) =~= enc_jstr(p.1) + tail);
    assert(s.skip(n1 + 1) =~= enc_jstr(p.1) + tail);
    lemma_p_string_enc(p.1, tail);
    assert(member_txt(p).len() == n1 + 1 + esc(p.1).len() + 2);
    assert(s.skip(member_txt(p).len() as int) =~= tail);
    assert((p.0, p.1) == p);
}

/// A lone encoded member before the closing brace parses back.
#[verifier::spinoff_prover]
proof fn lemma_p_members_enc_one(p0: (Seq<char>, Seq<char>), rest: Seq<char>, fuel: nat)
    requires
        fuel >= 1,
    ensures
        p_members(member_txt(p0) + (seq!['}'] + rest), fuel) == Some(
            (seq![p0], (member_txt(p0).len() + 1) as nat),
        ),
{
    let tail = seq!['}'] + rest;
    let s = member_txt(p0) + tail;
    lemma_member_parse(p0, tail);
    let t = s.skip(member_txt(p0).len() as int);
    assert(t == tail);
    assert(t[0] == '}');
    assert(!is_ws('}'));
    assert(ws_len(t) == 0);
}

/// One encoded member, a comma, and members that already parse back
/// make a member list that parses back.
#[verifier::spinoff_prover]
proof fn lemma_p_members_enc_cons(
    p0: (Seq<char>, Seq<char>),
    ps1: Seq<(Seq<char>, Seq<char>)>,
    inner: Seq<char>,
    fuel: nat,
)
    requires
        fuel >= 1,
        p_members(inner, (fuel - 1) as nat) is Some,
    ensures
        p_members(member_txt(p0) + (seq![','] + inner), fuel) == Some(
            (
                seq![p0] + p_members(inner, (fuel - 1) as nat)->Some_0.0,
                (member_txt(p0).len() + 1 + p_members(inner, (fuel - 1) as nat)->Some_0.1) as nat,
            ),
        ),
{
    let tail = seq![','] + inner;
    let s = member_txt(p0) + tail;
    lemma_member_parse(p0, tail);
    let t = s.skip(member_txt(p0).len() as int);
    assert(t == tail);
    assert(t[0] == ',');
    assert(!is_ws(','));
    assert(ws_len(t) == 0);
    assert(t.skip(1) =~= inner);
}

/// Encoded members followed by a closing brace parse back exactly.
#[verifier::rlimit(100)]
#[verifier::spinoff_prover]
proof fn lemma_p_members_enc(ps: Seq<(Seq<char>, Seq<char>)>, rest: Seq<char>, fuel: nat)
    requires
        ps.len() >= 1,
        fuel >= ps.len(),
    ensures
        p_members(members_txt(ps) + seq!['}'] + rest, fuel) == Some(
            (ps, (members_txt(ps).len() + 1) as nat),
        ),
    decreases ps.len(),
{
    lemma_members_front(ps);
    let p0 = ps[0];
    if ps.len() == 1 {
        lemma_p_members_enc_one(p0, rest, fuel);
        assert(members_txt(ps) + seq!['}'] + rest =~= member_txt(p0) + (seq!['}'] + rest));
        assert(seq![p0] =~= ps);
    } else {
        let ps1 = ps.drop_first();
        lemma_p_members_enc(ps1, rest, (fuel - 1) as nat);
        let inner = members_txt(ps1) + seq!['}'] + rest;
        lemma_p_members_enc_cons(p0, ps1, inner, fuel);
        assert(members_txt(ps) + seq!['}'] + rest =~= member_txt(p0) + (seq![','] + inner));
        assert(seq![p0] + ps1 =~= ps);
        assert(members_txt(ps).len() == member_txt(p0).len() + 1 + members_txt(ps1).len());
    }
}

/// An encoded flat object parses back exactly.
proof fn lemma_p_flat_obj_enc(ps: Seq<(Seq<char>, Seq<char>)>, rest: Seq<char>)
    ensures
        p_flat_obj(enc_obj(ps) + rest) == Some((ps, enc_obj(ps).len() as nat)),
{
    let s = enc_obj(ps) + rest;
    assert(s[0] == '{');
    assert(!is_ws('{'));
    assert(ws_len(s) == 0);
    let t = s.skip(1);
    assert(t =~= members_txt(ps) + seq!['}'] + rest);
    if ps.len() == 0 {
        assert(members_txt(ps) =~= Seq::<char>::empty());
        assert(t =~= seq!['}'] + rest);
        assert(t[0] == '}');
        assert(ws_len(t) == 0);
        assert(Seq::<(Seq<char>, Seq<char>)>::empty() =~= ps);
    } else {
        lemma_members_front(ps);
        assert(members_txt(ps)[0] == '"') by {
            if ps.len() == 1 {
                assert(members_txt(ps) == member_txt(ps[0]));
            }
            assert(member_txt(ps[0])[0] == '"');
        }
        assert(t[0] == '"');
        assert(ws_len(t) == 0);
        lemma_members_len(ps);
        assert(t.len() >= ps.len());
        lemma_p_members_enc(ps, rest, t.len());
    }
}

/// An encoded tagged object parses back exactly.
#[verifier::rlimit(100)]
proof fn lemma_p_tagged_enc(tag: Seq<char>, ps: Seq<(Seq<char>, Seq<char>)>, rest: Seq<char>)
    ensures
        p_tagged(enc_tagged(tag, ps) + rest) == Some(
            ((tag, ps), enc_tagged(tag, ps).len() as nat),
        ),
{
    let s = enc_tagged(tag, ps) + rest;
    assert(s[0] == '{');
    assert(!is_ws('{'));
    assert(ws_len(s) == 0);
    let r1 = seq![':'] + (enc_obj(ps) + (seq!['}'] + rest));
    assert(s.skip(1) =~= enc_jstr(tag) + r1);
    lemma_p_string_enc(tag, r1);
    let n2 = esc(tag).len() as int + 2;
    lemma_p_ch_lit(':', enc_obj(ps) + (seq!['}'] + rest));
    assert(s.skip(1 + n2) =~= r1);
    assert(s.skip(1 + n2 + 1) =~= enc_obj(ps) + (seq!['}'] + rest));
    lemma_p_flat_obj_enc(ps, seq!['}'] + rest);
    let n4 = enc_obj(ps).len() as int;
    assert(s.skip(1 + n2 + 1 + n4) =~= seq!['}'] + rest);
    lemma_p_ch_lit('}', rest);
    assert(enc_tagged(tag, ps).len() == 1 + n2 + 1 + n4 + 1);
}

/// The fields of an encoded invocation response read back.
proof fn lemma_fields_invoke(m: MyResponseV)
    ensures
        response_of("MyResponse"@, response_pairs(ResponseV::Invoke(m))) == Ok::<
            ResponseV,
            HandlerError,
        >(ResponseV::Invoke(m)),
{
    reveal_strlit("$class");
    reveal_strlit("output");
    reveal_strlit("$timestamp");
    let ps = response_pairs(ResponseV::Invoke(m));
    let p1 = ps.drop_first();
    let p2 = p1.drop_first();
    assert(p1[0] == ps[1] && p1[1] == ps[2]);
    assert(p2[0] == ps[2]);
    assert("$class"@.len() == 6 && "output"@.len() == 6 && "$timestamp"@.len() == 10);
    assert("$class"@[0] == '$' && "output"@[0] == 'o');
    assert(field_of(ps, "$class"@) == Some(m.class));
    assert(field_of(p1, "output"@) == Some(m.output));
    assert(field_of(ps, "output"@) == Some(m.output));
    assert(field_of(p2, "$timestamp"@) == Some(m.timestamp));
    assert(field_of(p1, "$timestamp"@) == Some(m.timestamp));
    assert(field_of(ps, "$timestamp"@) == Some(m.timestamp));
}

/// The fields of an encoded construction response read back.
proof fn lemma_fields_construct(c: HelloWorldClauseV)
    ensures
        response_of("HelloWorldClause"@, response_pairs(ResponseV::Construct(c))) == Ok::<
            ResponseV,
            HandlerError,
        >(ResponseV::Construct(c)),
{
    reveal_strlit("MyResponse");
    reveal_strlit("HelloWorldClause");
    reveal_strlit("$class");
    reveal_strlit("name");
    reveal_strlit("clauseId");
    reveal_strlit("$identifier");
    assert("MyResponse"@.len() == 10 && "HelloWorldClause"@.len() == 16);
    assert("HelloWorldClause"@ != "MyResponse"@);
    let ps = response_pairs(ResponseV::Construct(c));
    let p1 = ps.drop_first();
    let p2 = p1.drop_first();
    let p3 = p2.drop_first();
    assert(p1[0] == ps[1] && p1[1] == ps[2] && p1[2] == ps[3]);
    assert(p2[0] == ps[2] && p2[1] == ps[3]);
    assert(p3[0] == ps[3]);
    assert("$class"@.len() == 6 && "name"@.len() == 4 && "clauseId"@.len() == 8
        && "$identifier"@.len() == 11);
    assert(field_of(ps, "$class"@) == Some(c.class));
    assert(field_of(p1, "name"@) == Some(c.name));
    assert(field_of(ps, "name"@) == Some(c.name));
    assert(field_of(p2, "clauseId"@) == Some(c.clause_id));
    assert(field_of(p1, "clauseId"@) == Some(c.clause_id));
    assert(field_of(ps, "clauseId"@) == Some(c.clause_id));
    assert(field_of(p3, "$identifier"@) == Some(c.identifier));
    assert(field_of(p2, "$identifier"@) == Some(c.identifier));
    assert(field_of(p1, "$identifier"@) == Some(c.identifier));
    assert(field_of(ps, "$identifier"@) == Some(c.identifier));
}

/// The field of an encoded render response reads back.
proof fn lemma_fields_render(msg: Seq<char>)
    ensures
        response_of("GenerateAgreementAsPDFResponse"@, response_pairs(ResponseV::Render(msg)))
            == Ok::<ResponseV, HandlerError>(ResponseV::Render(msg)),
{
    reveal_strlit("MyResponse");
    reveal_strlit("HelloWorldClause");
    reveal_strlit("GenerateAgreementAsPDFResponse");
    reveal_strlit("message");
    assert("MyResponse"@.len() == 10 && "HelloWorldClause"@.len() == 16
        && "GenerateAgreementAsPDFResponse"@.len() == 30);
    let ps = response_pairs(ResponseV::Render(msg));
    assert(field_of(ps, "message"@) == Some(msg));
}

/// Whether a character is JSON whitespace.
fn is_ws_x(c: char) -> (b: bool)
    ensures
        b == is_ws(c),
{
    c == ' ' || c == '\n' || c == '\t' || c == '\r'
}

/// Position after the leading whitespace from `pos` on.
fn skip_ws_x(chars: &Vec<char>, pos: usize) -> (r: usize)
    requires
        pos <= chars.len(),
    ensures
        pos <= r <= chars.len(),
        r - pos == ws_len(chars@.skip(pos as int)),
        r < chars.len() ==> !is_ws(chars@[r as int]),
{
    let n = chars.len();
    let mut i = pos;
    while i < n && is_ws_x(chars[i])
        invariant
            pos <= i <= n,
            n == chars.len(),
            ws_len(chars@.skip(pos as int)) == (i - pos) + ws_len(chars@.skip(i as int)),
        decreases n - i,
    {
        proof {
            let t = chars@.skip(i as int);
            assert(t[0] == chars@[i as int]);
            assert(t.drop_first() =~= chars@.skip(i as int + 1));
        }
        i = i + 1;
    }
    proof {
        let t = chars@.skip(i as int);
        if i < n {
            assert(t[0] == chars@[i as int]);
        }
        assert(ws_len(t) == 0);
    }
    i
}

/// The character one single-character escape code stands for.
fn unesc_code_x(c: char) -> (r: Option<char>)
    ensures
        r == unesc_code(c),
{
    if c == '"' {
        Some('"')
    } else if c == '\\' {
        Some('\\')
    } else if c == '/' {
        Some('/')
    } else if c == 'n' {
        Some('\n')
    } else if c == 't' {
        Some('\t')
    } else if c == 'r' {
        Some('\r')
    } else if c == 'b' {
        Some('\u{8}')
    } else if c == 'f' {
        Some('\u{c}')
    } else {
        None
    }
}

/// Reads a JSON string literal's body starting after its opening
/// quote, through its closing quote.
fn jstr_body_x(chars: &Vec<char>, pos: usize) -> (r: Option<(String, usize)>)
    requires
        pos <= chars.len(),
    ensures
        match r {
            Some((v, np)) => pos < np <= chars.len() && p_str_body(chars@.skip(pos as int))
                == Some((v@, (np - pos) as nat)),
            None => p_str_body(chars@.skip(pos as int)) is None,
        },
    decreases chars.len() - pos,
{
    let ghost s = chars@.skip(pos as int);
    if pos >= chars.len() {
        return None;
    }
    let c = chars[pos];
    proof {
        assert(s[0] == chars@[pos as int]);
    }
    if c == '"' {
        Some((String::new(), pos + 1))
    } else if c == '\\' {
        if pos + 1 >= chars.len() {
            return None;
        }
        proof {
            assert(s[1] == chars@[pos as int + 1]);
        }
        match unesc_code_x(chars[pos + 1]) {
            None => None,
            Some(u) => {
                proof {
                    assert(s.skip(2) =~= chars@.skip(pos as int + 2));
                }
                match jstr_body_x(chars, pos + 2) {
                    None => None,
                    Some((t, np)) => {
                        let mut v = String::new();
                        push_char(&mut v, u);
                        v.append(t.as_str());
                        proof {
                            assert(v@ =~= seq![u] + t@);
                        }
                        Some((v, np))
                    },
                }
            },
        }
    } else {
        proof {
            assert(s.drop_first() =~= chars@.skip(pos as int + 1));
        }
        match jstr_body_x(chars, pos + 1) {
            None => None,
            Some((t, np)) => {
                let mut v = String::new();
                push_char(&mut v, c);
                v.append(t.as_str());
                proof {
                    assert(v@ =~= seq![c] + t@);
                }
                Some((v, np))
            },
        }
    }
}

/// Reads optional whitespace, then a JSON string literal.
fn string_x(chars: &Vec<char>, pos: usize) -> (r: Option<(String, usize)>)
    requires
        pos <= chars.len(),
    ensures
        match r {
            Some((v, np)) => pos < np <= chars.len() && p_string(chars@.skip(pos as int))
                == Some((v@, (np - pos) as nat)),
            None => p_string(chars@.skip(pos as int)) is None,
        },
{
    let ghost s = chars@.skip(pos as int);
    let k = skip_ws_x(chars, pos);
    proof {
        assert(ws_len(s) == k - pos);
        if k < chars.len() {
            assert(s[k - pos] == chars@[k as int]);
        }
    }
    if k >= chars.len() {
        return None;
    }
    if chars[k] != '"' {
        return None;
    }
    proof {
        assert(s.skip(k - pos + 1) =~= chars@.skip(k as int + 1));
    }
    match jstr_body_x(chars, k + 1) {
        None => None,
        Some((v, np)) => Some((v, np)),
    }
}

/// Reads optional whitespace, then one expected character.
fn ch_x(chars: &Vec<char>, pos: usize, c: char) -> (r: Option<usize>)
    requires
        pos <= chars.len(),
        !is_ws(c),
    ensures
        match r {
            Some(np) => pos < np <= chars.len() && p_ch(chars@.skip(pos as int), c)
                == Some((np - pos) as nat),
            None => p_ch(chars@.skip(pos as int), c) is None,
        },
{
    let ghost s = chars@.skip(pos as int);
    let k = skip_ws_x(chars, pos);
    proof {
        assert(ws_len(s) == k - pos);
        if k < chars.len() {
            assert(s[k - pos] == chars@[k as int]);
        }
    }
    if k >= chars.len() {
        return None;
    }
    if chars[k] == c {
        Some(k + 1)
    } else {
        None
    }
}

/// Reads one member of a flat object: key, colon, string value.
fn member_x(chars: &Vec<char>, pos: usize) -> (r: Option<((String, String), usize)>)
    requires
        pos <= chars.len(),
    ensures
        match r {
            Some(((key, val), np)) => pos < np <= chars.len() && p_member(
                chars@.skip(pos as int),
            ) == Some(((key@, val@), (np - pos) as nat)),
            None => p_member(chars@.skip(pos as int)) is None,
        },
{
    let ghost s = chars@.skip(pos as int);
    let (key, p1) = match string_x(chars, pos) {
        None => {
            return None;
        },
        Some(kv) => kv,
    };
    proof {
        assert(s.skip(p1 - pos) =~= chars@.skip(p1 as int));
    }
    let p2 = match ch_x(chars, p1, ':') {
        None => {
            return None;
        },
        Some(p) => p,
    };
    proof {
        assert(s.skip(p2 - pos) =~= chars@.skip(p2 as int));
    }
    let (val, p3) = match string_x(chars, p2) {
        None => {
            return None;
        },
        Some(vv) => vv,
    };
    Some(((key, val), p3))
}

/// Reads the members of a flat object, through its closing brace.
fn members_x(chars: &Vec<char>, pos: usize, fuel: usize) -> (r: Option<
    (Vec<(String, String)>, usize),
>)
    requires
        pos <= chars.len(),
    ensures
        match r {
            Some((ps, np)) => pos < np <= chars.len() && p_members(
                chars@.skip(pos as int),
                fuel as nat,
            ) == Some((ps@.map_values(|p: (String, String)| (p.0@, p.1@)), (np - pos) as nat)),
            None => p_members(chars@.skip(pos as int), fuel as nat) is None,
        },
    decreases fuel,
{
    let ghost s = chars@.skip(pos as int);
    if fuel == 0 {
        return None;
    }
    let ((key, val), p3) = match member_x(chars, pos) {
        None => {
            return None;
        },
        Some(kv) => kv,
    };
    proof {
        assert(s.skip(p3 - pos) =~= chars@.skip(p3 as int));
    }
    let ghost t = s.skip(p3 - pos);
    let k = skip_ws_x(chars, p3);
    proof {
        assert(ws_len(t) == k - p3);
        if k < chars.len() {
            assert(t[k - p3] == chars@[k as int]);
        }
        lemma_ws_len_le(t);
    }
    if k >= chars.len() {
        return None;
    }
    let c = chars[k];
    if c == ',' {
        proof {
            assert(t.skip(k - p3 + 1) =~= chars@.skip(k as int + 1));
        }
        match members_x(chars, k + 1, fuel - 1) {
            None => None,
            Some((ps, np)) => {
                let mut ps = ps;
                ps.insert(0, (key, val));
                proof {
                    assert(ps@.map_values(|p: (String, String)| (p.0@, p.1@)) =~= seq![
                        (key@, val@),
                    ] + ps@.drop_first().map_values(|p: (String, String)| (p.0@, p.1@)));
                }
                Some((ps, np))
            },
        }
    } else if c == '}' {
        let mut out: Vec<(String, String)> = Vec::new();
        out.push((key, val));
        proof {
            assert(out@.map_values(|p: (String, String)| (p.0@, p.1@)) =~= seq![(key@, val@)]);
        }
        Some((out, k + 1))
    } else {
        None
    }
}

/// Reads a flat object of string fields, braces included.
fn flat_obj_x(chars: &Vec<char>, pos: usize) -> (r: Option<(Vec<(String, String)>, usize)>)
    requires
        pos <= chars.len(),
    ensures
        match r {
            Some((ps, np)) => pos < np <= chars.len() && p_flat_obj(chars@.skip(pos as int))
                == Some((ps@.map_values(|p: (String, String)| (p.0@, p.1@)), (np - pos) as nat)),
            None => p_flat_obj(chars@.skip(pos as int)) is None,
        },
{
    let ghost s = chars@.skip(pos as int);
    let p1 = match ch_x(chars, pos, '{') {
        None => {
            return None;
        },
        Some(p) => p,
    };
    let ghost t = s.skip(p1 - pos);
    proof {
        assert(t =~= chars@.skip(p1 as int));
    }
    let k = skip_ws_x(chars, p1);
    proof {
        assert(ws_len(t) == k - p1);
        if k < chars.len() {
            assert(t[k - p1] == chars@[k as int]);
        }
        lemma_ws_len_le(t);
    }
    if k < chars.len() && chars[k] == '}' {
        let out: Vec<(String, String)> = Vec::new();
        proof {
            assert(out@.map_values(|p: (String, String)| (p.0@, p.1@)) =~= Seq::<
                (Seq<char>, Seq<char>),
            >::empty());
        }
        return Some((out, k + 1));
    }
    match members_x(chars, p1, chars.len() - p1) {
        None => None,
        Some((ps, np)) => Some((ps, np)),
    }
}

/// Reads one tagged flat object, `{"Tag":{...}}`.
#[verifier::rlimit(60)]
fn tagged_x(chars: &Vec<char>, pos: usize) -> (r: Option<((String, Vec<(String, String)>), usize)>)
    requires
        pos <= chars.len(),
    ensures
        match r {
            Some(((tag, ps), np)) => pos < np <= chars.len() && p_tagged(chars@.skip(pos as int))
                == Some(
                ((tag@, ps@.map_values(|p: (String, String)| (p.0@, p.1@))), (np - pos) as nat),
            ),
            None => p_tagged(chars@.skip(pos as int)) is None,
        },
{
    let ghost s = chars@.skip(pos as int);
    let p1 = match ch_x(chars, pos, '{') {
        None => {
            return None;
        },
        Some(p) => p,
    };
    proof {
        assert(s.skip(p1 - pos) =~= chars@.skip(p1 as int));
    }
    let (tag, p2) = match string_x(chars, p1) {
        None => {
            return None;
        },
        Some(tv) => tv,
    };
    proof {
        assert(s.skip(p2 - pos) =~= chars@.skip(p2 as int));
    }
    let p3 = match ch_x(chars, p2, ':') {
        None => {
            return None;
        },
        Some(p) => p,
    };
    proof {
        assert(s.skip(p3 - pos) =~= chars@.skip(p3 as int));
    }
    let (ps, p4) = match flat_obj_x(chars, p3) {
        None => {
            return None;
        },
        Some(ov) => ov,
    };
    proof {
        assert(s.skip(p4 - pos) =~= chars@.skip(p4 as int));
    }
    let p5 = match ch_x(chars, p4, '}') {
        None => {
            return None;
        },
        Some(p) => p,
    };
    Some(((tag, ps), p5))
}

/// A scan that saw no match up to a matching position pins the field.
proof fn lemma_field_found(ps: Seq<(Seq<char>, Seq<char>)>, key: Seq<char>, i: int)
    requires
        0 <= i < ps.len(),
        ps[i].0 == key,
        forall|j: int| 0 <= j < i ==> ps[j].0 != key,
    ensures
        field_of(ps, key) == Some(ps[i].1),
    decreases i,
{
    if i > 0 {
        assert forall|j: int| 0 <= j < i - 1 implies ps.drop_first()[j].0 != key by {
            assert(ps.drop_first()[j] == ps[j + 1]);
        }
        lemma_field_found(ps.drop_first(), key, i - 1);
    }
}

/// A scan that saw no match anywhere means the field is absent.
proof fn lemma_field_absent(ps: Seq<(Seq<char>, Seq<char>)>, key: Seq<char>)
    requires
        forall|j: int| 0 <= j < ps.len() ==> ps[j].0 != key,
    ensures
        field_of(ps, key) is None,
    decreases ps.len(),
{
    if ps.len() > 0 {
        assert forall|j: int| 0 <= j < ps.len() - 1 implies ps.drop_first()[j].0 != key by {
            assert(ps.drop_first()[j] == ps[j + 1]);
        }
        lemma_field_absent(ps.drop_first(), key);
    }
}

/// The first field with the given key, copied out.
fn field_x(pairs: &Vec<(String, String)>, key: &str) -> (r: Option<String>)
    ensures
        ({
            let ps = pairs@.map_values(|p: (String, String)| (p.0@, p.1@));
            match r {
                Some(v) => field_of(ps, key@) == Some(v@),
                None => field_of(ps, key@) is None,
            }
        }),
{
    let ghost ps = pairs@.map_values(|p: (String, String)| (p.0@, p.1@));
    let k = String::from_str(key);
    let n = pairs.len();
    let mut i: usize = 0;
    while i < n
        invariant
            n == pairs.len(),
            i <= n,
            k@ == key@,
            ps == pairs@.map_values(|p: (String, String)| (p.0@, p.1@)),
            forall|j: int| 0 <= j < i ==> ps[j].0 != key@,
        decreases n - i,
    {
        proof {
            assert(ps[i as int] == (pairs@[i as int].0@, pairs@[i as int].1@));
        }
        if pairs[i].0 == k {
            proof {
                lemma_field_found(ps, key@, i as int);
            }
            return Some(pairs[i].1.clone());
        }
        i = i + 1;
    }
    proof {
        lemma_field_absent(ps, key@);
    }
    None
}

/// Builds the response a tagged flat object denotes.
fn response_from_fields(tag: &String, pairs: &Vec<(String, String)>) -> (r: Result<
    ResponseType,
    HandlerError,
>)
    ensures
        ({
            let ps = pairs@.map_values(|p: (String, String)| (p.0@, p.1@));
            match r {
                Ok(resp) => response_of(tag@, ps) == Ok::<ResponseV, HandlerError>(resp@),
                Err(e) => response_of(tag@, ps) == Err::<ResponseV, HandlerError>(e),
            }
        }),
{
    if *tag == String::from_str("MyResponse") {
        match (field_x(pairs, "$class"), field_x(pairs, "output"), field_x(pairs, "$timestamp")) {
            (Some(c), Some(o), Some(ts)) => Ok(
                ResponseType::MyResponse(MyResponse { _class: c, output: o, _timestamp: ts }),
            ),
            _ => Err(HandlerError::DecodeError),
        }
    } else if *tag == String::from_str("HelloWorldClause") {
        match (
            field_x(pairs, "$class"),
            field_x(pairs, "name"),
            field_x(pairs, "clauseId"),
            field_x(pairs, "$identifier"),
        ) {
            (Some(c), Some(nm), Some(ci), Some(id)) => Ok(
                ResponseType::HelloWorldClause(
                    HelloWorldClause { _class: c, name: nm, clause_id: ci, _identifier: id },
                ),
            ),
            _ => Err(HandlerError::DecodeError),
        }
    } else if *tag == String::from_str("GenerateAgreementAsPDFResponse") {
        match field_x(pairs, "message") {
            Some(m) => Ok(
                ResponseType::GenerateAgreementAsPDFResponse(
                    GenerateAgreementAsPDFResponse { message: m },
                ),
            ),
            None => Err(HandlerError::DecodeError),
        }
    } else {
        Err(HandlerError::UnknownOperation)
    }
}

/// Builds the request a tagged flat object denotes.
fn request_from_fields(tag: &String, pairs: &Vec<(String, String)>) -> (r: Result<
    RequestType,
    HandlerError,
>)
    ensures
        ({
            let ps = pairs@.map_values(|p: (String, String)| (p.0@, p.1@));
            match r {
                Ok(req) => request_of(tag@, ps) == Ok::<RequestV, HandlerError>(req@),
                Err(e) => request_of(tag@, ps) == Err::<RequestV, HandlerError>(e),
            }
        }),
{
    if *tag == String::from_str("MyRequest") {
        match (field_x(pairs, "$class"), field_x(pairs, "input"), field_x(pairs, "$timestamp")) {
            (Some(c), Some(i), Some(ts)) => Ok(
                RequestType::MyRequest(MyRequest { _class: c, input: i, _timestamp: ts }),
            ),
            _ => Err(HandlerError::DecodeError),
        }
    } else if *tag == String::from_str("HelloWorldClause") {
        match (
            field_x(pairs, "$class"),
            field_x(pairs, "name"),
            field_x(pairs, "clauseId"),
            field_x(pairs, "$identifier"),
        ) {
            (Some(c), Some(nm), Some(ci), Some(id)) => Ok(
                RequestType::HelloWorldClause(
                    HelloWorldClause { _class: c, name: nm, clause_id: ci, _identifier: id },
                ),
            ),
            _ => Err(HandlerError::DecodeError),
        }
    } else if *tag == String::from_str("GenerateAgreementAsPDFRequest") {
        match field_x(pairs, "notify_to") {
            Some(nt) => Ok(
                RequestType::GenerateAgreementAsPDFRequest(
                    GenerateAgreementAsPDFRequest { notify_to: nt },
                ),
            ),
            None => Err(HandlerError::DecodeError),
        }
    } else {
        Err(HandlerError::UnknownOperation)
    }
}

/// Decodes response-envelope text: the inverse of [`encode_response`]
/// on anything that function emits.
pub fn decode_response(s: &str) -> (r: Result<ResponseType, HandlerError>)
    ensures
        match r {
            Ok(resp) => decode_response_spec(s@) == Ok::<ResponseV, HandlerError>(resp@),
            Err(e) => decode_response_spec(s@) == Err::<ResponseV, HandlerError>(e),
        },
{
    let chars = crate::text::str_to_chars(s);
    proof {
        assert(chars@.skip(0) =~= s@);
    }
    match tagged_x(&chars, 0) {
        None => Err(HandlerError::DecodeError),
        Some(((tag, ps), np)) => {
            let k = skip_ws_x(&chars, np);
            proof {
                lemma_ws_len_le(chars@.skip(np as int));
            }
            if k < chars.len() {
                return Err(HandlerError::DecodeError);
            }
            response_from_fields(&tag, &ps)
        },
    }
}

/// Decodes request-envelope text: one `request` member holding the
/// tagged operation payload.
#[verifier::rlimit(60)]
#[verifier::spinoff_prover]
pub fn decode_request(s: &str) -> (r: Result<RequestType, HandlerError>)
    ensures
        match r {
            Ok(req) => decode_request_spec(s@) == Ok::<RequestV, HandlerError>(req@),
            Err(e) => decode_request_spec(s@) == Err::<RequestV, HandlerError>(e),
        },
{
    let chars = crate::text::str_to_chars(s);
    proof {
        assert(chars@.skip(0) =~= s@);
    }
    let p1 = match ch_x(&chars, 0, '{') {
        None => {
            return Err(HandlerError::DecodeError);
        },
        Some(p) => p,
    };
    proof {
        assert(s@.skip(p1 as int) =~= chars@.skip(p1 as int));
    }
    let (key, p2) = match string_x(&chars, p1) {
        None => {
            return Err(HandlerError::DecodeError);
        },
        Some(kv) => kv,
    };
    if !(key == String::from_str("request")) {
        return Err(HandlerError::DecodeError);
    }
    proof {
        assert(s@.skip(p2 as int) =~= chars@.skip(p2 as int));
    }
    let p3 = match ch_x(&chars, p2, ':') {
        None => {
            return Err(HandlerError::DecodeError);
        },
        Some(p) => p,
    };
    proof {
        assert(s@.skip(p3 as int) =~= chars@.skip(p3 as int));
    }
    let ((tag, ps), p4) = match tagged_x(&chars, p3) {
        None => {
            return Err(HandlerError::DecodeError);
        },
        Some(tv) => tv,
    };
    proof {
        assert(s@.skip(p4 as int) =~= chars@.skip(p4 as int));
    }
    let p5 = match ch_x(&chars, p4, '}') {
        None => {
            return Err(HandlerError::DecodeError);
        },
        Some(p) => p,
    };
    let k = skip_ws_x(&chars, p5);
    proof {
        lemma_ws_len_le(chars@.skip(p5 as int));
        assert(s@.skip(p5 as int) =~= chars@.skip(p5 as int));
    }
    if k < chars.len() {
        return Err(HandlerError::DecodeError);
    }
    request_from_fields(&tag, &ps)
}

/// The tag and fields a response encodes to.
fn response_parts(response: &ResponseType) -> (r: (String, Vec<(String, String)>))
    ensures
        r.0@ == response_tag(response@),
        r.1@.map_values(|p: (String, String)| (p.0@, p.1@)) == response_pairs(response@),
{
    match response {
        ResponseType::MyResponse(m) => {
            let mut v: Vec<(String, String)> = Vec::new();
            v.push((String::from_str("$class"), m._class.clone()));
            v.push((String::from_str("output"), m.output.clone()));
            v.push((String::from_str("$timestamp"), m._timestamp.clone()));
            proof {
                assert(v@.map_values(|p: (String, String)| (p.0@, p.1@)) =~= response_pairs(
                    response@,
                ));
            }
            (String::from_str("MyResponse"), v)
        },
        ResponseType::HelloWorldClause(c) => {
            let mut v: Vec<(String, String)> = Vec::new();
            v.push((String::from_str("$class"), c._class.clone()));
            v.push((String::from_str("name"), c.name.clone()));
            v.push((String::from_str("clauseId"), c.clause_id.clone()));
            v.push((String::from_str("$identifier"), c._identifier.clone()));
            proof {
                assert(v@.map_values(|p: (String, String)| (p.0@, p.1@)) =~= response_pairs(
                    response@,
                ));
            }
            (String::from_str("HelloWorldClause"), v)
        },
        ResponseType::GenerateAgreementAsPDFResponse(g) => {
            let mut v: Vec<(String, String)> = Vec::new();
            v.push((String::from_str("message"), g.message.clone()));
            proof {
                assert(v@.map_values(|p: (String, String)| (p.0@, p.1@)) =~= response_pairs(
                    response@,
                ));
            }
            (String::from_str("GenerateAgreementAsPDFResponse"), v)
        },
    }
}

/// Encodes a response as envelope text.
pub fn encode_response(response: &ResponseType) -> (out: String)
    ensures
        out@ == encode_response_spec(response@),
{
    let (tag, pairs) = response_parts(response);
    let mut out = String::new();
    push_char(&mut out, '{');
    append_jstr(&mut out, tag.as_str());
    push_char(&mut out, ':');
    push_char(&mut out, '{');
    append_members(&mut out, &pairs);
    push_char(&mut out, '}');
    push_char(&mut out, '}');
    proof {
        assert(out@ =~= encode_response_spec(response@));
    }
    out
}

/// Round trip of the response envelope: encoding any response value
/// and decoding the text gives back the same value, field for field.
pub proof fn lemma_response_round_trip(r: ResponseV)
    ensures
        decode_response_spec(encode_response_spec(r)) == Ok::<ResponseV, HandlerError>(r),
{
    let tag = response_tag(r);
    let ps = response_pairs(r);
    let s = encode_response_spec(r);
    lemma_p_tagged_enc(tag, ps, Seq::empty());
    assert(enc_tagged(tag, ps) + Seq::<char>::empty() =~= s);
    assert(p_tagged(s) == Some(((tag, ps), s.len() as nat)));
    assert(s.skip(s.len() as int) =~= Seq::<char>::empty());
    assert(only_ws(Seq::<char>::empty()));
    match r {
        ResponseV::Invoke(m) => {
            lemma_fields_invoke(m);
        },
        ResponseV::Construct(c) => {
            lemma_fields_construct(c);
        },
        ResponseV::Render(msg) => {
            lemma_fields_render(msg);
        },
    }
}

} // verus!
