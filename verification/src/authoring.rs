//! Proposal authoring: builds the fixed generation instructions, parses
//! the collaborator's reply as a JSON object of string fields, and turns
//! a successful parse into a stored proposal. Also builds the flattened
//! chat transcript handed to the text-generation collaborator.

use vstd::prelude::*;
use crate::model::{ChatTurn, GeneratedProposalDescription, State, opt_view};
use crate::ident::id_of;
use crate::store::fresh_proposal;
use crate::snapshot::string_from_utf8;
use vstd::utf8::{decode_utf8, valid_utf8, encode_scalar};
use vstd::string::StringSliceAdditionalSpecFns;

verus! {

broadcast use vstd::utf8::encode_utf8_valid_utf8, vstd::utf8::encode_utf8_decode_utf8;

// ----------------------------------------------------------------------
// The accepted reply grammar: a JSON object whose members are string
// values (standard single-character escapes and basic-plane unicode
// escapes, no surrogate pairs), with
// the members `title`, `description` and `full_description` present.
// ----------------------------------------------------------------------

pub open spec fn is_ws(c: u8) -> bool {
    c == 32 || c == 9 || c == 10 || c == 13
}

/// Drops leading JSON whitespace.
pub open spec fn skip_ws(b: Seq<u8>) -> Seq<u8>
    decreases b.len(),
{
    if b.len() > 0 && is_ws(b[0]) {
        skip_ws(b.drop_first())
    } else {
        b
    }
}

/// The byte an escape letter stands for, if the escape is accepted.
pub open spec fn esc_byte(c: u8) -> Option<u8> {
    if c == 34 { Some(34u8) }       // \"
    else if c == 92 { Some(92u8) }  // backslash
    else if c == 47 { Some(47u8) }  // \/
    else if c == 98 { Some(8u8) }   // \b
    else if c == 102 { Some(12u8) } // \f
    else if c == 110 { Some(10u8) } // \n
    else if c == 114 { Some(13u8) } // \r
    else if c == 116 { Some(9u8) }  // \t
    else { None }
}

/// The value of a hexadecimal digit character, if it is one.
pub open spec fn hex_val(c: u8) -> Option<u32> {
    if 48 <= c && c <= 57 {
        Some((c - 48) as u32)
    } else if 97 <= c && c <= 102 {
        Some((c - 87) as u32)
    } else if 65 <= c && c <= 70 {
        Some((c - 55) as u32)
    } else {
        None
    }
}

/// The scalar a `\uXXXX` escape denotes, if its four digits are
/// hexadecimal and the value is not a surrogate.
pub open spec fn u_escape_val(b: Seq<u8>) -> Option<u32>
    recommends
        b.len() == 4,
{
    match (hex_val(b[0]), hex_val(b[1]), hex_val(b[2]), hex_val(b[3])) {
        (Some(h3), Some(h2), Some(h1), Some(h0)) => {
            let code = (h3 * 4096 + h2 * 256 + h1 * 16 + h0) as u32;
            if 0xD800 <= code && code <= 0xDFFF {
                None
            } else {
                Some(code)
            }
        },
        _ => None,
    }
}

/// Parses the body of a quoted string (the opening quote already
/// consumed): the unescaped content bytes and the rest of the input.
pub open spec fn parse_jstr_content(b: Seq<u8>) -> Option<(Seq<u8>, Seq<u8>)>
    decreases b.len(),
{
    if b.len() == 0 {
        None
    } else if b[0] == 34 {
        Some((Seq::empty(), b.drop_first()))
    } else if b[0] == 92 {
        if b.len() < 2 {
            None
        } else if b[1] == 117 {
            if b.len() < 6 {
                None
            } else {
                match u_escape_val(b.subrange(2, 6)) {
                    None => None,
                    Some(code) => match parse_jstr_content(b.skip(6)) {
                        None => None,
                        Some((cs, r)) => Some((encode_scalar(code) + cs, r)),
                    },
                }
            }
        } else {
            match esc_byte(b[1]) {
                None => None,
                Some(e) => match parse_jstr_content(b.skip(2)) {
                    None => None,
                    Some((cs, r)) => Some((seq![e] + cs, r)),
                },
            }
        }
    } else if b[0] < 32 {
        None
    } else {
        match parse_jstr_content(b.drop_first()) {
            None => None,
            Some((cs, r)) => Some((seq![b[0]] + cs, r)),
        }
    }
}

/// Parses a quoted string after optional whitespace.
pub open spec fn parse_jstr(b: Seq<u8>) -> Option<(Seq<u8>, Seq<u8>)> {
    let b2 = skip_ws(b);
    if b2.len() == 0 || b2[0] != 34 {
        None
    } else {
        parse_jstr_content(b2.drop_first())
    }
}

pub open spec fn title_key() -> Seq<u8> {
    seq![116u8, 105u8, 116u8, 108u8, 101u8]
}

pub open spec fn description_key() -> Seq<u8> {
    seq![100u8, 101u8, 115u8, 99u8, 114u8, 105u8, 112u8, 116u8, 105u8, 111u8, 110u8]
}

pub open spec fn full_description_key() -> Seq<u8> {
    seq![102u8, 117u8, 108u8, 108u8, 95u8, 100u8, 101u8, 115u8, 99u8, 114u8, 105u8, 112u8,
        116u8, 105u8, 111u8, 110u8]
}

/// Binds a member to the matching field; a repeated key keeps the later
/// binding; an unknown key is ignored.
pub open spec fn assign_member(
    k: Seq<u8>,
    v: Seq<u8>,
    t: Option<Seq<u8>>,
    d: Option<Seq<u8>>,
    f: Option<Seq<u8>>,
) -> (Option<Seq<u8>>, Option<Seq<u8>>, Option<Seq<u8>>) {
    if k == title_key() {
        (Some(v), d, f)
    } else if k == description_key() {
        (t, Some(v), f)
    } else if k == full_description_key() {
        (t, d, Some(v))
    } else {
        (t, d, f)
    }
}

proof fn lemma_skip_ws_len(b: Seq<u8>)
    ensures
        skip_ws(b).len() <= b.len(),
    decreases b.len(),
{
    if b.len() > 0 && is_ws(b[0]) {
        lemma_skip_ws_len(b.drop_first());
    }
}

proof fn lemma_content_len(b: Seq<u8>)
    ensures
        parse_jstr_content(b) matches Some((cs, r)) ==> r.len() < b.len(),
    decreases b.len(),
{
    if b.len() == 0 {
    } else if b[0] == 34 {
    } else if b[0] == 92 {
        if b.len() >= 6 {
            lemma_content_len(b.skip(6));
        }
        if b.len() >= 2 {
            lemma_content_len(b.skip(2));
        }
    } else {
        lemma_content_len(b.drop_first());
    }
}

proof fn lemma_jstr_len(b: Seq<u8>)
    ensures
        parse_jstr(b) matches Some((v, r)) ==> r.len() < b.len(),
{
    lemma_skip_ws_len(b);
    let b2 = skip_ws(b);
    if b2.len() > 0 && b2[0] == 34 {
        lemma_content_len(b2.drop_first());
    }
}

/// Parses one or more `"key": "value"` members up to the closing brace,
/// carrying the bindings of the three wanted fields.
pub open spec fn parse_members(
    b: Seq<u8>,
    t: Option<Seq<u8>>,
    d: Option<Seq<u8>>,
    f: Option<Seq<u8>>,
) -> Option<(Option<Seq<u8>>, Option<Seq<u8>>, Option<Seq<u8>>, Seq<u8>)>
    decreases b.len(),
    via parse_members_dec
{
    match parse_jstr(b) {
        None => None,
        Some((k, r)) => {
            let r2 = skip_ws(r);
            if r2.len() == 0 || r2[0] != 58 {
                None
            } else {
                match parse_jstr(r2.drop_first()) {
                    None => None,
                    Some((v, r3)) => {
                        let tdf = assign_member(k, v, t, d, f);
                        let r4 = skip_ws(r3);
                        if r4.len() == 0 {
                            None
                        } else if r4[0] == 44 {
                            parse_members(r4.drop_first(), tdf.0, tdf.1, tdf.2)
                        } else if r4[0] == 125 {
                            Some((tdf.0, tdf.1, tdf.2, r4.drop_first()))
                        } else {
                            None
                        }
                    },
                }
            }
        },
    }
}

#[via_fn]
proof fn parse_members_dec(b: Seq<u8>, t: Option<Seq<u8>>, d: Option<Seq<u8>>, f: Option<Seq<u8>>) {
    lemma_jstr_len(b);
    match parse_jstr(b) {
        None => {},
        Some((k, r)) => {
            lemma_skip_ws_len(r);
            let r2 = skip_ws(r);
            if r2.len() > 0 && r2[0] == 58 {
                lemma_jstr_len(r2.drop_first());
                match parse_jstr(r2.drop_first()) {
                    None => {},
                    Some((v, r3)) => {
                        lemma_skip_ws_len(r3);
                    },
                }
            }
        },
    }
}

/// The whole accepted reply: an object of string members, nothing around
/// it, the three wanted fields present and valid UTF-8.
pub open spec fn parse_generated_spec(b: Seq<u8>) -> Option<
    (Seq<char>, Seq<char>, Seq<char>),
> {
    let b1 = skip_ws(b);
    if b1.len() == 0 || b1[0] != 123 {
        None
    } else {
        match parse_members(b1.drop_first(), None, None, None) {
            None => None,
            Some((t, d, f, rest)) => if skip_ws(rest).len() != 0 {
                None
            } else {
                match (t, d, f) {
                    (Some(tb), Some(db), Some(fb)) => if valid_utf8(tb) && valid_utf8(db)
                        && valid_utf8(fb) {
                        Some((decode_utf8(tb), decode_utf8(db), decode_utf8(fb)))
                    } else {
                        None
                    },
                    _ => None,
                }
            },
        }
    }
}


// ----------------------------------------------------------------------
// Exec parser
// ----------------------------------------------------------------------

#[verifier::loop_isolation(false)]
fn ws_skip(b: &Vec<u8>, pos: &mut usize)
    requires
        *old(pos) <= b@.len(),
    ensures
        *old(pos) <= *final(pos),
        *final(pos) <= b@.len(),
        b@.skip((*final(pos)) as int) == skip_ws(b@.skip((*old(pos)) as int)),
{
    while *pos < b.len() && (b[*pos] == 32 || b[*pos] == 9 || b[*pos] == 10 || b[*pos] == 13)
        invariant
            *old(pos) <= *pos,
            *pos <= b@.len(),
            skip_ws(b@.skip((*old(pos)) as int)) == skip_ws(b@.skip((*pos) as int)),
        decreases b@.len() - *pos,
    {
        proof {
            assert(b@.skip((*pos) as int).drop_first() =~= b@.skip((*pos) as int + 1));
        }
        *pos = *pos + 1;
    }
    proof {
        assert(skip_ws(b@.skip((*pos) as int)) == b@.skip((*pos) as int));
    }
}

/// The value of a hexadecimal digit character, if it is one.
fn hex_val_exec(c: u8) -> (r: Option<u32>)
    ensures
        r == hex_val(c),
{
    if 48 <= c && c <= 57 {
        Some((c - 48) as u32)
    } else if 97 <= c && c <= 102 {
        Some((c - 87) as u32)
    } else if 65 <= c && c <= 70 {
        Some((c - 55) as u32)
    } else {
        None
    }
}

/// Appends the UTF-8 encoding of a basic-plane scalar.
fn push_scalar_utf8(out: &mut Vec<u8>, code: u32)
    requires
        code <= 0xFFFF,
        !(0xD800 <= code && code <= 0xDFFF),
    ensures
        final(out)@ == old(out)@ + encode_scalar(code),
{
    proof {
        assert((code & 0x7F) < 256 && ((code >> 6) & 0x1F) < 256 && ((code >> 12) & 0x0F) < 256
            && ((code >> 6) & 0x3F) < 256 && (code & 0x3F) < 256) by (bit_vector);
    }
    if code < 0x80 {
        out.push((code & 0x7F) as u8);
    } else if code < 0x800 {
        out.push(0xC0u8 | (((code >> 6) & 0x1F) as u8));
        out.push(0x80u8 | ((code & 0x3F) as u8));
    } else {
        out.push(0xE0u8 | (((code >> 12) & 0x0F) as u8));
        out.push(0x80u8 | (((code >> 6) & 0x3F) as u8));
        out.push(0x80u8 | ((code & 0x3F) as u8));
    }
    proof {
        assert(out@ =~= old(out)@ + encode_scalar(code));
    }
}

#[verifier::loop_isolation(false)]
#[verifier::rlimit(100)]
#[verifier::spinoff_prover]
fn jstr_content_exec(b: &Vec<u8>, pos: &mut usize) -> (r: Option<Vec<u8>>)
    requires
        *old(pos) <= b@.len(),
    ensures
        *old(pos) <= *final(pos),
        *final(pos) <= b@.len(),
        match r {
            Some(v) => {
                &&& parse_jstr_content(b@.skip((*old(pos)) as int)) == Some(
                    (v@, b@.skip((*final(pos)) as int)),
                )
                &&& *final(pos) > *old(pos)
            },
            None => parse_jstr_content(b@.skip((*old(pos)) as int)) is None,
        },
{
    let ghost start = (*pos) as int;
    let mut acc: Vec<u8> = Vec::new();
    loop
        invariant
            start <= *pos,
            *pos <= b@.len(),
            parse_jstr_content(b@.skip(start)) == (match parse_jstr_content(
                b@.skip((*pos) as int),
            ) {
                Some((cs, r2)) => Some((acc@ + cs, r2)),
                None => None::<(Seq<u8>, Seq<u8>)>,
            }),
        decreases b@.len() - *pos,
    {
        if *pos >= b.len() {
            return None;
        }
        let c = b[*pos];
        if c == 34 {
            *pos = *pos + 1;
            proof {
                assert(b@.skip((*pos) as int) =~= b@.skip((*pos) as int - 1).drop_first());
                assert(acc@ + Seq::<u8>::empty() =~= acc@);
            }
            return Some(acc);
        }
        if c == 92 {
            if b.len() - *pos < 2 {
                return None;
            }
            let e = b[*pos + 1];
            if e == 117 {
                if b.len() - *pos < 6 {
                    return None;
                }
                let h3 = match hex_val_exec(b[*pos + 2]) { Some(h) => h, None => { return None; } };
                let h2 = match hex_val_exec(b[*pos + 3]) { Some(h) => h, None => { return None; } };
                let h1 = match hex_val_exec(b[*pos + 4]) { Some(h) => h, None => { return None; } };
                let h0 = match hex_val_exec(b[*pos + 5]) { Some(h) => h, None => { return None; } };
                let code = h3 * 4096 + h2 * 256 + h1 * 16 + h0;
                proof {
                    assert(b@.skip((*pos) as int).subrange(2, 6) =~= seq![
                        b@[*pos + 2], b@[*pos + 3], b@[*pos + 4], b@[*pos + 5],
                    ]);
                }
                if 0xD800 <= code && code <= 0xDFFF {
                    return None;
                }
                let ghost prev = acc@;
                push_scalar_utf8(&mut acc, code);
                proof {
                    assert(b@.skip((*pos) as int).skip(6) =~= b@.skip((*pos) as int + 6));
                    assert forall|xs2: Seq<u8>| prev + (encode_scalar(code) + xs2) =~= (prev
                        + encode_scalar(code)) + xs2 by {}
                }
                *pos = *pos + 6;
                continue;
            }
            let dec: u8 = if e == 34 { 34 } else if e == 92 { 92 } else if e == 47 { 47 }
            else if e == 98 { 8 } else if e == 102 { 12 } else if e == 110 { 10 }
            else if e == 114 { 13 } else if e == 116 { 9 } else {
                return None;
            };
            let ghost prev = acc@;
            acc.push(dec);
            proof {
                assert(b@.skip((*pos) as int).skip(2) =~= b@.skip((*pos) as int + 2));
                assert forall|xs2: Seq<u8>| prev + (seq![dec] + xs2) =~= prev.push(dec)
                    + xs2 by {}
            }
            *pos = *pos + 2;
            continue;
        }
        if c < 32 {
            return None;
        }
        let ghost prev = acc@;
        acc.push(c);
        proof {
            assert(b@.skip((*pos) as int).drop_first() =~= b@.skip((*pos) as int + 1));
            assert forall|xs2: Seq<u8>| prev + (seq![c] + xs2) =~= prev.push(c) + xs2 by {}
        }
        *pos = *pos + 1;
    }
}

#[verifier::loop_isolation(false)]
fn jstr_exec(b: &Vec<u8>, pos: &mut usize) -> (r: Option<Vec<u8>>)
    requires
        *old(pos) <= b@.len(),
    ensures
        *old(pos) <= *final(pos),
        *final(pos) <= b@.len(),
        match r {
            Some(v) => {
                &&& parse_jstr(b@.skip((*old(pos)) as int)) == Some(
                    (v@, b@.skip((*final(pos)) as int)),
                )
                &&& *final(pos) > *old(pos)
            },
            None => parse_jstr(b@.skip((*old(pos)) as int)) is None,
        },
{
    ws_skip(b, pos);
    if *pos >= b.len() {
        return None;
    }
    if b[*pos] != 34 {
        return None;
    }
    *pos = *pos + 1;
    proof {
        assert(b@.skip((*pos) as int) =~= b@.skip((*pos) as int - 1).drop_first());
    }
    jstr_content_exec(b, pos)
}

fn title_key_vec() -> (r: Vec<u8>)
    ensures
        r@ == title_key(),
{
    let mut k: Vec<u8> = Vec::new();
    k.push(116); k.push(105); k.push(116); k.push(108); k.push(101);
    proof {
        assert(k@ =~= title_key());
    }
    k
}

fn description_key_vec() -> (r: Vec<u8>)
    ensures
        r@ == description_key(),
{
    let mut k: Vec<u8> = Vec::new();
    k.push(100); k.push(101); k.push(115); k.push(99); k.push(114); k.push(105); k.push(112);
    k.push(116); k.push(105); k.push(111); k.push(110);
    proof {
        assert(k@ =~= description_key());
    }
    k
}

fn full_description_key_vec() -> (r: Vec<u8>)
    ensures
        r@ == full_description_key(),
{
    let mut k: Vec<u8> = Vec::new();
    k.push(102); k.push(117); k.push(108); k.push(108); k.push(95); k.push(100); k.push(101);
    k.push(115); k.push(99); k.push(114); k.push(105); k.push(112); k.push(116); k.push(105);
    k.push(111); k.push(110);
    proof {
        assert(k@ =~= full_description_key());
    }
    k
}

/// View of an optional byte buffer.
pub open spec fn opt_bytes_view(o: Option<Vec<u8>>) -> Option<Seq<u8>> {
    match o {
        Some(v) => Some(v@),
        None => None,
    }
}

#[verifier::loop_isolation(false)]
#[verifier::rlimit(60)]
fn members_exec(b: &Vec<u8>, pos: &mut usize) -> (r: Option<
    (Option<Vec<u8>>, Option<Vec<u8>>, Option<Vec<u8>>),
>)
    requires
        *old(pos) <= b@.len(),
    ensures
        *final(pos) <= b@.len(),
        match r {
            Some(tdf) => parse_members(b@.skip((*old(pos)) as int), None, None, None) == Some(
                (
                    opt_bytes_view(tdf.0),
                    opt_bytes_view(tdf.1),
                    opt_bytes_view(tdf.2),
                    b@.skip((*final(pos)) as int),
                ),
            ),
            None => parse_members(b@.skip((*old(pos)) as int), None, None, None) is None,
        },
{
    let tk = title_key_vec();
    let dk = description_key_vec();
    let fk = full_description_key_vec();
    let mut t: Option<Vec<u8>> = None;
    let mut d: Option<Vec<u8>> = None;
    let mut f: Option<Vec<u8>> = None;
    loop
        invariant
            *pos <= b@.len(),
            tk@ == title_key(),
            dk@ == description_key(),
            fk@ == full_description_key(),
            parse_members(b@.skip((*old(pos)) as int), None, None, None) == parse_members(
                b@.skip((*pos) as int),
                opt_bytes_view(t),
                opt_bytes_view(d),
                opt_bytes_view(f),
            ),
        decreases b@.len() - *pos,
    {
        let k = match jstr_exec(b, pos) {
            Some(k) => k,
            None => {
                return None;
            },
        };
        ws_skip(b, pos);
        if *pos >= b.len() {
            return None;
        }
        if b[*pos] != 58 {
            return None;
        }
        *pos = *pos + 1;
        proof {
            assert(b@.skip((*pos) as int) =~= b@.skip((*pos) as int - 1).drop_first());
        }
        let v = match jstr_exec(b, pos) {
            Some(v) => v,
            None => {
                return None;
            },
        };
        if crate::store::bytes_eq(&k, &tk) {
            t = Some(v);
        } else if crate::store::bytes_eq(&k, &dk) {
            d = Some(v);
        } else if crate::store::bytes_eq(&k, &fk) {
            f = Some(v);
        }
        ws_skip(b, pos);
        if *pos >= b.len() {
            return None;
        }
        let c = b[*pos];
        if c == 44 {
            *pos = *pos + 1;
            proof {
                assert(b@.skip((*pos) as int) =~= b@.skip((*pos) as int - 1).drop_first());
            }
        } else if c == 125 {
            *pos = *pos + 1;
            proof {
                assert(b@.skip((*pos) as int) =~= b@.skip((*pos) as int - 1).drop_first());
            }
            return Some((t, d, f));
        } else {
            return None;
        }
    }
}

/// The fixed text returned when a reply does not parse.
pub open spec fn parse_error_chars() -> Seq<char> {
    "generated proposal was not the demanded JSON object"@
}

/// Parses the collaborator's reply as the demanded JSON object of string
/// fields; the result is exactly what the reply grammar yields.
pub fn parse_generated_proposal(s: &str) -> (r: Result<GeneratedProposalDescription, String>)
    ensures
        match r {
            Ok(g) => parse_generated_spec(s.spec_bytes()) == Some(
                (g.title@, g.description@, g.full_description@),
            ),
            Err(e) => {
                &&& parse_generated_spec(s.spec_bytes()) is None
                &&& e@ == parse_error_chars()
            },
        },
{
    let mut b: Vec<u8> = Vec::new();
    b.extend_from_slice(s.as_bytes());
    proof {
        assert(b@ =~= s.spec_bytes());
        assert(b@.skip(0) =~= b@);
    }
    let mut pos: usize = 0;
    ws_skip(&b, &mut pos);
    if pos >= b.len() || { let c = b[pos]; c != 123 } {
        return Err(parse_error_text());
    }
    pos = pos + 1;
    proof {
        assert(b@.skip(pos as int) =~= b@.skip(pos as int - 1).drop_first());
    }
    let tdf = match members_exec(&b, &mut pos) {
        Some(x) => x,
        None => {
            return Err(parse_error_text());
        },
    };
    ws_skip(&b, &mut pos);
    if pos != b.len() {
        proof {
            assert(b@.skip(pos as int).len() != 0);
        }
        return Err(parse_error_text());
    }
    proof {
        assert(b@.skip(pos as int).len() == 0);
    }
    let (t, d, f) = tdf;
    let tb = match t {
        Some(x) => x,
        None => {
            return Err(parse_error_text());
        },
    };
    let db = match d {
        Some(x) => x,
        None => {
            return Err(parse_error_text());
        },
    };
    let fb = match f {
        Some(x) => x,
        None => {
            return Err(parse_error_text());
        },
    };
    let title = match string_from_utf8(tb) {
        Some(x) => x,
        None => {
            return Err(parse_error_text());
        },
    };
    let description = match string_from_utf8(db) {
        Some(x) => x,
        None => {
            return Err(parse_error_text());
        },
    };
    let full_description = match string_from_utf8(fb) {
        Some(x) => x,
        None => {
            return Err(parse_error_text());
        },
    };
    Ok(GeneratedProposalDescription { title, description, full_description })
}

/// Builds the fixed error text.
fn parse_error_text() -> (r: String)
    ensures
        r@ == parse_error_chars(),
{
    "generated proposal was not the demanded JSON object".to_owned()
}


// ----------------------------------------------------------------------
// Prompt building and prompt-driven creation
// ----------------------------------------------------------------------

/// The fixed instruction text that precedes the caller's prompt.
pub open spec fn gen_instructions() -> Seq<char> {
    r#"
            You are a voting proposal generator. Your task is to output ONLY a valid JSON object with the following structure:

            {
                "title": "<short and concise title of the proposal>",
                "description": "<brief summary of the proposal>",
                "full_description": "<detailed explanation of the proposal>"
            }

            Requirements:
            - Output must be valid JSON.
            - Do not include any text outside the JSON.
            - Do not include code fences, comments, or explanations.
            - All values must be strings.
        "#@
}

/// Builds the full generation request: the fixed instructions, then the
/// caller's prompt.
pub fn build_generation_prompt(user_prompt: &str) -> (r: String)
    ensures
        r@ == gen_instructions() + user_prompt@,
{
    let mut s: String = r#"
            You are a voting proposal generator. Your task is to output ONLY a valid JSON object with the following structure:

            {
                "title": "<short and concise title of the proposal>",
                "description": "<brief summary of the proposal>",
                "full_description": "<detailed explanation of the proposal>"
            }

            Requirements:
            - Output must be valid JSON.
            - Do not include any text outside the JSON.
            - Do not include code fences, comments, or explanations.
            - All values must be strings.
        "#.to_owned();
    s.append(user_prompt);
    s
}

impl State {
    /// Creates a proposal out of a collaborator reply: parses the reply
    /// as the demanded JSON object and stores a proposal built from its
    /// fields, or returns the parse error text and leaves the store
    /// untouched.
    pub fn add_proposal_with_prompt(
        &mut self,
        caller: &str,
        now_ns: u64,
        generated: &str,
        image_url: Option<String>,
        duration_days: u32,
        category: Option<String>,
        image: Option<String>,
        author: Option<String>,
        user_id: Option<String>,
    ) -> (r: Result<String, String>)
        requires
            old(self)@.wf(),
        ensures
            final(self)@.wf(),
            final(self)@.users == old(self)@.users,
            match r {
                Ok(id) => {
                    &&& id@ == id_of(caller@, now_ns as nat)
                    &&& parse_generated_spec(generated.spec_bytes()) matches Some((t, d, fd))
                        && ({
                        let p = fresh_proposal(
                            id_of(caller@, now_ns as nat),
                            t,
                            d,
                            opt_view(image_url),
                            duration_days,
                            Some(fd),
                            opt_view(category),
                            opt_view(image),
                            opt_view(author),
                            opt_view(user_id),
                            now_ns,
                        );
                        if old(self)@.has_proposal(p.id) {
                            exists|i: int|
                                0 <= i < old(self)@.proposals.len()
                                    && (#[trigger] old(self)@.proposals[i]).id == p.id
                                    && final(self)@.proposals =~= old(self)@.proposals.update(i, p)
                        } else {
                            final(self)@.proposals =~= old(self)@.proposals.push(p)
                        }
                    })
                },
                Err(e) => {
                    &&& parse_generated_spec(generated.spec_bytes()) is None
                    &&& e@ == parse_error_chars()
                    &&& final(self)@ == old(self)@
                },
            },
    {
        match parse_generated_proposal(generated) {
            Ok(g) => Ok(
                self.add_proposal(
                    caller,
                    now_ns,
                    g.title,
                    g.description,
                    image_url,
                    duration_days,
                    Some(g.full_description),
                    category,
                    image,
                    author,
                    user_id,
                ),
            ),
            Err(e) => Err(e),
        }
    }
}

// ----------------------------------------------------------------------
// Chat transcript building
// ----------------------------------------------------------------------

/// What str::to_lowercase returns; a function of the characters alone.
pub uninterp spec fn lower_of(s: Seq<char>) -> Seq<char>;

/// Relies on str::to_lowercase: the result depends on the characters
/// alone.
#[verifier::external_body]
fn lowercase(s: &str) -> (r: String)
    ensures
        r@ == lower_of(s@),
{
    s.to_lowercase()
}

/// The fixed text the transcript opens with.
pub open spec fn chat_preamble() -> Seq<char> {
    "You are a helpful governance assistant for VoteVerse. Answer clearly and concisely."@
        + "\n\n---\n"@
}

/// One turn rendered into the transcript, tagged by its lowercased role.
pub open spec fn turn_chars(role: Seq<char>, content: Seq<char>) -> Seq<char> {
    if lower_of(role) == "system"@ {
        "\n[system]: "@ + content + "\n"@
    } else if lower_of(role) == "assistant"@ {
        "\n[assistant]: "@ + content + "\n"@
    } else {
        "\n[user]: "@ + content + "\n"@
    }
}

/// The whole transcript: the preamble, then every turn in order.
pub open spec fn chat_prompt_chars(ts: Seq<ChatTurn>) -> Seq<char>
    decreases ts.len(),
{
    if ts.len() == 0 {
        chat_preamble()
    } else {
        chat_prompt_chars(ts.drop_last()) + turn_chars(ts.last().role@, ts.last().content@)
    }
}

/// Flattens a conversation into the single prompt handed to the
/// text-generation collaborator.
#[verifier::loop_isolation(false)]
pub fn build_chat_prompt(turns: &Vec<ChatTurn>) -> (r: String)
    ensures
        r@ == chat_prompt_chars(turns@),
{
    let mut prompt: String =
        "You are a helpful governance assistant for VoteVerse. Answer clearly and concisely."
        .to_owned();
    prompt.append("\n\n---\n");
    let mut i: usize = 0;
    while i < turns.len()
        invariant
            i <= turns@.len(),
            prompt@ == chat_prompt_chars(turns@.take(i as int)),
        decreases turns@.len() - i,
    {
        let low = lowercase(turns[i].role.as_str());
        let sys: String = "system".to_owned();
        let asst: String = "assistant".to_owned();
        if low.eq(&sys) {
            prompt.append("\n[system]: ");
            prompt.append(turns[i].content.as_str());
            prompt.append("\n");
        } else if low.eq(&asst) {
            prompt.append("\n[assistant]: ");
            prompt.append(turns[i].content.as_str());
            prompt.append("\n");
        } else {
            prompt.append("\n[user]: ");
            prompt.append(turns[i].content.as_str());
            prompt.append("\n");
        }
        i = i + 1;
        proof {
            assert(turns@.take(i as int).drop_last() =~= turns@.take(i as int - 1));
            assert(turns@.take(i as int).last() == turns@[i - 1]);
            assert(prompt@ =~= chat_prompt_chars(turns@.take(i as int)));
        }
    }
    proof {
        assert(turns@.take(turns@.len() as int) =~= turns@);
    }
    prompt
}

} // verus!
