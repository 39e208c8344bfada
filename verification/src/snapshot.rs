//! Snapshot codec: the whole `State` aggregate is serialized to a single
//! byte blob before an upgrade and parsed back after it. Decoding is
//! total: a blob that does not parse back to a well-formed aggregate
//! yields the empty aggregate instead of a failure.

use vstd::prelude::*;
use crate::model::{Votes, Proposal, User, State, VotesV, ProposalV, UserV, StateV, opt_view,
    voters_view};
use vstd::utf8::{encode_utf8, decode_utf8, valid_utf8};

verus! {

broadcast use vstd::utf8::encode_utf8_valid_utf8, vstd::utf8::encode_utf8_decode_utf8;

// ----------------------------------------------------------------------
// Primitive encoders and decoders (little-endian u64, length-prefixed
// byte strings and text)
// ----------------------------------------------------------------------

/// Eight little-endian bytes of `n`.
#[verifier::opaque]
pub open spec fn enc_u64(n: u64) -> Seq<u8> {
    seq![
        (n & 0xff) as u8,
        ((n >> 8) & 0xff) as u8,
        ((n >> 16) & 0xff) as u8,
        ((n >> 24) & 0xff) as u8,
        ((n >> 32) & 0xff) as u8,
        ((n >> 40) & 0xff) as u8,
        ((n >> 48) & 0xff) as u8,
        ((n >> 56) & 0xff) as u8,
    ]
}

/// The value of eight little-endian bytes.
#[verifier::opaque]
pub open spec fn le_val(b: Seq<u8>) -> u64
    recommends
        b.len() == 8,
{
    (b[0] as u64) | ((b[1] as u64) << 8) | ((b[2] as u64) << 16) | ((b[3] as u64) << 24) | ((
    b[4] as u64) << 32) | ((b[5] as u64) << 40) | ((b[6] as u64) << 48) | ((b[7] as u64) << 56)
}

/// Reads a `u64` off the front of a stream.
#[verifier::opaque]
pub open spec fn dec_u64(b: Seq<u8>) -> Option<(u64, Seq<u8>)> {
    if b.len() < 8 {
        None
    } else {
        Some((le_val(b.take(8)), b.skip(8)))
    }
}

proof fn lemma_le_val(n: u64)
    ensures
        le_val(enc_u64(n)) == n,
{
    reveal(enc_u64);
    reveal(le_val);
    let b0 = (n & 0xff) as u8;
    let b1 = ((n >> 8) & 0xff) as u8;
    let b2 = ((n >> 16) & 0xff) as u8;
    let b3 = ((n >> 24) & 0xff) as u8;
    let b4 = ((n >> 32) & 0xff) as u8;
    let b5 = ((n >> 40) & 0xff) as u8;
    let b6 = ((n >> 48) & 0xff) as u8;
    let b7 = ((n >> 56) & 0xff) as u8;
    assert((b0 as u64) | ((b1 as u64) << 8) | ((b2 as u64) << 16) | ((b3 as u64) << 24) | ((
    b4 as u64) << 32) | ((b5 as u64) << 40) | ((b6 as u64) << 48) | ((b7 as u64) << 56) == n)
        by (bit_vector)
        requires
            b0 == (n & 0xff) as u8,
            b1 == ((n >> 8) & 0xff) as u8,
            b2 == ((n >> 16) & 0xff) as u8,
            b3 == ((n >> 24) & 0xff) as u8,
            b4 == ((n >> 32) & 0xff) as u8,
            b5 == ((n >> 40) & 0xff) as u8,
            b6 == ((n >> 48) & 0xff) as u8,
            b7 == ((n >> 56) & 0xff) as u8,
    ;
}

/// Reading a `u64` undoes writing one.
proof fn lemma_dec_u64(n: u64, rest: Seq<u8>)
    ensures
        dec_u64(enc_u64(n) + rest) == Some((n, rest)),
{
    reveal(enc_u64);
    reveal(dec_u64);
    let s = enc_u64(n) + rest;
    assert(s.take(8) =~= enc_u64(n));
    assert(s.skip(8) =~= rest);
    lemma_le_val(n);
}

/// A length-prefixed byte string.
#[verifier::opaque]
pub open spec fn enc_bytes(b: Seq<u8>) -> Seq<u8> {
    enc_u64(b.len() as u64) + b
}

/// Reads a length-prefixed byte string off the front of a stream.
#[verifier::opaque]
pub open spec fn dec_bytes(b: Seq<u8>) -> Option<(Seq<u8>, Seq<u8>)> {
    match dec_u64(b) {
        None => None,
        Some((n, r)) => if r.len() < n {
            None
        } else {
            Some((r.take(n as int), r.skip(n as int)))
        },
    }
}

/// Reading a byte string undoes writing one, provided its length fits
/// the prefix.
proof fn lemma_dec_bytes(b: Seq<u8>, rest: Seq<u8>)
    requires
        b.len() <= u64::MAX,
    ensures
        dec_bytes(enc_bytes(b) + rest) == Some((b, rest)),
{
    reveal(enc_bytes);
    reveal(dec_bytes);
    reveal(enc_u64);
    let s = enc_bytes(b) + rest;
    assert(s =~= enc_u64(b.len() as u64) + (b + rest));
    lemma_dec_u64(b.len() as u64, b + rest);
    assert((b + rest).take(b.len() as int) =~= b);
    assert((b + rest).skip(b.len() as int) =~= rest);
}

/// A length-prefixed piece of text, stored as UTF-8.
#[verifier::opaque]
pub open spec fn enc_str(s: Seq<char>) -> Seq<u8> {
    enc_bytes(encode_utf8(s))
}

/// Reads a piece of text off the front of a stream; the bytes must be
/// valid UTF-8.
#[verifier::opaque]
pub open spec fn dec_str(b: Seq<u8>) -> Option<(Seq<char>, Seq<u8>)> {
    match dec_bytes(b) {
        None => None,
        Some((bs, r)) => if valid_utf8(bs) {
            Some((decode_utf8(bs), r))
        } else {
            None
        },
    }
}

/// Reading text undoes writing it.
proof fn lemma_dec_str(s: Seq<char>, rest: Seq<u8>)
    requires
        encode_utf8(s).len() <= u64::MAX,
    ensures
        dec_str(enc_str(s) + rest) == Some((s, rest)),
{
    reveal(enc_str);
    reveal(dec_str);
    lemma_dec_bytes(encode_utf8(s), rest);
}

/// An optional value: a tag byte, then the payload if present.
#[verifier::opaque]
pub open spec fn enc_opt_str(o: Option<Seq<char>>) -> Seq<u8> {
    match o {
        None => seq![0u8],
        Some(s) => seq![1u8] + enc_str(s),
    }
}

#[verifier::opaque]
pub open spec fn dec_opt_str(b: Seq<u8>) -> Option<(Option<Seq<char>>, Seq<u8>)> {
    if b.len() == 0 {
        None
    } else if b[0] == 0 {
        Some((None, b.skip(1)))
    } else if b[0] == 1 {
        match dec_str(b.skip(1)) {
            None => None,
            Some((s, r)) => Some((Some(s), r)),
        }
    } else {
        None
    }
}

proof fn lemma_dec_opt_str(o: Option<Seq<char>>, rest: Seq<u8>)
    requires
        o matches Some(s) ==> encode_utf8(s).len() <= u64::MAX,
    ensures
        dec_opt_str(enc_opt_str(o) + rest) == Some((o, rest)),
{
    reveal(enc_opt_str);
    reveal(dec_opt_str);
    match o {
        None => {
            assert((seq![0u8] + rest).skip(1) =~= rest);
        },
        Some(s) => {
            assert((seq![1u8] + enc_str(s) + rest).skip(1) =~= enc_str(s) + rest);
            lemma_dec_str(s, rest);
        },
    }
}

/// An optional `u32`, widened to the common integer encoding.
#[verifier::opaque]
pub open spec fn enc_opt_u32(o: Option<u32>) -> Seq<u8> {
    match o {
        None => seq![0u8],
        Some(n) => seq![1u8] + enc_u64(n as u64),
    }
}

#[verifier::opaque]
pub open spec fn dec_opt_u32(b: Seq<u8>) -> Option<(Option<u32>, Seq<u8>)> {
    if b.len() == 0 {
        None
    } else if b[0] == 0 {
        Some((None, b.skip(1)))
    } else if b[0] == 1 {
        match dec_u64(b.skip(1)) {
            None => None,
            Some((n, r)) => if n <= u32::MAX {
                Some((Some(n as u32), r))
            } else {
                None
            },
        }
    } else {
        None
    }
}

proof fn lemma_dec_opt_u32(o: Option<u32>, rest: Seq<u8>)
    ensures
        dec_opt_u32(enc_opt_u32(o) + rest) == Some((o, rest)),
{
    reveal(enc_opt_u32);
    reveal(dec_opt_u32);
    match o {
        None => {
            assert((seq![0u8] + rest).skip(1) =~= rest);
        },
        Some(n) => {
            assert((seq![1u8] + enc_u64(n as u64) + rest).skip(1) =~= enc_u64(n as u64) + rest);
            lemma_dec_u64(n as u64, rest);
        },
    }
}

/// The mirrored `votes` record, if present.
#[verifier::opaque]
pub open spec fn enc_opt_votes(o: Option<VotesV>) -> Seq<u8> {
    match o {
        None => seq![0u8],
        Some(v) => seq![1u8] + enc_u64(v.yes as u64) + enc_u64(v.no as u64),
    }
}

#[verifier::opaque]
pub open spec fn dec_opt_votes(b: Seq<u8>) -> Option<(Option<VotesV>, Seq<u8>)> {
    if b.len() == 0 {
        None
    } else if b[0] == 0 {
        Some((None, b.skip(1)))
    } else if b[0] == 1 {
        match dec_u64(b.skip(1)) {
            None => None,
            Some((y, r)) => match dec_u64(r) {
                None => None,
                Some((n, r2)) => if y <= u32::MAX && n <= u32::MAX {
                    Some((Some(VotesV { yes: y as u32, no: n as u32 }), r2))
                } else {
                    None
                },
            },
        }
    } else {
        None
    }
}

proof fn lemma_dec_opt_votes(o: Option<VotesV>, rest: Seq<u8>)
    ensures
        dec_opt_votes(enc_opt_votes(o) + rest) == Some((o, rest)),
{
    reveal(enc_opt_votes);
    reveal(dec_opt_votes);
    match o {
        None => {
            assert((seq![0u8] + rest).skip(1) =~= rest);
        },
        Some(v) => {
            assert((seq![1u8] + enc_u64(v.yes as u64) + enc_u64(v.no as u64) + rest).skip(1)
                =~= enc_u64(v.yes as u64) + (enc_u64(v.no as u64) + rest));
            lemma_dec_u64(v.yes as u64, enc_u64(v.no as u64) + rest);
            lemma_dec_u64(v.no as u64, rest);
        },
    }
}

/// The voter list: a count, then each identity as a byte string.
pub open spec fn enc_voters(vs: Seq<Seq<u8>>) -> Seq<u8> {
    enc_u64(vs.len() as u64) + enc_voter_items(vs)
}

pub open spec fn enc_voter_items(vs: Seq<Seq<u8>>) -> Seq<u8>
    decreases vs.len(),
{
    if vs.len() == 0 {
        Seq::empty()
    } else {
        enc_bytes(vs[0]) + enc_voter_items(vs.drop_first())
    }
}

pub open spec fn dec_voter_items(b: Seq<u8>, n: nat) -> Option<(Seq<Seq<u8>>, Seq<u8>)>
    decreases n,
{
    if n == 0 {
        Some((Seq::empty(), b))
    } else {
        match dec_bytes(b) {
            None => None,
            Some((x, r)) => match dec_voter_items(r, (n - 1) as nat) {
                None => None,
                Some((xs, r2)) => Some((seq![x] + xs, r2)),
            },
        }
    }
}

pub open spec fn dec_voters(b: Seq<u8>) -> Option<(Seq<Seq<u8>>, Seq<u8>)> {
    match dec_u64(b) {
        None => None,
        Some((n, r)) => dec_voter_items(r, n as nat),
    }
}

/// Whether every identity in a voter list fits the length prefix.
pub open spec fn voters_fit(vs: Seq<Seq<u8>>) -> bool {
    forall|i: int| 0 <= i < vs.len() ==> (#[trigger] vs[i]).len() <= u64::MAX
}

proof fn lemma_dec_voter_items(vs: Seq<Seq<u8>>, rest: Seq<u8>)
    requires
        voters_fit(vs),
    ensures
        dec_voter_items(enc_voter_items(vs) + rest, vs.len()) == Some((vs, rest)),
    decreases vs.len(),
{
    reveal(enc_bytes);
    if vs.len() == 0 {
        assert(enc_voter_items(vs) + rest =~= rest);
    } else {
        let tail = vs.drop_first();
        assert(enc_voter_items(vs) + rest =~= enc_bytes(vs[0]) + (enc_voter_items(tail) + rest));
        lemma_dec_bytes(vs[0], enc_voter_items(tail) + rest);
        lemma_dec_voter_items(tail, rest);
        assert(seq![vs[0]] + tail =~= vs);
    }
}

proof fn lemma_dec_voters(vs: Seq<Seq<u8>>, rest: Seq<u8>)
    requires
        voters_fit(vs),
        vs.len() <= u64::MAX,
    ensures
        dec_voters(enc_voters(vs) + rest) == Some((vs, rest)),
{
    reveal(enc_u64);
    assert(enc_voters(vs) + rest =~= enc_u64(vs.len() as u64) + (enc_voter_items(vs) + rest));
    lemma_dec_u64(vs.len() as u64, enc_voter_items(vs) + rest);
    lemma_dec_voter_items(vs, rest);
}

// ----------------------------------------------------------------------
// Record-level codecs
// ----------------------------------------------------------------------

/// Whether a piece of text fits the length prefix.
pub open spec fn str_fits(s: Seq<char>) -> bool {
    encode_utf8(s).len() <= u64::MAX
}

pub open spec fn opt_str_fits(o: Option<Seq<char>>) -> bool {
    o matches Some(s) ==> str_fits(s)
}

impl ProposalV {
    /// Every variable-length part of the record fits its length prefix.
    pub open spec fn fits(self) -> bool {
        &&& str_fits(self.id)
        &&& str_fits(self.title)
        &&& str_fits(self.description)
        &&& opt_str_fits(self.image_url)
        &&& opt_str_fits(self.time_left)
        &&& opt_str_fits(self.status)
        &&& opt_str_fits(self.full_description)
        &&& opt_str_fits(self.image)
        &&& opt_str_fits(self.author)
        &&& opt_str_fits(self.category)
        &&& opt_str_fits(self.user_id)
        &&& voters_fit(self.voters)
        &&& self.voters.len() <= u64::MAX
    }
}

impl UserV {
    pub open spec fn fits(self) -> bool {
        &&& str_fits(self.id)
        &&& opt_str_fits(self.image_url)
        &&& str_fits(self.fullname)
        &&& str_fits(self.email)
        &&& opt_str_fits(self.location)
        &&& opt_str_fits(self.website)
        &&& opt_str_fits(self.bio)
    }
}

impl StateV {
    /// Every record fits its encoding and the two counts fit theirs.
    pub open spec fn fits(self) -> bool {
        &&& forall|i: int| 0 <= i < self.proposals.len() ==> (#[trigger] self.proposals[i]).fits()
        &&& forall|i: int| 0 <= i < self.users.len() ==> (#[trigger] self.users[i]).fits()
        &&& self.proposals.len() <= u64::MAX
        &&& self.users.len() <= u64::MAX
    }
}

#[verifier::opaque]
pub open spec fn enc_proposal(p: ProposalV) -> Seq<u8> {
    enc_str(p.id) + enc_str(p.title) + enc_str(p.description) + enc_opt_str(p.image_url) + enc_u64(
        p.yes_votes as u64,
    ) + enc_u64(p.no_votes as u64) + enc_u64(p.created_at) + enc_u64(p.duration_days as u64)
        + enc_opt_str(p.time_left) + enc_opt_str(p.status) + enc_opt_u32(p.total_voters)
        + enc_opt_str(p.full_description) + enc_opt_str(p.image) + enc_opt_votes(p.votes)
        + enc_opt_str(p.author) + enc_opt_str(p.category) + enc_opt_u32(p.discussions)
        + enc_voters(p.voters) + enc_opt_str(p.user_id)
}

#[verifier::opaque]
pub open spec fn dec_proposal(b: Seq<u8>) -> Option<(ProposalV, Seq<u8>)> {
    match dec_str(b) { None => None, Some((id, b)) =>
    match dec_str(b) { None => None, Some((title, b)) =>
    match dec_str(b) { None => None, Some((description, b)) =>
    match dec_opt_str(b) { None => None, Some((image_url, b)) =>
    match dec_u64(b) { None => None, Some((yes, b)) => if yes > u32::MAX { None } else {
    match dec_u64(b) { None => None, Some((no, b)) => if no > u32::MAX { None } else {
    match dec_u64(b) { None => None, Some((created_at, b)) =>
    match dec_u64(b) { None => None, Some((dur, b)) => if dur > u32::MAX { None } else {
    match dec_opt_str(b) { None => None, Some((time_left, b)) =>
    match dec_opt_str(b) { None => None, Some((status, b)) =>
    match dec_opt_u32(b) { None => None, Some((total_voters, b)) =>
    match dec_opt_str(b) { None => None, Some((full_description, b)) =>
    match dec_opt_str(b) { None => None, Some((image, b)) =>
    match dec_opt_votes(b) { None => None, Some((votes, b)) =>
    match dec_opt_str(b) { None => None, Some((author, b)) =>
    match dec_opt_str(b) { None => None, Some((category, b)) =>
    match dec_opt_u32(b) { None => None, Some((discussions, b)) =>
    match dec_voters(b) { None => None, Some((voters, b)) =>
    match dec_opt_str(b) { None => None, Some((user_id, b)) =>
    Some((ProposalV {
        id, title, description, image_url,
        yes_votes: yes as u32, no_votes: no as u32, created_at,
        duration_days: dur as u32, time_left, status, total_voters,
        full_description, image, votes, author, category, discussions,
        voters, user_id,
    }, b))
    }}}}}}}}}}}}}}}}}}}}}}
}

/// Reading a proposal record undoes writing one.
/// Sequence concatenation is associative.
proof fn lemma_seq_assoc<T>(a: Seq<T>, b: Seq<T>, c: Seq<T>)
    ensures
        (a + b) + c == a + (b + c),
{
    assert((a + b) + c =~= a + (b + c));
}

#[verifier::rlimit(100)]
#[verifier::spinoff_prover]
proof fn lemma_enc_proposal_split(p: ProposalV, rest: Seq<u8>)
    ensures
        enc_proposal(p) + rest == enc_str(p.id) + (enc_str(p.title) + (enc_str(p.description) + (enc_opt_str(p.image_url) + (enc_u64(p.yes_votes as u64) + (enc_u64(p.no_votes as u64) + (enc_u64(p.created_at) + (enc_u64(p.duration_days as u64) + (enc_opt_str(p.time_left) + (enc_opt_str(p.status) + (enc_opt_u32(p.total_voters) + (enc_opt_str(p.full_description) + (enc_opt_str(p.image) + (enc_opt_votes(p.votes) + (enc_opt_str(p.author) + (enc_opt_str(p.category) + (enc_opt_u32(p.discussions) + (enc_voters(p.voters) + (enc_opt_str(p.user_id) + (rest))))))))))))))))))),
{
    reveal(enc_proposal);
    let e1 = enc_str(p.id);
    let e2 = enc_str(p.title);
    let e3 = enc_str(p.description);
    let e4 = enc_opt_str(p.image_url);
    let e5 = enc_u64(p.yes_votes as u64);
    let e6 = enc_u64(p.no_votes as u64);
    let e7 = enc_u64(p.created_at);
    let e8 = enc_u64(p.duration_days as u64);
    let e9 = enc_opt_str(p.time_left);
    let e10 = enc_opt_str(p.status);
    let e11 = enc_opt_u32(p.total_voters);
    let e12 = enc_opt_str(p.full_description);
    let e13 = enc_opt_str(p.image);
    let e14 = enc_opt_votes(p.votes);
    let e15 = enc_opt_str(p.author);
    let e16 = enc_opt_str(p.category);
    let e17 = enc_opt_u32(p.discussions);
    let e18 = enc_voters(p.voters);
    let e19 = enc_opt_str(p.user_id);
    let c19 = e19 + rest;
    let c18 = e18 + c19;
    let c17 = e17 + c18;
    let c16 = e16 + c17;
    let c15 = e15 + c16;
    let c14 = e14 + c15;
    let c13 = e13 + c14;
    let c12 = e12 + c13;
    let c11 = e11 + c12;
    let c10 = e10 + c11;
    let c9 = e9 + c10;
    let c8 = e8 + c9;
    let c7 = e7 + c8;
    let c6 = e6 + c7;
    let c5 = e5 + c6;
    let c4 = e4 + c5;
    let c3 = e3 + c4;
    let c2 = e2 + c3;
    let c1 = e1 + c2;
    let p2 = e1 + e2;
    let p3 = p2 + e3;
    let p4 = p3 + e4;
    let p5 = p4 + e5;
    let p6 = p5 + e6;
    let p7 = p6 + e7;
    let p8 = p7 + e8;
    let p9 = p8 + e9;
    let p10 = p9 + e10;
    let p11 = p10 + e11;
    let p12 = p11 + e12;
    let p13 = p12 + e13;
    let p14 = p13 + e14;
    let p15 = p14 + e15;
    let p16 = p15 + e16;
    let p17 = p16 + e17;
    let p18 = p17 + e18;
    let p19 = p18 + e19;
    assert(enc_proposal(p) == p19);
    lemma_seq_assoc(p18, e19, rest);
    assert(p19 + rest == p18 + c19);
    lemma_seq_assoc(p17, e18, c19);
    assert(p18 + c19 == p17 + c18);
    lemma_seq_assoc(p16, e17, c18);
    assert(p17 + c18 == p16 + c17);
    lemma_seq_assoc(p15, e16, c17);
    assert(p16 + c17 == p15 + c16);
    lemma_seq_assoc(p14, e15, c16);
    assert(p15 + c16 == p14 + c15);
    lemma_seq_assoc(p13, e14, c15);
    assert(p14 + c15 == p13 + c14);
    lemma_seq_assoc(p12, e13, c14);
    assert(p13 + c14 == p12 + c13);
    lemma_seq_assoc(p11, e12, c13);
    assert(p12 + c13 == p11 + c12);
    lemma_seq_assoc(p10, e11, c12);
    assert(p11 + c12 == p10 + c11);
    lemma_seq_assoc(p9, e10, c11);
    assert(p10 + c11 == p9 + c10);
    lemma_seq_assoc(p8, e9, c10);
    assert(p9 + c10 == p8 + c9);
    lemma_seq_assoc(p7, e8, c9);
    assert(p8 + c9 == p7 + c8);
    lemma_seq_assoc(p6, e7, c8);
    assert(p7 + c8 == p6 + c7);
    lemma_seq_assoc(p5, e6, c7);
    assert(p6 + c7 == p5 + c6);
    lemma_seq_assoc(p4, e5, c6);
    assert(p5 + c6 == p4 + c5);
    lemma_seq_assoc(p3, e4, c5);
    assert(p4 + c5 == p3 + c4);
    lemma_seq_assoc(p2, e3, c4);
    assert(p3 + c4 == p2 + c3);
    lemma_seq_assoc(e1, e2, c3);
    assert(p2 + c3 == e1 + c2);
    assert(e1 + c2 == c1);
}

#[verifier::rlimit(100)]
#[verifier::spinoff_prover]
proof fn lemma_dec_proposal(p: ProposalV, rest: Seq<u8>)
    requires
        p.fits(),
    ensures
        dec_proposal(enc_proposal(p) + rest) == Some((p, rest)),
{
    reveal(enc_proposal);
    reveal(dec_proposal);
    let s19 = rest;
    let s18 = enc_opt_str(p.user_id) + s19;
    let s17 = enc_voters(p.voters) + s18;
    let s16 = enc_opt_u32(p.discussions) + s17;
    let s15 = enc_opt_str(p.category) + s16;
    let s14 = enc_opt_str(p.author) + s15;
    let s13 = enc_opt_votes(p.votes) + s14;
    let s12 = enc_opt_str(p.image) + s13;
    let s11 = enc_opt_str(p.full_description) + s12;
    let s10 = enc_opt_u32(p.total_voters) + s11;
    let s9 = enc_opt_str(p.status) + s10;
    let s8 = enc_opt_str(p.time_left) + s9;
    let s7 = enc_u64(p.duration_days as u64) + s8;
    let s6 = enc_u64(p.created_at) + s7;
    let s5 = enc_u64(p.no_votes as u64) + s6;
    let s4 = enc_u64(p.yes_votes as u64) + s5;
    let s3 = enc_opt_str(p.image_url) + s4;
    let s2 = enc_str(p.description) + s3;
    let s1 = enc_str(p.title) + s2;
    let s0 = enc_str(p.id) + s1;
    lemma_enc_proposal_split(p, rest);
    assert(enc_proposal(p) + rest == s0);
    lemma_dec_str(p.id, s1);
    lemma_dec_str(p.title, s2);
    lemma_dec_str(p.description, s3);
    lemma_dec_opt_str(p.image_url, s4);
    lemma_dec_u64(p.yes_votes as u64, s5);
    lemma_dec_u64(p.no_votes as u64, s6);
    lemma_dec_u64(p.created_at, s7);
    lemma_dec_u64(p.duration_days as u64, s8);
    lemma_dec_opt_str(p.time_left, s9);
    lemma_dec_opt_str(p.status, s10);
    lemma_dec_opt_u32(p.total_voters, s11);
    lemma_dec_opt_str(p.full_description, s12);
    lemma_dec_opt_str(p.image, s13);
    lemma_dec_opt_votes(p.votes, s14);
    lemma_dec_opt_str(p.author, s15);
    lemma_dec_opt_str(p.category, s16);
    lemma_dec_opt_u32(p.discussions, s17);
    lemma_dec_voters(p.voters, s18);
    lemma_dec_opt_str(p.user_id, s19);
    assert(dec_proposal(enc_proposal(p) + rest) matches Some((q, r2)) && q =~~= p && r2 == rest);
}

#[verifier::opaque]
pub open spec fn enc_user(u: UserV) -> Seq<u8> {
    enc_str(u.id) + enc_opt_str(u.image_url) + enc_str(u.fullname) + enc_str(u.email)
        + enc_opt_str(u.location) + enc_opt_str(u.website) + enc_opt_str(u.bio)
}

#[verifier::opaque]
pub open spec fn dec_user(b: Seq<u8>) -> Option<(UserV, Seq<u8>)> {
    match dec_str(b) { None => None, Some((id, b)) =>
    match dec_opt_str(b) { None => None, Some((image_url, b)) =>
    match dec_str(b) { None => None, Some((fullname, b)) =>
    match dec_str(b) { None => None, Some((email, b)) =>
    match dec_opt_str(b) { None => None, Some((location, b)) =>
    match dec_opt_str(b) { None => None, Some((website, b)) =>
    match dec_opt_str(b) { None => None, Some((bio, b)) =>
    Some((UserV { id, image_url, fullname, email, location, website, bio }, b))
    }}}}}}}
}

/// Reading a user record undoes writing one.
#[verifier::rlimit(100)]
#[verifier::spinoff_prover]
proof fn lemma_dec_user(u: UserV, rest: Seq<u8>)
    requires
        u.fits(),
    ensures
        dec_user(enc_user(u) + rest) == Some((u, rest)),
{
    reveal(enc_user);
    reveal(dec_user);
    let s7 = rest;
    let s6 = enc_opt_str(u.bio) + s7;
    let s5 = enc_opt_str(u.website) + s6;
    let s4 = enc_opt_str(u.location) + s5;
    let s3 = enc_str(u.email) + s4;
    let s2 = enc_str(u.fullname) + s3;
    let s1 = enc_opt_str(u.image_url) + s2;
    let s0 = enc_str(u.id) + s1;
    assert(enc_user(u) + rest =~= s0);
    lemma_dec_str(u.id, s1);
    lemma_dec_opt_str(u.image_url, s2);
    lemma_dec_str(u.fullname, s3);
    lemma_dec_str(u.email, s4);
    lemma_dec_opt_str(u.location, s5);
    lemma_dec_opt_str(u.website, s6);
    lemma_dec_opt_str(u.bio, s7);
    assert(dec_user(enc_user(u) + rest) matches Some((q, r2)) && q =~~= u && r2 == rest);
}

pub open spec fn enc_proposal_items(ps: Seq<ProposalV>) -> Seq<u8>
    decreases ps.len(),
{
    if ps.len() == 0 {
        Seq::empty()
    } else {
        enc_proposal(ps[0]) + enc_proposal_items(ps.drop_first())
    }
}

pub open spec fn dec_proposal_items(b: Seq<u8>, n: nat) -> Option<(Seq<ProposalV>, Seq<u8>)>
    decreases n,
{
    if n == 0 {
        Some((Seq::empty(), b))
    } else {
        match dec_proposal(b) {
            None => None,
            Some((p, r)) => match dec_proposal_items(r, (n - 1) as nat) {
                None => None,
                Some((ps, r2)) => Some((seq![p] + ps, r2)),
            },
        }
    }
}

#[verifier::rlimit(100)]
#[verifier::spinoff_prover]
proof fn lemma_dec_proposal_items(ps: Seq<ProposalV>, rest: Seq<u8>)
    requires
        forall|i: int| 0 <= i < ps.len() ==> (#[trigger] ps[i]).fits(),
    ensures
        dec_proposal_items(enc_proposal_items(ps) + rest, ps.len()) == Some((ps, rest)),
    decreases ps.len(),
{
    if ps.len() == 0 {
        assert(enc_proposal_items(ps) + rest =~= rest);
    } else {
        let tail = ps.drop_first();
        assert(enc_proposal_items(ps) + rest =~= enc_proposal(ps[0]) + (enc_proposal_items(tail)
            + rest));
        lemma_dec_proposal(ps[0], enc_proposal_items(tail) + rest);
        lemma_dec_proposal_items(tail, rest);
        assert(seq![ps[0]] + tail =~= ps);
    }
}

pub open spec fn enc_user_items(us: Seq<UserV>) -> Seq<u8>
    decreases us.len(),
{
    if us.len() == 0 {
        Seq::empty()
    } else {
        enc_user(us[0]) + enc_user_items(us.drop_first())
    }
}

pub open spec fn dec_user_items(b: Seq<u8>, n: nat) -> Option<(Seq<UserV>, Seq<u8>)>
    decreases n,
{
    if n == 0 {
        Some((Seq::empty(), b))
    } else {
        match dec_user(b) {
            None => None,
            Some((u, r)) => match dec_user_items(r, (n - 1) as nat) {
                None => None,
                Some((us, r2)) => Some((seq![u] + us, r2)),
            },
        }
    }
}

#[verifier::rlimit(100)]
#[verifier::spinoff_prover]
proof fn lemma_dec_user_items(us: Seq<UserV>, rest: Seq<u8>)
    requires
        forall|i: int| 0 <= i < us.len() ==> (#[trigger] us[i]).fits(),
    ensures
        dec_user_items(enc_user_items(us) + rest, us.len()) == Some((us, rest)),
    decreases us.len(),
{
    if us.len() == 0 {
        assert(enc_user_items(us) + rest =~= rest);
    } else {
        let tail = us.drop_first();
        assert(enc_user_items(us) + rest =~= enc_user(us[0]) + (enc_user_items(tail) + rest));
        lemma_dec_user(us[0], enc_user_items(tail) + rest);
        lemma_dec_user_items(tail, rest);
        assert(seq![us[0]] + tail =~= us);
    }
}

/// The full snapshot: both collections, each count-prefixed; nothing may
/// trail the encoding.
pub open spec fn enc_state(s: StateV) -> Seq<u8> {
    enc_u64(s.proposals.len() as u64) + enc_proposal_items(s.proposals) + enc_u64(
        s.users.len() as u64,
    ) + enc_user_items(s.users)
}

pub open spec fn dec_state(b: Seq<u8>) -> Option<StateV> {
    match dec_u64(b) { None => None, Some((np, b)) =>
    match dec_proposal_items(b, np as nat) { None => None, Some((ps, b)) =>
    match dec_u64(b) { None => None, Some((nu, b)) =>
    match dec_user_items(b, nu as nat) { None => None, Some((us, b)) =>
    if b.len() == 0 {
        Some(StateV { proposals: ps, users: us })
    } else {
        None
    }}}}}
}

/// Decoding a snapshot undoes encoding one: the save-then-restore round
/// trip reproduces the aggregate exactly.
#[verifier::rlimit(100)]
#[verifier::spinoff_prover]
pub proof fn lemma_state_roundtrip(s: StateV)
    requires
        s.fits(),
    ensures
        dec_state(enc_state(s)) == Some(s),
{
    reveal(enc_u64);
    let t3 = enc_user_items(s.users);
    let t2 = enc_u64(s.users.len() as u64) + t3;
    let t1 = enc_proposal_items(s.proposals) + t2;
    let t0 = enc_u64(s.proposals.len() as u64) + t1;
    assert(enc_state(s) =~= t0);
    lemma_dec_u64(s.proposals.len() as u64, t1);
    lemma_dec_proposal_items(s.proposals, t2);
    lemma_dec_u64(s.users.len() as u64, t3);
    assert(t3 =~= enc_user_items(s.users) + Seq::<u8>::empty());
    lemma_dec_user_items(s.users, Seq::<u8>::empty());
    assert(dec_state(enc_state(s)) matches Some(v) && v =~~= s);
}


// ----------------------------------------------------------------------
// Exec encoders
// ----------------------------------------------------------------------

fn push_u64(out: &mut Vec<u8>, n: u64)
    ensures
        final(out)@ == old(out)@ + enc_u64(n),
{
    proof {
        assert((n & 0xff) < 256 && ((n >> 8) & 0xff) < 256 && ((n >> 16) & 0xff) < 256 && ((n
            >> 24) & 0xff) < 256 && ((n >> 32) & 0xff) < 256 && ((n >> 40) & 0xff) < 256 && ((n
            >> 48) & 0xff) < 256 && ((n >> 56) & 0xff) < 256) by (bit_vector);
    }
    out.push((n & 0xff) as u8);
    out.push(((n >> 8) & 0xff) as u8);
    out.push(((n >> 16) & 0xff) as u8);
    out.push(((n >> 24) & 0xff) as u8);
    out.push(((n >> 32) & 0xff) as u8);
    out.push(((n >> 40) & 0xff) as u8);
    out.push(((n >> 48) & 0xff) as u8);
    out.push(((n >> 56) & 0xff) as u8);
    proof {
        reveal(enc_u64);
        assert(out@ =~= old(out)@ + enc_u64(n));
    }
}

fn push_bytes(out: &mut Vec<u8>, b: &Vec<u8>)
    ensures
        final(out)@ == old(out)@ + enc_bytes(b@),
{
    push_u64(out, b.len() as u64);
    out.extend_from_slice(b.as_slice());
    proof {
        reveal(enc_bytes);
        assert(out@ =~= old(out)@ + enc_bytes(b@));
    }
}

fn push_str(out: &mut Vec<u8>, s: &String)
    ensures
        final(out)@ == old(out)@ + enc_str(s@),
{
    let bs = s.as_str().as_bytes();
    push_u64(out, bs.len() as u64);
    out.extend_from_slice(bs);
    proof {
        reveal(enc_str);
        reveal(enc_bytes);
        assert(out@ =~= old(out)@ + enc_str(s@));
    }
}

fn push_opt_str(out: &mut Vec<u8>, o: &Option<String>)
    ensures
        final(out)@ == old(out)@ + enc_opt_str(opt_view(*o)),
{
    match o {
        None => {
            out.push(0);
            proof {
                reveal(enc_opt_str);
                assert(out@ =~= old(out)@ + enc_opt_str(opt_view(*o)));
            }
        },
        Some(s) => {
            out.push(1);
            push_str(out, s);
            proof {
                reveal(enc_opt_str);
                assert(out@ =~= old(out)@ + enc_opt_str(opt_view(*o)));
            }
        },
    }
}

fn push_opt_u32(out: &mut Vec<u8>, o: Option<u32>)
    ensures
        final(out)@ == old(out)@ + enc_opt_u32(o),
{
    match o {
        None => {
            out.push(0);
            proof {
                reveal(enc_opt_u32);
                assert(out@ =~= old(out)@ + enc_opt_u32(o));
            }
        },
        Some(n) => {
            out.push(1);
            push_u64(out, n as u64);
            proof {
                reveal(enc_opt_u32);
                assert(out@ =~= old(out)@ + enc_opt_u32(o));
            }
        },
    }
}

fn push_opt_votes(out: &mut Vec<u8>, o: &Option<Votes>)
    ensures
        final(out)@ == old(out)@ + enc_opt_votes(crate::model::opt_votes_view(*o)),
{
    match o {
        None => {
            out.push(0);
            proof {
                reveal(enc_opt_votes);
                assert(out@ =~= old(out)@ + enc_opt_votes(crate::model::opt_votes_view(*o)));
            }
        },
        Some(v) => {
            out.push(1);
            push_u64(out, v.yes as u64);
            push_u64(out, v.no as u64);
            proof {
                reveal(enc_opt_votes);
                assert(out@ =~= old(out)@ + enc_opt_votes(crate::model::opt_votes_view(*o)));
            }
        },
    }
}

/// Appending one more item extends the item encoding on the right.
proof fn lemma_enc_voter_items_push(vs: Seq<Seq<u8>>, x: Seq<u8>)
    ensures
        enc_voter_items(vs.push(x)) == enc_voter_items(vs) + enc_bytes(x),
    decreases vs.len(),
{
    reveal_with_fuel(enc_voter_items, 3);
    if vs.len() == 0 {
        assert(vs.push(x)[0] == x);
        assert(vs.push(x).drop_first() =~= Seq::<Seq<u8>>::empty());
        assert(enc_bytes(x) + Seq::<u8>::empty() =~= enc_bytes(x));
        assert(Seq::<u8>::empty() + enc_bytes(x) =~= enc_bytes(x));
    } else {
        lemma_enc_voter_items_push(vs.drop_first(), x);
        assert(vs.push(x)[0] == vs[0]);
        assert(vs.push(x).drop_first() =~= vs.drop_first().push(x));
        lemma_seq_assoc(enc_bytes(vs[0]), enc_voter_items(vs.drop_first()), enc_bytes(x));
    }
}

proof fn lemma_enc_proposal_items_push(ps: Seq<ProposalV>, x: ProposalV)
    ensures
        enc_proposal_items(ps.push(x)) == enc_proposal_items(ps) + enc_proposal(x),
    decreases ps.len(),
{
    reveal_with_fuel(enc_proposal_items, 3);
    if ps.len() == 0 {
        assert(ps.push(x)[0] == x);
        assert(ps.push(x).drop_first() =~= Seq::<ProposalV>::empty());
        assert(enc_proposal(x) + Seq::<u8>::empty() =~= enc_proposal(x));
        assert(Seq::<u8>::empty() + enc_proposal(x) =~= enc_proposal(x));
    } else {
        lemma_enc_proposal_items_push(ps.drop_first(), x);
        assert(ps.push(x)[0] == ps[0]);
        assert(ps.push(x).drop_first() =~= ps.drop_first().push(x));
        lemma_seq_assoc(enc_proposal(ps[0]), enc_proposal_items(ps.drop_first()), enc_proposal(x));
    }
}

proof fn lemma_enc_user_items_push(us: Seq<UserV>, x: UserV)
    ensures
        enc_user_items(us.push(x)) == enc_user_items(us) + enc_user(x),
    decreases us.len(),
{
    reveal_with_fuel(enc_user_items, 3);
    if us.len() == 0 {
        assert(us.push(x)[0] == x);
        assert(us.push(x).drop_first() =~= Seq::<UserV>::empty());
        assert(enc_user(x) + Seq::<u8>::empty() =~= enc_user(x));
        assert(Seq::<u8>::empty() + enc_user(x) =~= enc_user(x));
    } else {
        lemma_enc_user_items_push(us.drop_first(), x);
        assert(us.push(x)[0] == us[0]);
        assert(us.push(x).drop_first() =~= us.drop_first().push(x));
        lemma_seq_assoc(enc_user(us[0]), enc_user_items(us.drop_first()), enc_user(x));
    }
}

fn push_voters(out: &mut Vec<u8>, vs: &Vec<Vec<u8>>)
    ensures
        final(out)@ == old(out)@ + enc_voters(voters_view(*vs)),
{
    push_u64(out, vs.len() as u64);
    let ghost base = out@;
    let mut i: usize = 0;
    while i < vs.len()
        invariant
            i <= vs.len(),
            out@ == base + enc_voter_items(voters_view(*vs).take(i as int)),
        decreases vs.len() - i,
    {
        let ghost pre = voters_view(*vs).take(i as int);
        push_bytes(out, &vs[i]);
        i += 1;
        proof {
            assert(voters_view(*vs).take(i as int) =~= pre.push(voters_view(*vs)[i - 1]));
            lemma_enc_voter_items_push(pre, voters_view(*vs)[i - 1]);
            lemma_seq_assoc(base, enc_voter_items(pre), enc_bytes(voters_view(*vs)[i - 1]));
        }
    }
    proof {
        assert(voters_view(*vs).take(vs.len() as int) =~= voters_view(*vs));
        assert(out@ =~= old(out)@ + enc_voters(voters_view(*vs)));
    }
}

/// Writes one proposal record.
fn push_proposal(out: &mut Vec<u8>, p: &Proposal)
    ensures
        final(out)@ == old(out)@ + enc_proposal(p@),
{
    proof { reveal(enc_proposal); }
    let ghost base = out@;
    let ghost e1 = enc_str(p@.id);
    let ghost e2 = enc_str(p@.title);
    let ghost e3 = enc_str(p@.description);
    let ghost e4 = enc_opt_str(p@.image_url);
    let ghost e5 = enc_u64(p@.yes_votes as u64);
    let ghost e6 = enc_u64(p@.no_votes as u64);
    let ghost e7 = enc_u64(p@.created_at);
    let ghost e8 = enc_u64(p@.duration_days as u64);
    let ghost e9 = enc_opt_str(p@.time_left);
    let ghost e10 = enc_opt_str(p@.status);
    let ghost e11 = enc_opt_u32(p@.total_voters);
    let ghost e12 = enc_opt_str(p@.full_description);
    let ghost e13 = enc_opt_str(p@.image);
    let ghost e14 = enc_opt_votes(p@.votes);
    let ghost e15 = enc_opt_str(p@.author);
    let ghost e16 = enc_opt_str(p@.category);
    let ghost e17 = enc_opt_u32(p@.discussions);
    let ghost e18 = enc_voters(voters_view(p.voters));
    let ghost e19 = enc_opt_str(p@.user_id);
    let ghost p2 = e1 + e2;
    let ghost p3 = p2 + e3;
    let ghost p4 = p3 + e4;
    let ghost p5 = p4 + e5;
    let ghost p6 = p5 + e6;
    let ghost p7 = p6 + e7;
    let ghost p8 = p7 + e8;
    let ghost p9 = p8 + e9;
    let ghost p10 = p9 + e10;
    let ghost p11 = p10 + e11;
    let ghost p12 = p11 + e12;
    let ghost p13 = p12 + e13;
    let ghost p14 = p13 + e14;
    let ghost p15 = p14 + e15;
    let ghost p16 = p15 + e16;
    let ghost p17 = p16 + e17;
    let ghost p18 = p17 + e18;
    let ghost p19 = p18 + e19;
    push_str(out, &p.id);
    proof { assert(out@ == base + e1); }
    push_str(out, &p.title);
    proof { lemma_seq_assoc(base, e1, e2); assert(out@ == base + p2); }
    push_str(out, &p.description);
    proof { lemma_seq_assoc(base, p2, e3); assert(out@ == base + p3); }
    push_opt_str(out, &p.image_url);
    proof { lemma_seq_assoc(base, p3, e4); assert(out@ == base + p4); }
    push_u64(out, p.yes_votes as u64);
    proof { lemma_seq_assoc(base, p4, e5); assert(out@ == base + p5); }
    push_u64(out, p.no_votes as u64);
    proof { lemma_seq_assoc(base, p5, e6); assert(out@ == base + p6); }
    push_u64(out, p.created_at);
    proof { lemma_seq_assoc(base, p6, e7); assert(out@ == base + p7); }
    push_u64(out, p.duration_days as u64);
    proof { lemma_seq_assoc(base, p7, e8); assert(out@ == base + p8); }
    push_opt_str(out, &p.time_left);
    proof { lemma_seq_assoc(base, p8, e9); assert(out@ == base + p9); }
    push_opt_str(out, &p.status);
    proof { lemma_seq_assoc(base, p9, e10); assert(out@ == base + p10); }
    push_opt_u32(out, p.total_voters);
    proof { lemma_seq_assoc(base, p10, e11); assert(out@ == base + p11); }
    push_opt_str(out, &p.full_description);
    proof { lemma_seq_assoc(base, p11, e12); assert(out@ == base + p12); }
    push_opt_str(out, &p.image);
    proof { lemma_seq_assoc(base, p12, e13); assert(out@ == base + p13); }
    push_opt_votes(out, &p.votes);
    proof { lemma_seq_assoc(base, p13, e14); assert(out@ == base + p14); }
    push_opt_str(out, &p.author);
    proof { lemma_seq_assoc(base, p14, e15); assert(out@ == base + p15); }
    push_opt_str(out, &p.category);
    proof { lemma_seq_assoc(base, p15, e16); assert(out@ == base + p16); }
    push_opt_u32(out, p.discussions);
    proof { lemma_seq_assoc(base, p16, e17); assert(out@ == base + p17); }
    push_voters(out, &p.voters);
    proof { lemma_seq_assoc(base, p17, e18); assert(out@ == base + p18); }
    push_opt_str(out, &p.user_id);
    proof { lemma_seq_assoc(base, p18, e19); assert(out@ == base + p19); }
    proof { assert(p19 == enc_proposal(p@)); }
}

/// Writes one user record.
fn push_user(out: &mut Vec<u8>, u: &User)
    ensures
        final(out)@ == old(out)@ + enc_user(u@),
{
    proof { reveal(enc_user); }
    let ghost base = out@;
    let ghost e1 = enc_str(u@.id);
    let ghost e2 = enc_opt_str(u@.image_url);
    let ghost e3 = enc_str(u@.fullname);
    let ghost e4 = enc_str(u@.email);
    let ghost e5 = enc_opt_str(u@.location);
    let ghost e6 = enc_opt_str(u@.website);
    let ghost e7 = enc_opt_str(u@.bio);
    let ghost q2 = e1 + e2;
    let ghost q3 = q2 + e3;
    let ghost q4 = q3 + e4;
    let ghost q5 = q4 + e5;
    let ghost q6 = q5 + e6;
    let ghost q7 = q6 + e7;
    push_str(out, &u.id);
    proof { assert(out@ == base + e1); }
    push_opt_str(out, &u.image_url);
    proof { lemma_seq_assoc(base, e1, e2); assert(out@ == base + q2); }
    push_str(out, &u.fullname);
    proof { lemma_seq_assoc(base, q2, e3); assert(out@ == base + q3); }
    push_str(out, &u.email);
    proof { lemma_seq_assoc(base, q3, e4); assert(out@ == base + q4); }
    push_opt_str(out, &u.location);
    proof { lemma_seq_assoc(base, q4, e5); assert(out@ == base + q5); }
    push_opt_str(out, &u.website);
    proof { lemma_seq_assoc(base, q5, e6); assert(out@ == base + q6); }
    push_opt_str(out, &u.bio);
    proof { lemma_seq_assoc(base, q6, e7); assert(out@ == base + q7); }
    proof { assert(q7 == enc_user(u@)); }
}

impl State {
    /// Serializes the whole aggregate into one snapshot blob.
    pub fn to_snapshot(&self) -> (r: Vec<u8>)
        ensures
            r@ == enc_state(self@),
    {
        let mut out: Vec<u8> = Vec::new();
        push_u64(&mut out, self.proposals.len() as u64);
        let ghost base = out@;
        let mut i: usize = 0;
        while i < self.proposals.len()
            invariant
                i <= self.proposals.len(),
                out@ == base + enc_proposal_items(self@.proposals.take(i as int)),
            decreases self.proposals.len() - i,
        {
            let ghost pre = self@.proposals.take(i as int);
            push_proposal(&mut out, &self.proposals[i]);
            i += 1;
            proof {
                assert(self@.proposals.take(i as int) =~= pre.push(self@.proposals[i - 1]));
                lemma_enc_proposal_items_push(pre, self@.proposals[i - 1]);
                lemma_seq_assoc(base, enc_proposal_items(pre), enc_proposal(
                    self@.proposals[i - 1],
                ));
            }
        }
        proof {
            assert(self@.proposals.take(self.proposals.len() as int) =~= self@.proposals);
        }
        push_u64(&mut out, self.users.len() as u64);
        let ghost base2 = out@;
        let mut j: usize = 0;
        while j < self.users.len()
            invariant
                j <= self.users.len(),
                out@ == base2 + enc_user_items(self@.users.take(j as int)),
            decreases self.users.len() - j,
        {
            let ghost pre = self@.users.take(j as int);
            push_user(&mut out, &self.users[j]);
            j += 1;
            proof {
                assert(self@.users.take(j as int) =~= pre.push(self@.users[j - 1]));
                lemma_enc_user_items_push(pre, self@.users[j - 1]);
                lemma_seq_assoc(base2, enc_user_items(pre), enc_user(self@.users[j - 1]));
            }
        }
        proof {
            assert(self@.users.take(self.users.len() as int) =~= self@.users);
            assert(out@ =~= enc_state(self@));
        }
        out
    }
}


// ----------------------------------------------------------------------
// Exec decoders
// ----------------------------------------------------------------------

/// Relies on String::from_utf8: succeeds exactly on valid UTF-8 input
/// and returns the string whose UTF-8 bytes are that input.
#[verifier::external_body]
pub(crate) fn string_from_utf8(v: Vec<u8>) -> (r: Option<String>)
    ensures
        match r {
            Some(s) => valid_utf8(v@) && encode_utf8(s@) == v@,
            None => !valid_utf8(v@),
        },
{
    match String::from_utf8(v) {
        Ok(s) => Some(s),
        Err(_) => None,
    }
}

fn read_u64(b: &Vec<u8>, pos: &mut usize) -> (r: Option<u64>)
    requires
        *old(pos) <= b@.len(),
    ensures
        *final(pos) <= b@.len(),
        match r {
            Some(x) => dec_u64(b@.skip((*old(pos)) as int)) == Some(
                (x, b@.skip((*final(pos)) as int)),
            ),
            None => {
                &&& dec_u64(b@.skip((*old(pos)) as int)) is None
                &&& *final(pos) == *old(pos)
            },
        },
{
    proof {
        reveal(dec_u64);
    }
    if b.len() - *pos < 8 {
        return None;
    }
    let i = *pos;
    let x = (b[i] as u64) | ((b[i + 1] as u64) << 8u64) | ((b[i + 2] as u64) << 16u64) | ((b[i
        + 3] as u64) << 24u64) | ((b[i + 4] as u64) << 32u64) | ((b[i + 5] as u64) << 40u64) | ((
    b[i + 6] as u64) << 48u64) | ((b[i + 7] as u64) << 56u64);
    *pos = i + 8;
    proof {
        reveal(le_val);
        let s = b@.skip(i as int);
        assert(s.take(8) =~= seq![
            b@[i as int], b@[i + 1], b@[i + 2], b@[i + 3], b@[i + 4], b@[i + 5], b@[i + 6],
            b@[i + 7],
        ]);
        assert(le_val(s.take(8)) == x);
        assert(s.skip(8) =~= b@.skip(i + 8));
    }
    Some(x)
}

fn read_byte(b: &Vec<u8>, pos: &mut usize) -> (r: Option<u8>)
    requires
        *old(pos) <= b@.len(),
    ensures
        *final(pos) <= b@.len(),
        match r {
            Some(x) => {
                &&& *old(pos) < b@.len()
                &&& x == b@.skip((*old(pos)) as int)[0]
                &&& *final(pos) == *old(pos) + 1
                &&& b@.skip((*final(pos)) as int) == b@.skip((*old(pos)) as int).skip(1)
            },
            None => {
                &&& b@.skip((*old(pos)) as int).len() == 0
                &&& *final(pos) == *old(pos)
            },
        },
{
    if *pos >= b.len() {
        return None;
    }
    let x = b[*pos];
    *pos = *pos + 1;
    proof {
        assert(b@.skip(*pos as int) =~= b@.skip((*old(pos)) as int).skip(1));
    }
    Some(x)
}

#[verifier::loop_isolation(false)]
fn read_bytes(b: &Vec<u8>, pos: &mut usize) -> (r: Option<Vec<u8>>)
    requires
        *old(pos) <= b@.len(),
    ensures
        *final(pos) <= b@.len(),
        match r {
            Some(v) => dec_bytes(b@.skip((*old(pos)) as int)) == Some(
                (v@, b@.skip((*final(pos)) as int)),
            ),
            None => dec_bytes(b@.skip((*old(pos)) as int)) is None,
        },
{
    proof {
        reveal(dec_bytes);
    }
    let n = match read_u64(b, pos) {
        Some(n) => n,
        None => {
            return None;
        },
    };
    if ((b.len() - *pos) as u64) < n {
        return None;
    }
    let m = n as usize;
    let start = *pos;
    let ghost mid = start as int;
    let mut v: Vec<u8> = Vec::new();
    let end = start + m;
    let mut q = start;
    while q < end
        invariant
            start <= q,
            q <= end,
            end <= b@.len(),
            end == start + m,
            v@ == b@.subrange(mid, q as int),
        decreases end - q,
    {
        v.push(b[q]);
        q = q + 1;
        proof {
            assert(v@ =~= b@.subrange(mid, q as int));
        }
    }
    *pos = q;
    proof {
        let rbytes = b@.skip(mid);
        assert(rbytes.take(n as int) =~= b@.subrange(mid, mid + m));
        assert(rbytes.skip(n as int) =~= b@.skip(mid + m));
    }
    Some(v)
}

fn read_string(b: &Vec<u8>, pos: &mut usize) -> (r: Option<String>)
    requires
        *old(pos) <= b@.len(),
    ensures
        *final(pos) <= b@.len(),
        match r {
            Some(s) => dec_str(b@.skip((*old(pos)) as int)) == Some(
                (s@, b@.skip((*final(pos)) as int)),
            ),
            None => dec_str(b@.skip((*old(pos)) as int)) is None,
        },
{
    proof {
        reveal(dec_str);
    }
    let v = match read_bytes(b, pos) {
        Some(v) => v,
        None => {
            return None;
        },
    };
    match string_from_utf8(v) {
        Some(s) => Some(s),
        None => None,
    }
}

fn read_opt_string(b: &Vec<u8>, pos: &mut usize) -> (r: Option<Option<String>>)
    requires
        *old(pos) <= b@.len(),
    ensures
        *final(pos) <= b@.len(),
        match r {
            Some(o) => dec_opt_str(b@.skip((*old(pos)) as int)) == Some(
                (opt_view(o), b@.skip((*final(pos)) as int)),
            ),
            None => dec_opt_str(b@.skip((*old(pos)) as int)) is None,
        },
{
    proof {
        reveal(dec_opt_str);
    }
    let tag = match read_byte(b, pos) {
        Some(t) => t,
        None => {
            return None;
        },
    };
    if tag == 0 {
        return Some(None);
    }
    if tag != 1 {
        return None;
    }
    match read_string(b, pos) {
        Some(s) => Some(Some(s)),
        None => None,
    }
}

fn read_opt_u32(b: &Vec<u8>, pos: &mut usize) -> (r: Option<Option<u32>>)
    requires
        *old(pos) <= b@.len(),
    ensures
        *final(pos) <= b@.len(),
        match r {
            Some(o) => dec_opt_u32(b@.skip((*old(pos)) as int)) == Some(
                (o, b@.skip((*final(pos)) as int)),
            ),
            None => dec_opt_u32(b@.skip((*old(pos)) as int)) is None,
        },
{
    proof {
        reveal(dec_opt_u32);
    }
    let tag = match read_byte(b, pos) {
        Some(t) => t,
        None => {
            return None;
        },
    };
    if tag == 0 {
        return Some(None);
    }
    if tag != 1 {
        return None;
    }
    let n = match read_u64(b, pos) {
        Some(n) => n,
        None => {
            return None;
        },
    };
    if n > 0xffff_ffff {
        return None;
    }
    Some(Some(n as u32))
}

fn read_opt_votes(b: &Vec<u8>, pos: &mut usize) -> (r: Option<Option<Votes>>)
    requires
        *old(pos) <= b@.len(),
    ensures
        *final(pos) <= b@.len(),
        match r {
            Some(o) => dec_opt_votes(b@.skip((*old(pos)) as int)) == Some(
                (crate::model::opt_votes_view(o), b@.skip((*final(pos)) as int)),
            ),
            None => dec_opt_votes(b@.skip((*old(pos)) as int)) is None,
        },
{
    proof {
        reveal(dec_opt_votes);
    }
    let tag = match read_byte(b, pos) {
        Some(t) => t,
        None => {
            return None;
        },
    };
    if tag == 0 {
        return Some(None);
    }
    if tag != 1 {
        return None;
    }
    let y = match read_u64(b, pos) {
        Some(n) => n,
        None => {
            return None;
        },
    };
    let n2 = match read_u64(b, pos) {
        Some(n) => n,
        None => {
            return None;
        },
    };
    if y > 0xffff_ffff || n2 > 0xffff_ffff {
        return None;
    }
    Some(Some(Votes { yes: y as u32, no: n2 as u32 }))
}

#[verifier::loop_isolation(false)]
fn read_voters(b: &Vec<u8>, pos: &mut usize) -> (r: Option<Vec<Vec<u8>>>)
    requires
        *old(pos) <= b@.len(),
    ensures
        *final(pos) <= b@.len(),
        match r {
            Some(v) => dec_voters(b@.skip((*old(pos)) as int)) == Some(
                (voters_view(v), b@.skip((*final(pos)) as int)),
            ),
            None => dec_voters(b@.skip((*old(pos)) as int)) is None,
        },
{
    let n = match read_u64(b, pos) {
        Some(n) => n,
        None => {
            return None;
        },
    };
    let ghost items_start = *pos as int;
    let mut out: Vec<Vec<u8>> = Vec::new();
    let mut i: u64 = 0;
    while i < n
        invariant
            i <= n,
            *pos <= b@.len(),
            dec_voter_items(b@.skip(items_start), n as nat) == (match dec_voter_items(
                b@.skip(*pos as int),
                (n - i) as nat,
            ) {
                Some((xs, r2)) => Some((voters_view(out) + xs, r2)),
                None => None::<(Seq<Seq<u8>>, Seq<u8>)>,
            }),
        decreases n - i,
    {
        let ghost prev = voters_view(out);
        let ghost cur = *pos as int;
        let x = match read_bytes(b, pos) {
            Some(x) => x,
            None => {
                proof {
                    assert(dec_voter_items(b@.skip(cur), (n - i) as nat) is None);
                }
                return None;
            },
        };
        out.push(x);
        i = i + 1;
        proof {
            assert(voters_view(out) =~= prev.push(x@));
            assert forall|xs2: Seq<Seq<u8>>| prev + (seq![x@] + xs2) =~= prev.push(x@)
                + xs2 by {}
        }
    }
    proof {
        assert(voters_view(out) + Seq::<Seq<u8>>::empty() =~= voters_view(out));
        assert(dec_voter_items(b@.skip(items_start), n as nat) == Some(
            (voters_view(out), b@.skip((*pos) as int)),
        ));
    }
    Some(out)
}


#[verifier::rlimit(100)]
#[verifier::spinoff_prover]
fn read_proposal(b: &Vec<u8>, pos: &mut usize) -> (r: Option<Proposal>)
    requires
        *old(pos) <= b@.len(),
    ensures
        *final(pos) <= b@.len(),
        match r {
            Some(p) => dec_proposal(b@.skip((*old(pos)) as int)) == Some(
                (p@, b@.skip((*final(pos)) as int)),
            ),
            None => dec_proposal(b@.skip((*old(pos)) as int)) is None,
        },
{
    proof {
        reveal(dec_proposal);
    }
    let id = match read_string(b, pos) { Some(x) => x, None => { return None; } };
    let title = match read_string(b, pos) { Some(x) => x, None => { return None; } };
    let description = match read_string(b, pos) { Some(x) => x, None => { return None; } };
    let image_url = match read_opt_string(b, pos) { Some(x) => x, None => { return None; } };
    let yes = match read_u64(b, pos) { Some(x) => x, None => { return None; } };
    if yes > 0xffff_ffff { return None; }
    let no = match read_u64(b, pos) { Some(x) => x, None => { return None; } };
    if no > 0xffff_ffff { return None; }
    let created_at = match read_u64(b, pos) { Some(x) => x, None => { return None; } };
    let dur = match read_u64(b, pos) { Some(x) => x, None => { return None; } };
    if dur > 0xffff_ffff { return None; }
    let time_left = match read_opt_string(b, pos) { Some(x) => x, None => { return None; } };
    let status = match read_opt_string(b, pos) { Some(x) => x, None => { return None; } };
    let total_voters = match read_opt_u32(b, pos) { Some(x) => x, None => { return None; } };
    let full_description = match read_opt_string(b, pos) { Some(x) => x, None => { return None; } };
    let image = match read_opt_string(b, pos) { Some(x) => x, None => { return None; } };
    let votes = match read_opt_votes(b, pos) { Some(x) => x, None => { return None; } };
    let author = match read_opt_string(b, pos) { Some(x) => x, None => { return None; } };
    let category = match read_opt_string(b, pos) { Some(x) => x, None => { return None; } };
    let discussions = match read_opt_u32(b, pos) { Some(x) => x, None => { return None; } };
    let voters = match read_voters(b, pos) { Some(x) => x, None => { return None; } };
    let user_id = match read_opt_string(b, pos) { Some(x) => x, None => { return None; } };
    let p = Proposal {
        id,
        title,
        description,
        image_url,
        yes_votes: yes as u32,
        no_votes: no as u32,
        created_at,
        duration_days: dur as u32,
        time_left,
        status,
        total_voters,
        full_description,
        image,
        votes,
        author,
        category,
        discussions,
        voters,
        user_id,
    };
    proof {
        assert(dec_proposal(b@.skip((*old(pos)) as int)) matches Some((pv, rr)) && pv =~~= p@
            && rr == b@.skip((*pos) as int));
    }
    Some(p)
}

#[verifier::rlimit(100)]
#[verifier::spinoff_prover]
fn read_user(b: &Vec<u8>, pos: &mut usize) -> (r: Option<User>)
    requires
        *old(pos) <= b@.len(),
    ensures
        *final(pos) <= b@.len(),
        match r {
            Some(u) => dec_user(b@.skip((*old(pos)) as int)) == Some(
                (u@, b@.skip((*final(pos)) as int)),
            ),
            None => dec_user(b@.skip((*old(pos)) as int)) is None,
        },
{
    proof {
        reveal(dec_user);
    }
    let id = match read_string(b, pos) { Some(x) => x, None => { return None; } };
    let image_url = match read_opt_string(b, pos) { Some(x) => x, None => { return None; } };
    let fullname = match read_string(b, pos) { Some(x) => x, None => { return None; } };
    let email = match read_string(b, pos) { Some(x) => x, None => { return None; } };
    let location = match read_opt_string(b, pos) { Some(x) => x, None => { return None; } };
    let website = match read_opt_string(b, pos) { Some(x) => x, None => { return None; } };
    let bio = match read_opt_string(b, pos) { Some(x) => x, None => { return None; } };
    let u = User { id, image_url, fullname, email, location, website, bio };
    proof {
        assert(dec_user(b@.skip((*old(pos)) as int)) matches Some((uv, rr)) && uv =~~= u@
            && rr == b@.skip((*pos) as int));
    }
    Some(u)
}

/// Parses a snapshot blob back into an aggregate, without judging its
/// invariants.
#[verifier::loop_isolation(false)]
fn parse_snapshot(bytes: &Vec<u8>) -> (r: Option<State>)
    ensures
        match r {
            Some(st) => dec_state(bytes@) == Some(st@),
            None => dec_state(bytes@) is None,
        },
{
    let mut pos: usize = 0;
    proof {
        assert(bytes@.skip(0) =~= bytes@);
    }
    let np = match read_u64(bytes, &mut pos) { Some(x) => x, None => { return None; } };
    let ghost pitems_start = pos as int;
    let mut proposals: Vec<Proposal> = Vec::new();
    let mut i: u64 = 0;
    while i < np
        invariant
            i <= np,
            pos <= bytes@.len(),
            proposals@.len() == i,
            dec_proposal_items(bytes@.skip(pitems_start), np as nat) == (match dec_proposal_items(
                bytes@.skip(pos as int),
                (np - i) as nat,
            ) {
                Some((xs, r2)) => Some((proposals@.map(|k: int, p: Proposal| p@) + xs, r2)),
                None => None::<(Seq<ProposalV>, Seq<u8>)>,
            }),
        decreases np - i,
    {
        let ghost prev = proposals@.map(|k: int, p: Proposal| p@);
        let ghost cur = pos as int;
        let p = match read_proposal(bytes, &mut pos) {
            Some(x) => x,
            None => {
                proof {
                    assert(dec_proposal_items(bytes@.skip(cur), (np - i) as nat) is None);
                }
                return None;
            },
        };
        proposals.push(p);
        i = i + 1;
        proof {
            assert(proposals@.map(|k: int, p2: Proposal| p2@) =~= prev.push(p@));
            assert forall|xs2: Seq<ProposalV>| prev + (seq![p@] + xs2) =~= prev.push(p@)
                + xs2 by {}
        }
    }
    proof {
        let pv = proposals@.map(|k: int, p2: Proposal| p2@);
        assert(pv + Seq::<ProposalV>::empty() =~= pv);
        assert(dec_proposal_items(bytes@.skip(pitems_start), np as nat) == Some(
            (pv, bytes@.skip(pos as int)),
        ));
    }
    let nu = match read_u64(bytes, &mut pos) { Some(x) => x, None => { return None; } };
    let ghost uitems_start = pos as int;
    let mut users: Vec<User> = Vec::new();
    let mut j: u64 = 0;
    while j < nu
        invariant
            j <= nu,
            pos <= bytes@.len(),
            users@.len() == j,
            dec_user_items(bytes@.skip(uitems_start), nu as nat) == (match dec_user_items(
                bytes@.skip(pos as int),
                (nu - j) as nat,
            ) {
                Some((xs, r2)) => Some((users@.map(|k: int, u: User| u@) + xs, r2)),
                None => None::<(Seq<UserV>, Seq<u8>)>,
            }),
        decreases nu - j,
    {
        let ghost prev = users@.map(|k: int, u: User| u@);
        let ghost cur = pos as int;
        let u = match read_user(bytes, &mut pos) {
            Some(x) => x,
            None => {
                proof {
                    assert(dec_user_items(bytes@.skip(cur), (nu - j) as nat) is None);
                }
                return None;
            },
        };
        users.push(u);
        j = j + 1;
        proof {
            assert(users@.map(|k: int, u2: User| u2@) =~= prev.push(u@));
            assert forall|xs2: Seq<UserV>| prev + (seq![u@] + xs2) =~= prev.push(u@) + xs2 by {}
        }
    }
    proof {
        let uv = users@.map(|k: int, u2: User| u2@);
        assert(uv + Seq::<UserV>::empty() =~= uv);
        assert(dec_user_items(bytes@.skip(uitems_start), nu as nat) == Some(
            (uv, bytes@.skip(pos as int)),
        ));
    }
    if pos != bytes.len() {
        proof {
            assert(bytes@.skip(pos as int).len() != 0);
        }
        return None;
    }
    let st = State { proposals, users };
    proof {
        assert(bytes@.skip(pos as int).len() == 0);
        assert(dec_state(bytes@) matches Some(v) && v =~~= st@);
    }
    Some(st)
}

/// Do the voter tokens contain no duplicate?
fn voters_distinct(v: &Vec<Vec<u8>>) -> (r: bool)
    ensures
        r == (forall|i: int, j: int|
            0 <= i < j < voters_view(*v).len() ==> voters_view(*v)[i] != voters_view(*v)[j]),
{
    let mut i: usize = 0;
    while i < v.len()
        invariant
            i <= v.len(),
            forall|a: int, c: int|
                0 <= a < c < voters_view(*v).len() && a < i ==> voters_view(*v)[a]
                    != voters_view(*v)[c],
        decreases v.len() - i,
    {
        let mut j: usize = i + 1;
        while j < v.len()
            invariant
                i < v.len(),
                i + 1 <= j,
                j <= v.len(),
                forall|a: int, c: int|
                    0 <= a < c < voters_view(*v).len() && a < i ==> voters_view(*v)[a]
                        != voters_view(*v)[c],
                forall|c: int| i < c < j ==> voters_view(*v)[i as int] != voters_view(*v)[c],
            decreases v.len() - j,
        {
            if crate::store::bytes_eq(&v[i], &v[j]) {
                proof {
                    assert(voters_view(*v)[i as int] == voters_view(*v)[j as int]);
                }
                return false;
            }
            j += 1;
        }
        i += 1;
    }
    true
}

/// Does one proposal satisfy its own invariant?
fn check_proposal_wf(p: &Proposal) -> (r: bool)
    ensures
        r == p@.wf(),
{
    let votes_ok = match &p.votes {
        Some(v) => v.yes == p.yes_votes && v.no == p.no_votes,
        None => false,
    };
    let sum_ok = (p.yes_votes as u64) + (p.no_votes as u64) == (p.voters.len() as u64);
    let tv_ok = match p.total_voters {
        Some(t) => (t as u64) == (p.voters.len() as u64),
        None => p.voters.len() == 0,
    };
    let dist = voters_distinct(&p.voters);
    votes_ok && sum_ok && tv_ok && dist
}

/// Are all proposal ids distinct?
fn proposal_ids_unique(v: &Vec<Proposal>) -> (r: bool)
    ensures
        r == (forall|i: int, j: int|
            0 <= i < j < v@.len() ==> (#[trigger] v@[i]@).id != (#[trigger] v@[j]@).id),
{
    let mut i: usize = 0;
    while i < v.len()
        invariant
            i <= v.len(),
            forall|a: int, c: int|
                0 <= a < c < v@.len() && a < i ==> (#[trigger] v@[a]@).id != (#[trigger] v@[c]@).id,
        decreases v.len() - i,
    {
        let mut j: usize = i + 1;
        while j < v.len()
            invariant
                i < v.len(),
                i + 1 <= j,
                j <= v.len(),
                forall|a: int, c: int|
                    0 <= a < c < v@.len() && a < i ==> (#[trigger] v@[a]@).id != (
                    #[trigger] v@[c]@).id,
                forall|c: int| i < c < j ==> (v@[i as int]@).id != (#[trigger] v@[c]@).id,
            decreases v.len() - j,
        {
            if v[i].id.eq(&v[j].id) {
                proof {
                    assert((v@[i as int]@).id == (v@[j as int]@).id);
                }
                return false;
            }
            j += 1;
        }
        i += 1;
    }
    true
}

/// Are all user ids distinct?
fn user_ids_unique(v: &Vec<User>) -> (r: bool)
    ensures
        r == (forall|i: int, j: int|
            0 <= i < j < v@.len() ==> (#[trigger] v@[i]@).id != (#[trigger] v@[j]@).id),
{
    let mut i: usize = 0;
    while i < v.len()
        invariant
            i <= v.len(),
            forall|a: int, c: int|
                0 <= a < c < v@.len() && a < i ==> (#[trigger] v@[a]@).id != (#[trigger] v@[c]@).id,
        decreases v.len() - i,
    {
        let mut j: usize = i + 1;
        while j < v.len()
            invariant
                i < v.len(),
                i + 1 <= j,
                j <= v.len(),
                forall|a: int, c: int|
                    0 <= a < c < v@.len() && a < i ==> (#[trigger] v@[a]@).id != (
                    #[trigger] v@[c]@).id,
                forall|c: int| i < c < j ==> (v@[i as int]@).id != (#[trigger] v@[c]@).id,
            decreases v.len() - j,
        {
            if v[i].id.eq(&v[j].id) {
                proof {
                    assert((v@[i as int]@).id == (v@[j as int]@).id);
                }
                return false;
            }
            j += 1;
        }
        i += 1;
    }
    true
}

/// Does the whole aggregate satisfy its invariant?
fn check_state_wf(s: &State) -> (r: bool)
    ensures
        r == s@.wf(),
{
    if !proposal_ids_unique(&s.proposals) {
        proof {
            let (a, c) = choose|a: int, c: int|
                0 <= a < c < s.proposals@.len() && (#[trigger] s.proposals@[a]@).id == (
                #[trigger] s.proposals@[c]@).id;
            assert(s@.proposals[a].id == s@.proposals[c].id);
            assert(!s@.wf());
        }
        return false;
    }
    if !user_ids_unique(&s.users) {
        proof {
            let (a, c) = choose|a: int, c: int|
                0 <= a < c < s.users@.len() && (#[trigger] s.users@[a]@).id == (
                #[trigger] s.users@[c]@).id;
            assert(s@.users[a].id == s@.users[c].id);
            assert(!s@.wf());
        }
        return false;
    }
    let mut i: usize = 0;
    while i < s.proposals.len()
        invariant
            i <= s.proposals.len(),
            forall|a: int| 0 <= a < i ==> (#[trigger] s@.proposals[a]).wf(),
            forall|a: int, c: int|
                0 <= a < c < s@.proposals.len() ==> s@.proposals[a].id != s@.proposals[c].id,
            forall|a: int, c: int|
                0 <= a < c < s@.users.len() ==> s@.users[a].id != s@.users[c].id,
        decreases s.proposals.len() - i,
    {
        if !check_proposal_wf(&s.proposals[i]) {
            proof {
                assert(!(#[trigger] s@.proposals[i as int]).wf());
                assert(!s@.wf());
            }
            return false;
        }
        i += 1;
    }
    true
}

impl State {
    /// Rebuilds the aggregate from a snapshot blob. A blob that does not
    /// parse back to a well-formed aggregate yields the empty aggregate:
    /// restarting on a bad snapshot is never fatal.
    pub fn from_snapshot(bytes: &Vec<u8>) -> (r: State)
        ensures
            r@.wf(),
            match dec_state(bytes@) {
                Some(v) => if v.wf() {
                    r@ == v
                } else {
                    r@ == StateV::empty()
                },
                None => r@ == StateV::empty(),
            },
    {
        match parse_snapshot(bytes) {
            Some(st) => {
                if check_state_wf(&st) {
                    st
                } else {
                    State::new()
                }
            },
            None => State::new(),
        }
    }
}

} // verus!
