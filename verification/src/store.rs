//! The entity store: CRUD and voting over the `State` aggregate, with the
//! one-vote-per-identity state machine and derived statistics.

use vstd::prelude::*;
use crate::model::{Votes, VoteChoice, VoteError, Proposal, User, ProposalStats,
    State, VotesV, ProposalV, UserV, StateV, opt_view, voters_view};
use crate::ident::{id_of, generate_deterministic_id};

verus! {

/// The principal (identity) that a token text parses to, if any; a
/// function of the token text alone.
pub uninterp spec fn principal_of(s: Seq<char>) -> Option<Seq<u8>>;

/// Relies on candid's `Principal::from_text`: whether a token parses,
/// and the parsed principal's bytes, depend on the token text alone.
#[verifier::external_body]
fn principal_from_text(s: &String) -> (r: Option<Vec<u8>>)
    ensures
        match r {
            Some(b) => principal_of(s@) matches Some(pb) && pb == b@,
            None => principal_of(s@) is None,
        },
{
    match candid::Principal::from_text(s.as_str()) {
        Ok(p) => Some(p.as_slice().to_vec()),
        Err(_) => None,
    }
}

/// The decimal digit characters of `n`, most significant first.
pub open spec fn dec_chars(n: nat) -> Seq<char>
    decreases n,
{
    if n < 10 {
        seq![digit_char(n)]
    } else {
        dec_chars(n / 10) + seq![digit_char(n % 10)]
    }
}

/// The digit character for a value below 10.
pub open spec fn digit_char(d: nat) -> char {
    if d == 0 { '0' } else if d == 1 { '1' } else if d == 2 { '2' } else if d == 3 { '3' }
    else if d == 4 { '4' } else if d == 5 { '5' } else if d == 6 { '6' } else if d == 7 { '7' }
    else if d == 8 { '8' } else { '9' }
}

/// Appends the decimal digit characters of `n` to `out`.
pub fn push_dec_chars(out: &mut String, n: u64)
    ensures
        final(out)@ == old(out)@ + dec_chars(n as nat),
    decreases n,
{
    if n >= 10 {
        push_dec_chars(out, n / 10);
    }
    let d = (n % 10) as u32;
    if d == 0 { out.append("0"); } else if d == 1 { out.append("1"); }
    else if d == 2 { out.append("2"); } else if d == 3 { out.append("3"); }
    else if d == 4 { out.append("4"); } else if d == 5 { out.append("5"); }
    else if d == 6 { out.append("6"); } else if d == 7 { out.append("7"); }
    else if d == 8 { out.append("8"); } else { out.append("9"); }
    proof {
        reveal_strlit("0"); reveal_strlit("1"); reveal_strlit("2"); reveal_strlit("3");
        reveal_strlit("4"); reveal_strlit("5"); reveal_strlit("6"); reveal_strlit("7");
        reveal_strlit("8"); reveal_strlit("9");
        assert(final(out)@ =~= old(out)@ + dec_chars(n as nat));
    }
}

/// The display string stored in `time_left` at creation: "<n> days".
pub open spec fn time_left_chars(duration_days: u32) -> Seq<char> {
    dec_chars(duration_days as nat) + " days"@
}

/// Builds the `time_left` display string for a duration in days.
pub fn format_time_left(duration_days: u32) -> (r: String)
    ensures
        r@ == time_left_chars(duration_days),
{
    let mut s = String::new();
    push_dec_chars(&mut s, duration_days as u64);
    s.append(" days");
    proof {
        reveal_strlit(" days");
        assert(s@ =~= time_left_chars(duration_days));
    }
    s
}

/// The proposal record created by `add_proposal`: fresh counters, empty
/// voter set, the mirrored `votes` record at zero.
pub open spec fn fresh_proposal(
    id: Seq<char>,
    title: Seq<char>,
    description: Seq<char>,
    image_url: Option<Seq<char>>,
    duration_days: u32,
    full_description: Option<Seq<char>>,
    category: Option<Seq<char>>,
    image: Option<Seq<char>>,
    author: Option<Seq<char>>,
    user_id: Option<Seq<char>>,
    now_ns: u64,
) -> ProposalV {
    ProposalV {
        id: id,
        title: title,
        description: description,
        image_url: image_url,
        yes_votes: 0,
        no_votes: 0,
        created_at: (now_ns / 1_000_000_000) as u64,
        duration_days: duration_days,
        time_left: Some(time_left_chars(duration_days)),
        status: None,
        total_voters: None,
        full_description: full_description,
        image: image,
        votes: Some(VotesV { yes: 0, no: 0 }),
        author: author,
        category: category,
        discussions: None,
        voters: Seq::empty(),
        user_id: user_id,
    }
}

/// The user record created by `create_profile`.
pub open spec fn fresh_user(
    id: Seq<char>,
    image_url: Option<Seq<char>>,
    fullname: Seq<char>,
    email: Seq<char>,
    location: Option<Seq<char>>,
    website: Option<Seq<char>>,
    bio: Option<Seq<char>>,
) -> UserV {
    UserV {
        id: id,
        image_url: image_url,
        fullname: fullname,
        email: email,
        location: location,
        website: website,
        bio: bio,
    }
}

/// The proposal after a successful vote: the chosen counter and its
/// mirror grow by one, the voter is recorded, `total_voters` counts it.
pub open spec fn vote_applied(p: ProposalV, principal: Seq<u8>, choice: VoteChoice) -> ProposalV {
    let yes2 = if choice is Yes { (p.yes_votes + 1) as u32 } else { p.yes_votes };
    let no2 = if choice is No { (p.no_votes + 1) as u32 } else { p.no_votes };
    ProposalV {
        yes_votes: yes2,
        no_votes: no2,
        votes: Some(VotesV { yes: yes2, no: no2 }),
        total_voters: Some((tv_count(p) + 1) as u32),
        voters: p.voters.push(principal),
        ..p
    }
}

/// `total_voters` read as a plain count (absent means zero).
pub open spec fn tv_count(p: ProposalV) -> u32 {
    match p.total_voters {
        Some(t) => t,
        None => 0,
    }
}

/// Sum of the `yes` counters of a sequence of proposals.
pub open spec fn sum_yes(ps: Seq<ProposalV>) -> int
    decreases ps.len(),
{
    if ps.len() == 0 {
        0
    } else {
        sum_yes(ps.drop_last()) + ps.last().yes_votes
    }
}

/// Sum of the `no` counters of a sequence of proposals.
pub open spec fn sum_no(ps: Seq<ProposalV>) -> int
    decreases ps.len(),
{
    if ps.len() == 0 {
        0
    } else {
        sum_no(ps.drop_last()) + ps.last().no_votes
    }
}

/// Clamp an exact mathematical total into a `u64` field.
pub open spec fn sat64(x: int) -> u64 {
    if x > u64::MAX {
        u64::MAX
    } else if x < 0 {
        0
    } else {
        x as u64
    }
}


/// Everything `vote_proposal` promises, as a relation between the state
/// before, the state after, and the result.
pub open spec fn vote_post(
    pre: StateV,
    post: StateV,
    id: Seq<char>,
    token: Seq<char>,
    choice: VoteChoice,
    r: Result<(), VoteError>,
) -> bool {
    &&& post.wf()
    &&& post.users == pre.users
    &&& match r {
        Err(VoteError::InvalidIdentity) => {
            &&& principal_of(token) is None
            &&& post == pre
        },
        Err(VoteError::NotFound) => {
            &&& principal_of(token) is Some
            &&& !pre.has_proposal(id)
            &&& post == pre
        },
        Err(VoteError::AlreadyVoted) => {
            &&& principal_of(token) matches Some(pb) && exists|i: int|
                0 <= i < pre.proposals.len() && (#[trigger] pre.proposals[i]).id == id
                    && pre.proposals[i].voters.contains(pb)
            &&& post == pre
        },
        Ok(_) => {
            principal_of(token) matches Some(pb) && exists|i: int|
                0 <= i < pre.proposals.len() && (#[trigger] pre.proposals[i]).id == id
                    && !pre.proposals[i].voters.contains(pb) && post.proposals =~= pre.proposals
                    .update(i, vote_applied(pre.proposals[i], pb, choice))
        },
    }
}

/// Everything `delete_proposal` promises, as a relation.
pub open spec fn delete_post(pre: StateV, post: StateV, id: Seq<char>, r: Result<
    (),
    VoteError,
>) -> bool {
    &&& post.wf()
    &&& post.users == pre.users
    &&& match r {
        Ok(_) => exists|i: int|
            0 <= i < pre.proposals.len() && (#[trigger] pre.proposals[i]).id == id
                && post.proposals =~= pre.proposals.remove(i),
        Err(VoteError::NotFound) => {
            &&& !pre.has_proposal(id)
            &&& post == pre
        },
        Err(_) => false,
    }
}

impl StateV {

    /// Every proposal with this id (there is at most one in a well-formed
    /// state) still has room for one more distinct voter in its `u32`
    /// counters.
    pub open spec fn vote_room(self, id: Seq<char>) -> bool {
        forall|i: int|
            0 <= i < self.proposals.len() && (#[trigger] self.proposals[i]).id == id
                ==> self.proposals[i].voters.len() < u32::MAX
    }
}

/// Compares two identity byte tokens.
pub(crate) fn bytes_eq(a: &Vec<u8>, b: &Vec<u8>) -> (r: bool)
    ensures
        r == (a@ == b@),
{
    if a.len() != b.len() {
        assert(a@ != b@);
        return false;
    }
    let mut i: usize = 0;
    while i < a.len()
        invariant
            a@.len() == b@.len(),
            i <= a@.len(),
            forall|j: int| 0 <= j < i ==> a@[j] == b@[j],
        decreases a@.len() - i,
    {
        if a[i] != b[i] {
            return false;
        }
        i += 1;
    }
    assert(a@ =~= b@);
    true
}

/// Does the voter list already contain this identity?
fn voters_contain(v: &Vec<Vec<u8>>, principal: &Vec<u8>) -> (r: bool)
    ensures
        r == voters_view(*v).contains(principal@),
{
    let mut i: usize = 0;
    while i < v.len()
        invariant
            i <= v@.len(),
            forall|j: int| 0 <= j < i ==> voters_view(*v)[j] != principal@,
        decreases v@.len() - i,
    {
        if bytes_eq(&v[i], principal) {
            assert(voters_view(*v)[i as int] == principal@);
            return true;
        }
        i += 1;
    }
    assert(!voters_view(*v).contains(principal@));
    false
}

/// First index of a proposal with this id, if any.
fn find_proposal_idx(v: &Vec<Proposal>, id: &String) -> (r: Option<usize>)
    ensures
        match r {
            Some(i) => i < v@.len() && v@[i as int]@.id == id@,
            None => forall|i: int| 0 <= i < v@.len() ==> (#[trigger] v@[i]@).id != id@,
        },
{
    let mut i: usize = 0;
    while i < v.len()
        invariant
            i <= v@.len(),
            forall|j: int| 0 <= j < i ==> (#[trigger] v@[j]@).id != id@,
        decreases v@.len() - i,
    {
        if v[i].id.eq(id) {
            return Some(i);
        }
        i += 1;
    }
    None
}

/// First index of a user with this id, if any.
fn find_user_idx(v: &Vec<User>, id: &String) -> (r: Option<usize>)
    ensures
        match r {
            Some(i) => i < v@.len() && v@[i as int]@.id == id@,
            None => forall|i: int| 0 <= i < v@.len() ==> (#[trigger] v@[i]@).id != id@,
        },
{
    let mut i: usize = 0;
    while i < v.len()
        invariant
            i <= v@.len(),
            forall|j: int| 0 <= j < i ==> (#[trigger] v@[j]@).id != id@,
        decreases v@.len() - i,
    {
        if v[i].id.eq(id) {
            return Some(i);
        }
        i += 1;
    }
    None
}

impl State {
    /// The empty aggregate, as at first process start.
    pub fn new() -> (r: State)
        ensures
            r@ == StateV::empty(),
            r@.wf(),
    {
        let r = State { proposals: Vec::new(), users: Vec::new() };
        proof {
            assert(r@.proposals =~= Seq::<ProposalV>::empty());
            assert(r@.users =~= Seq::<UserV>::empty());
        }
        r
    }

    /// Creates a proposal: allocates the id from the caller token and the
    /// timestamp, stamps `created_at` (in seconds), zeroes every counter,
    /// and inserts the record (replacing any record under the same id, as
    /// a mapping insert does). Always succeeds and returns the new id.
    pub fn add_proposal(
        &mut self,
        caller: &str,
        now_ns: u64,
        title: String,
        description: String,
        image_url: Option<String>,
        duration_days: u32,
        full_description: Option<String>,
        category: Option<String>,
        image: Option<String>,
        author: Option<String>,
        user_id: Option<String>,
    ) -> (r: String)
        requires
            old(self)@.wf(),
        ensures
            r@ == id_of(caller@, now_ns as nat),
            final(self)@.users == old(self)@.users,
            final(self)@.wf(),
            ({
                let p = fresh_proposal(
                    id_of(caller@, now_ns as nat),
                    title@,
                    description@,
                    opt_view(image_url),
                    duration_days,
                    opt_view(full_description),
                    opt_view(category),
                    opt_view(image),
                    opt_view(author),
                    opt_view(user_id),
                    now_ns,
                );
                if old(self)@.has_proposal(p.id) {
                    exists|i: int|
                        0 <= i < old(self)@.proposals.len()
                            && (#[trigger] old(self)@.proposals[i]).id == p.id
                            && final(self)@.proposals =~= old(self)@.proposals.update(i, p)
                } else {
                    final(self)@.proposals =~= old(self)@.proposals.push(p)
                }
            }),
    {
        let id = generate_deterministic_id(caller, now_ns);
        let created_at = now_ns / 1_000_000_000;
        let time_left = format_time_left(duration_days);
        let proposal = Proposal {
            id: id.clone(),
            title,
            description,
            image_url,
            yes_votes: 0,
            no_votes: 0,
            created_at,
            duration_days,
            time_left: Some(time_left),
            status: None,
            total_voters: None,
            full_description,
            image,
            votes: Some(Votes { yes: 0, no: 0 }),
            author,
            category,
            discussions: None,
            voters: Vec::new(),
            user_id,
        };
        let ghost fp = fresh_proposal(
            id_of(caller@, now_ns as nat),
            title@,
            description@,
            opt_view(image_url),
            duration_days,
            opt_view(full_description),
            opt_view(category),
            opt_view(image),
            opt_view(author),
            opt_view(user_id),
            now_ns,
        );
        proof {
            assert(proposal@.voters =~= Seq::<Seq<u8>>::empty());
            assert(proposal@ =~~= fp);
        }
        match find_proposal_idx(&self.proposals, &id) {
            Some(i) => {
                self.proposals.remove(i);
                self.proposals.insert(i, proposal);
                proof {
                    assert(self@.proposals =~= old(self)@.proposals.update(i as int, fp));
                    lemma_wf_update(old(self)@, self@, i as int, fp);
                }
            },
            None => {
                self.proposals.push(proposal);
                proof {
                    assert(self@.proposals =~= old(self)@.proposals.push(fp));
                    lemma_wf_push(old(self)@, self@, fp);
                }
            },
        }
        id
    }

    /// The voting state machine. Rejects an unparsable identity token,
    /// then a missing proposal, then a repeated vote; otherwise counts
    /// the ballot and records the voter. On any rejection the state is
    /// left unchanged.
    pub fn vote_proposal(&mut self, id: String, user_principal: String, choice: VoteChoice)
        -> (r: Result<(), VoteError>)
        requires
            old(self)@.wf(),
            old(self)@.vote_room(id@),
        ensures
            vote_post(old(self)@, final(self)@, id@, user_principal@, choice, r),
    {
        let principal = match principal_from_text(&user_principal) {
            Some(p) => p,
            None => {
                return Err(VoteError::InvalidIdentity);
            },
        };
        let idx = match find_proposal_idx(&self.proposals, &id) {
            Some(i) => i,
            None => {
                return Err(VoteError::NotFound);
            },
        };
        let mut p = self.proposals.remove(idx);
        if voters_contain(&p.voters, &principal) {
            self.proposals.insert(idx, p);
            proof {
                assert(self@.proposals =~= old(self)@.proposals);
                assert(self@ =~~= old(self)@);
            }
            return Err(VoteError::AlreadyVoted);
        }
        let ghost oldp = old(self)@.proposals[idx as int];
        proof {
            assert(oldp.wf());
            assert(oldp.voters.len() < u32::MAX);
        }
        match choice {
            VoteChoice::Yes => {
                p.yes_votes = p.yes_votes + 1;
            },
            VoteChoice::No => {
                p.no_votes = p.no_votes + 1;
            },
        }
        p.votes = Some(Votes { yes: p.yes_votes, no: p.no_votes });
        p.total_voters = Some(
            match p.total_voters {
                Some(t) => t + 1,
                None => 1,
            },
        );
        p.voters.push(principal);
        self.proposals.insert(idx, p);
        proof {
            assert(p@ =~~= vote_applied(oldp, principal@, choice));
            assert(self@.proposals =~= old(self)@.proposals.update(
                idx as int,
                vote_applied(oldp, principal@, choice),
            ));
            assert(vote_applied(oldp, principal@, choice).wf());
            lemma_wf_update(old(self)@, self@, idx as int, vote_applied(oldp, principal@, choice));
        }
        Ok(())
    }

    /// Removes a proposal by id; its votes disappear with it.
    pub fn delete_proposal(&mut self, id: String) -> (r: Result<(), VoteError>)
        requires
            old(self)@.wf(),
        ensures
            delete_post(old(self)@, final(self)@, id@, r),
    {
        match find_proposal_idx(&self.proposals, &id) {
            Some(i) => {
                self.proposals.remove(i);
                proof {
                    assert(self@.proposals =~= old(self)@.proposals.remove(i as int));
                    lemma_wf_remove(old(self)@, self@, i as int);
                    assert((i as int) < old(self)@.proposals.len()
                        && old(self)@.proposals[i as int].id == id@
                        && self@.proposals =~= old(self)@.proposals.remove(i as int));
                }
                Ok(())
            },
            None => Err(VoteError::NotFound),
        }
    }

    /// All proposals, in insertion order.
    pub fn get_proposals(&self) -> (r: &Vec<Proposal>)
        ensures
            r@.map(|i: int, p: Proposal| p@) == self@.proposals,
    {
        &self.proposals
    }

    /// The proposal with this id, if present.
    pub fn get_proposal_by_id(&self, id: String) -> (r: Option<&Proposal>)
        ensures
            match r {
                Some(p) => exists|i: int|
                    0 <= i < self@.proposals.len() && (#[trigger] self@.proposals[i]).id == id@
                        && p@ == self@.proposals[i],
                None => !self@.has_proposal(id@),
            },
    {
        match find_proposal_idx(&self.proposals, &id) {
            Some(i) => {
                let p = &self.proposals[i];
                proof {
                    assert(self@.proposals[i as int].id == id@ && p@ == self@.proposals[i as int]);
                }
                Some(p)
            },
            None => None,
        }
    }

    /// The proposals whose `user_id` equals the given id, in order.
    pub fn get_proposal_by_user_id(&self, user_id: String) -> (r: Vec<&Proposal>)
        ensures
            r@.map(|i: int, p: &Proposal| p@) == self@.proposals.filter(
                |p: ProposalV| p.user_id == Some(user_id@),
            ),
    {
        let mut out: Vec<&Proposal> = Vec::new();
        let mut i: usize = 0;
        while i < self.proposals.len()
            invariant
                i <= self.proposals.len(),
                out@.map(|k: int, p: &Proposal| p@) == self@.proposals.take(i as int).filter(
                    |p: ProposalV| p.user_id == Some(user_id@),
                ),
            decreases self.proposals.len() - i,
        {
            let ghost prefix = self@.proposals.take(i as int);
            let keep = match &self.proposals[i].user_id {
                Some(u) => u.eq(&user_id),
                None => false,
            };
            if keep {
                out.push(&self.proposals[i]);
            }
            i += 1;
            proof {
                let pred = |p: ProposalV| p.user_id == Some(user_id@);
                assert(self@.proposals.take(i as int).drop_last() =~= prefix);
                assert(self@.proposals.take(i as int).last() == self@.proposals[i - 1]);
                reveal_with_fuel(Seq::filter, 2);
                if keep {
                    assert(out@.map(|k: int, p: &Proposal| p@) =~= prefix.filter(pred).push(
                        self@.proposals[i - 1],
                    ));
                } else {
                    assert(out@.map(|k: int, p: &Proposal| p@) =~= prefix.filter(pred));
                }
            }
        }
        proof {
            assert(self@.proposals.take(self.proposals.len() as int) =~= self@.proposals);
        }
        out
    }

    /// Derived totals over all current proposals. The `u64` fields hold
    /// the exact sums clamped at `u64::MAX`.
    pub fn get_proposal_stats(&self) -> (r: ProposalStats)
        ensures
            r.total_proposals == self@.proposals.len(),
            r.total_yes_votes == sat64(sum_yes(self@.proposals)),
            r.total_no_votes == sat64(sum_no(self@.proposals)),
            r.total_votes == sat64(sum_yes(self@.proposals) + sum_no(self@.proposals)),
    {
        let mut yes: u64 = 0;
        let mut no: u64 = 0;
        let mut i: usize = 0;
        while i < self.proposals.len()
            invariant
                i <= self.proposals.len(),
                yes == sat64(sum_yes(self@.proposals.take(i as int))),
                no == sat64(sum_no(self@.proposals.take(i as int))),
            decreases self.proposals.len() - i,
        {
            let ghost prefix = self@.proposals.take(i as int);
            let py = self.proposals[i].yes_votes;
            let pn = self.proposals[i].no_votes;
            yes = if yes <= u64::MAX - py as u64 {
                yes + py as u64
            } else {
                u64::MAX
            };
            no = if no <= u64::MAX - pn as u64 {
                no + pn as u64
            } else {
                u64::MAX
            };
            i += 1;
            proof {
                assert(self@.proposals.take(i as int).drop_last() =~= prefix);
                assert(sum_yes(self@.proposals.take(i as int)) == sum_yes(prefix) + py);
                assert(sum_no(self@.proposals.take(i as int)) == sum_no(prefix) + pn);
                assert(sum_yes(prefix) >= 0 && sum_no(prefix) >= 0) by {
                    lemma_sums_nonneg(prefix);
                }
            }
        }
        proof {
            assert(self@.proposals.take(self.proposals.len() as int) =~= self@.proposals);
            lemma_sums_nonneg(self@.proposals);
        }
        let total = if yes <= u64::MAX - no {
            yes + no
        } else {
            u64::MAX
        };
        ProposalStats {
            total_proposals: self.proposals.len() as u64,
            total_yes_votes: yes,
            total_no_votes: no,
            total_votes: total,
        }
    }

    /// Creates a user profile; the id is allocated like a proposal id.
    pub fn create_profile(
        &mut self,
        caller: &str,
        now_ns: u64,
        image_url: Option<String>,
        fullname: String,
        email: String,
        location: Option<String>,
        website: Option<String>,
        bio: Option<String>,
    ) -> (r: String)
        requires
            old(self)@.wf(),
        ensures
            r@ == id_of(caller@, now_ns as nat),
            final(self)@.proposals == old(self)@.proposals,
            final(self)@.wf(),
            ({
                let u = fresh_user(
                    id_of(caller@, now_ns as nat),
                    opt_view(image_url),
                    fullname@,
                    email@,
                    opt_view(location),
                    opt_view(website),
                    opt_view(bio),
                );
                if old(self)@.has_user(u.id) {
                    exists|i: int|
                        0 <= i < old(self)@.users.len()
                            && (#[trigger] old(self)@.users[i]).id == u.id
                            && final(self)@.users =~= old(self)@.users.update(i, u)
                } else {
                    final(self)@.users =~= old(self)@.users.push(u)
                }
            }),
    {
        let id = generate_deterministic_id(caller, now_ns);
        let user = User { id: id.clone(), image_url, fullname, email, location, website, bio };
        let ghost fu = fresh_user(
            id_of(caller@, now_ns as nat),
            opt_view(image_url),
            fullname@,
            email@,
            opt_view(location),
            opt_view(website),
            opt_view(bio),
        );
        proof {
            assert(user@ =~~= fu);
        }
        match find_user_idx(&self.users, &id) {
            Some(i) => {
                self.users.remove(i);
                self.users.insert(i, user);
                proof {
                    assert(self@.users =~= old(self)@.users.update(i as int, fu));
                    lemma_wf_user_update(old(self)@, self@, i as int, fu);
                }
            },
            None => {
                self.users.push(user);
                proof {
                    assert(self@.users =~= old(self)@.users.push(fu));
                    lemma_wf_user_push(old(self)@, self@, fu);
                }
            },
        }
        id
    }

    /// All users, in insertion order.
    pub fn get_users(&self) -> (r: &Vec<User>)
        ensures
            r@.map(|i: int, u: User| u@) == self@.users,
    {
        &self.users
    }

    /// The user with this id, if present.
    pub fn get_users_by_id(&self, user_id: String) -> (r: Option<&User>)
        ensures
            match r {
                Some(u) => exists|i: int|
                    0 <= i < self@.users.len() && (#[trigger] self@.users[i]).id == user_id@
                        && u@ == self@.users[i],
                None => !self@.has_user(user_id@),
            },
    {
        match find_user_idx(&self.users, &user_id) {
            Some(i) => {
                let u = &self.users[i];
                proof {
                    assert(self@.users[i as int].id == user_id@ && u@ == self@.users[i as int]);
                }
                Some(u)
            },
            None => None,
        }
    }
}

/// The exact per-proposal sums are non-negative.
proof fn lemma_sums_nonneg(ps: Seq<ProposalV>)
    ensures
        sum_yes(ps) >= 0,
        sum_no(ps) >= 0,
    decreases ps.len(),
{
    if ps.len() > 0 {
        lemma_sums_nonneg(ps.drop_last());
    }
}

/// Replacing a proposal by a well-formed record with the same id keeps
/// the aggregate well-formed.
proof fn lemma_wf_update(s0: StateV, s1: StateV, i: int, p: ProposalV)
    requires
        s0.wf(),
        0 <= i < s0.proposals.len(),
        p.wf(),
        p.id == s0.proposals[i].id,
        s1.proposals =~= s0.proposals.update(i, p),
        s1.users == s0.users,
    ensures
        s1.wf(),
{
}

/// Appending a well-formed proposal under a fresh id keeps the aggregate
/// well-formed.
proof fn lemma_wf_push(s0: StateV, s1: StateV, p: ProposalV)
    requires
        s0.wf(),
        p.wf(),
        !s0.has_proposal(p.id),
        s1.proposals =~= s0.proposals.push(p),
        s1.users == s0.users,
    ensures
        s1.wf(),
{
    assert forall|a: int, b: int| 0 <= a < b < s1.proposals.len() implies
        s1.proposals[a].id != s1.proposals[b].id by {
        if b == s1.proposals.len() - 1 {
            assert(s1.proposals[a] == s0.proposals[a]);
        }
    }
}

/// Removing a proposal keeps the aggregate well-formed.
proof fn lemma_wf_remove(s0: StateV, s1: StateV, i: int)
    requires
        s0.wf(),
        0 <= i < s0.proposals.len(),
        s1.proposals =~= s0.proposals.remove(i),
        s1.users == s0.users,
    ensures
        s1.wf(),
{
    assert forall|a: int, b: int| 0 <= a < b < s1.proposals.len() implies
        s1.proposals[a].id != s1.proposals[b].id by {
        let a0: int = if a < i { a } else { a + 1 };
        let b0: int = if b < i { b } else { b + 1 };
        assert(s1.proposals[a] == s0.proposals[a0]);
        assert(s1.proposals[b] == s0.proposals[b0]);
    }
    assert forall|a: int| 0 <= a < s1.proposals.len() implies
        (#[trigger] s1.proposals[a]).wf() by {
        let a0: int = if a < i { a } else { a + 1 };
        assert(s1.proposals[a] == s0.proposals[a0]);
    }
}

/// Replacing or appending a user record keeps the aggregate well-formed.
proof fn lemma_wf_user_update(s0: StateV, s1: StateV, i: int, u: UserV)
    requires
        s0.wf(),
        0 <= i < s0.users.len(),
        u.id == s0.users[i].id,
        s1.users =~= s0.users.update(i, u),
        s1.proposals == s0.proposals,
    ensures
        s1.wf(),
{
}

/// Appending a user under a fresh id keeps the aggregate well-formed.
proof fn lemma_wf_user_push(s0: StateV, s1: StateV, u: UserV)
    requires
        s0.wf(),
        !s0.has_user(u.id),
        s1.users =~= s0.users.push(u),
        s1.proposals == s0.proposals,
    ensures
        s1.wf(),
{
    assert forall|a: int, b: int| 0 <= a < b < s1.users.len() implies
        s1.users[a].id != s1.users[b].id by {
        if b == s1.users.len() - 1 {
            assert(s1.users[a] == s0.users[a]);
        }
    }
}


/// One-shot voting: after a successful vote by an identity on a
/// proposal, any further vote by the same identity on the same proposal
/// is rejected with `AlreadyVoted` and leaves the state unchanged.
pub proof fn lemma_vote_exactly_once(
    pre: StateV,
    mid: StateV,
    post: StateV,
    id: Seq<char>,
    token: Seq<char>,
    choice1: VoteChoice,
    choice2: VoteChoice,
    r2: Result<(), VoteError>,
)
    requires
        pre.wf(),
        vote_post(pre, mid, id, token, choice1, Ok(())),
        vote_post(mid, post, id, token, choice2, r2),
    ensures
        r2 == Result::<(), VoteError>::Err(VoteError::AlreadyVoted),
        post == mid,
{
    let pb = principal_of(token)->0;
    let i = choose|i: int|
        0 <= i < pre.proposals.len() && (#[trigger] pre.proposals[i]).id == id
            && !pre.proposals[i].voters.contains(pb) && mid.proposals =~= pre.proposals.update(
            i,
            vote_applied(pre.proposals[i], pb, choice1),
        );
    let voted = vote_applied(pre.proposals[i], pb, choice1);
    assert(mid.proposals[i] == voted);
    assert(voted.voters[voted.voters.len() - 1] == pb);
    assert(mid.proposals[i].voters.contains(pb));
    assert(mid.proposals[i].id == id);
    assert(mid.has_proposal(id));
    match r2 {
        Err(VoteError::InvalidIdentity) => {
            assert(false);
        },
        Err(VoteError::NotFound) => {
            assert(false);
        },
        Err(VoteError::AlreadyVoted) => {
        },
        Ok(_) => {
            let j = choose|j: int|
                0 <= j < mid.proposals.len() && (#[trigger] mid.proposals[j]).id == id
                    && !mid.proposals[j].voters.contains(pb);
            if j != i {
                assert(mid.proposals[i].id != mid.proposals[j].id);
                assert(false);
            }
            assert(false);
        },
    }
}

/// Deleting a proposal removes it for good: after a successful delete,
/// no proposal under that id is present any more.
pub proof fn lemma_delete_then_absent(pre: StateV, post: StateV, id: Seq<char>)
    requires
        pre.wf(),
        delete_post(pre, post, id, Ok(())),
    ensures
        !post.has_proposal(id),
{
    let i = choose|i: int|
        0 <= i < pre.proposals.len() && (#[trigger] pre.proposals[i]).id == id
            && post.proposals =~= pre.proposals.remove(i);
    assert forall|j: int| 0 <= j < post.proposals.len() implies (#[trigger] post.proposals[j]).id
        != id by {
        let j0: int = if j < i {
            j
        } else {
            j + 1
        };
        assert(post.proposals[j] == pre.proposals[j0]);
        if j0 != i {
            assert(pre.proposals[j0].id != pre.proposals[i].id || pre.proposals[i].id
                != pre.proposals[j0].id);
        }
    }
}


/// The ledger invariant, read off a well-formed state: for every
/// proposal, `yes + no` equals the number of distinct voters and the
/// mirrored `votes` record agrees with both counters.
pub proof fn lemma_counters_match_voters(s: StateV, i: int)
    requires
        s.wf(),
        0 <= i < s.proposals.len(),
    ensures
        s.proposals[i].yes_votes + s.proposals[i].no_votes == s.proposals[i].voters.len(),
        s.proposals[i].votes matches Some(v) && v.yes == s.proposals[i].yes_votes && v.no
            == s.proposals[i].no_votes,
        tv_count(s.proposals[i]) == s.proposals[i].voters.len(),
{
}

} // verus!

