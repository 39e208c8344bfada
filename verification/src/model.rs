//! Data model: proposals, users, votes, and the aggregate `State`,
//! together with their mathematical views and well-formedness invariants.

use vstd::prelude::*;

verus! {

/// One turn of a chat conversation handed to the text-generation collaborator.
pub struct ChatTurn {
    /// "system" | "user" | "assistant" (any capitalization).
    pub role: String,
    pub content: String,
}

/// Mirror record packaging the two vote counters of a proposal.
pub struct Votes {
    pub yes: u32,
    pub no: u32,
}

/// A ballot choice.
pub enum VoteChoice {
    Yes,
    No,
}

/// Why a vote or a deletion was rejected.
#[derive(Debug)]
pub enum VoteError {
    /// The identity token failed to parse.
    InvalidIdentity,
    /// No proposal with the given id exists.
    NotFound,
    /// The identity already voted on this proposal.
    AlreadyVoted,
}

/// A governance item subject to yes/no voting.
pub struct Proposal {
    pub id: String,
    pub title: String,
    pub description: String,
    pub image_url: Option<String>,
    pub yes_votes: u32,
    pub no_votes: u32,
    pub created_at: u64,
    pub duration_days: u32,
    pub time_left: Option<String>,
    pub status: Option<String>,
    pub total_voters: Option<u32>,
    pub full_description: Option<String>,
    pub image: Option<String>,
    pub votes: Option<Votes>,
    pub author: Option<String>,
    pub category: Option<String>,
    pub discussions: Option<u32>,
    /// Identities (as opaque byte tokens) that have cast a vote; append-only.
    pub voters: Vec<Vec<u8>>,
    pub user_id: Option<String>,
}

/// A user profile.
pub struct User {
    pub id: String,
    pub image_url: Option<String>,
    pub fullname: String,
    pub email: String,
    pub location: Option<String>,
    pub website: Option<String>,
    pub bio: Option<String>,
}

/// The three text fields demanded from the text-generation collaborator.
pub struct GeneratedProposalDescription {
    pub title: String,
    pub description: String,
    pub full_description: String,
}

/// Aggregates derived from the current proposals.
pub struct ProposalStats {
    pub total_proposals: u64,
    pub total_yes_votes: u64,
    pub total_no_votes: u64,
    pub total_votes: u64,
}

/// The aggregate root: all proposals and users, keyed by id.
pub struct State {
    pub proposals: Vec<Proposal>,
    pub users: Vec<User>,
}

// ----------------------------------------------------------------------
// Mathematical views
// ----------------------------------------------------------------------

#[verifier::ext_equal]
pub ghost struct VotesV {
    pub yes: u32,
    pub no: u32,
}

#[verifier::ext_equal]
pub ghost struct ProposalV {
    pub id: Seq<char>,
    pub title: Seq<char>,
    pub description: Seq<char>,
    pub image_url: Option<Seq<char>>,
    pub yes_votes: u32,
    pub no_votes: u32,
    pub created_at: u64,
    pub duration_days: u32,
    pub time_left: Option<Seq<char>>,
    pub status: Option<Seq<char>>,
    pub total_voters: Option<u32>,
    pub full_description: Option<Seq<char>>,
    pub image: Option<Seq<char>>,
    pub votes: Option<VotesV>,
    pub author: Option<Seq<char>>,
    pub category: Option<Seq<char>>,
    pub discussions: Option<u32>,
    pub voters: Seq<Seq<u8>>,
    pub user_id: Option<Seq<char>>,
}

#[verifier::ext_equal]
pub ghost struct UserV {
    pub id: Seq<char>,
    pub image_url: Option<Seq<char>>,
    pub fullname: Seq<char>,
    pub email: Seq<char>,
    pub location: Option<Seq<char>>,
    pub website: Option<Seq<char>>,
    pub bio: Option<Seq<char>>,
}

#[verifier::ext_equal]
pub ghost struct StateV {
    pub proposals: Seq<ProposalV>,
    pub users: Seq<UserV>,
}

/// View of an optional string as an optional character sequence.
pub open spec fn opt_view(o: Option<String>) -> Option<Seq<char>> {
    match o {
        Some(s) => Some(s@),
        None => None,
    }
}

/// View of the optional mirrored counters record.
pub open spec fn opt_votes_view(o: Option<Votes>) -> Option<VotesV> {
    match o {
        Some(v) => Some(v@),
        None => None,
    }
}

/// View of the voter list as a sequence of byte tokens.
pub open spec fn voters_view(v: Vec<Vec<u8>>) -> Seq<Seq<u8>> {
    v@.map(|i: int, t: Vec<u8>| t@)
}

impl View for Votes {
    type V = VotesV;

    open spec fn view(&self) -> VotesV {
        VotesV { yes: self.yes, no: self.no }
    }
}

impl View for Proposal {
    type V = ProposalV;

    open spec fn view(&self) -> ProposalV {
        ProposalV {
            id: self.id@,
            title: self.title@,
            description: self.description@,
            image_url: opt_view(self.image_url),
            yes_votes: self.yes_votes,
            no_votes: self.no_votes,
            created_at: self.created_at,
            duration_days: self.duration_days,
            time_left: opt_view(self.time_left),
            status: opt_view(self.status),
            total_voters: self.total_voters,
            full_description: opt_view(self.full_description),
            image: opt_view(self.image),
            votes: opt_votes_view(self.votes),
            author: opt_view(self.author),
            category: opt_view(self.category),
            discussions: self.discussions,
            voters: voters_view(self.voters),
            user_id: opt_view(self.user_id),
        }
    }
}

impl View for User {
    type V = UserV;

    open spec fn view(&self) -> UserV {
        UserV {
            id: self.id@,
            image_url: opt_view(self.image_url),
            fullname: self.fullname@,
            email: self.email@,
            location: opt_view(self.location),
            website: opt_view(self.website),
            bio: opt_view(self.bio),
        }
    }
}

impl View for State {
    type V = StateV;

    open spec fn view(&self) -> StateV {
        StateV {
            proposals: self.proposals@.map(|i: int, p: Proposal| p@),
            users: self.users@.map(|i: int, u: User| u@),
        }
    }
}

// ----------------------------------------------------------------------
// Well-formedness
// ----------------------------------------------------------------------

impl ProposalV {
    /// The per-proposal invariant: the mirrored counters are in lockstep,
    /// `yes + no` equals the number of distinct voters, `total_voters`
    /// (when set) equals that number as well, and no voter occurs twice.
    pub open spec fn wf(self) -> bool {
        &&& self.votes matches Some(v) && v.yes == self.yes_votes && v.no == self.no_votes
        &&& self.yes_votes + self.no_votes == self.voters.len()
        &&& (match self.total_voters {
            Some(t) => t == self.voters.len(),
            None => self.voters.len() == 0,
        })
        &&& forall|i: int, j: int|
            0 <= i < j < self.voters.len() ==> self.voters[i] != self.voters[j]
    }
}

impl StateV {
    /// Is a proposal with this id present?
    pub open spec fn has_proposal(self, id: Seq<char>) -> bool {
        exists|i: int| 0 <= i < self.proposals.len() && self.proposals[i].id == id
    }

    /// Is a user with this id present?
    pub open spec fn has_user(self, id: Seq<char>) -> bool {
        exists|i: int| 0 <= i < self.users.len() && self.users[i].id == id
    }

    /// The aggregate invariant: ids are unique within each collection and
    /// every proposal satisfies its own invariant.
    pub open spec fn wf(self) -> bool {
        &&& forall|i: int, j: int|
            0 <= i < j < self.proposals.len() ==> self.proposals[i].id != self.proposals[j].id
        &&& forall|i: int, j: int|
            0 <= i < j < self.users.len() ==> self.users[i].id != self.users[j].id
        &&& forall|i: int| 0 <= i < self.proposals.len() ==> (#[trigger] self.proposals[i]).wf()
    }

    /// The empty aggregate.
    pub open spec fn empty() -> StateV {
        StateV { proposals: Seq::empty(), users: Seq::empty() }
    }
}

} // verus!
