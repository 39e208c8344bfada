use voting_app_backend::model::{Proposal, State, VoteChoice, Votes};

const NOW: u64 = 1_699_999_999_000_000_000;

fn populated_state() -> State {
    let mut state = State::new();
    let a = state.add_proposal(
        "caller-a",
        NOW,
        "Budget café ☕".to_string(),
        "Spend the treasury".to_string(),
        Some("https://example.org/a.png".to_string()),
        7,
        Some("Full text".to_string()),
        Some("finance".to_string()),
        None,
        Some("ada".to_string()),
        Some("user-1".to_string()),
    );
    let _b = state.add_proposal(
        "caller-b",
        NOW + 5,
        "Second".to_string(),
        "Another".to_string(),
        None,
        30,
        None,
        None,
        None,
        None,
        None,
    );
    state
        .vote_proposal(a.clone(), "2vxsx-fae".to_string(), VoteChoice::Yes)
        .unwrap();
    state
        .vote_proposal(a, "aaaaa-aa".to_string(), VoteChoice::No)
        .unwrap();
    state.create_profile(
        "caller-u",
        NOW,
        Some("img".to_string()),
        "Grace Hopper".to_string(),
        "grace@example.org".to_string(),
        Some("NYC".to_string()),
        None,
        None,
    );
    state
}

fn assert_same_proposal(p: &Proposal, q: &Proposal) {
    assert_eq!(p.id, q.id);
    assert_eq!(p.title, q.title);
    assert_eq!(p.description, q.description);
    assert_eq!(p.image_url, q.image_url);
    assert_eq!(p.yes_votes, q.yes_votes);
    assert_eq!(p.no_votes, q.no_votes);
    assert_eq!(p.created_at, q.created_at);
    assert_eq!(p.duration_days, q.duration_days);
    assert_eq!(p.time_left, q.time_left);
    assert_eq!(p.status, q.status);
    assert_eq!(p.total_voters, q.total_voters);
    assert_eq!(p.full_description, q.full_description);
    assert_eq!(p.image, q.image);
    match (&p.votes, &q.votes) {
        (Some(a), Some(b)) => assert_eq!((a.yes, a.no), (b.yes, b.no)),
        (None, None) => {}
        _ => panic!("votes mirror differs"),
    }
    assert_eq!(p.author, q.author);
    assert_eq!(p.category, q.category);
    assert_eq!(p.discussions, q.discussions);
    assert_eq!(p.voters, q.voters);
    assert_eq!(p.user_id, q.user_id);
}

#[test]
fn snapshot_roundtrip_reproduces_state() {
    let state = populated_state();
    let blob = state.to_snapshot();
    let restored = State::from_snapshot(&blob);

    assert_eq!(restored.proposals.len(), state.proposals.len());
    for (p, q) in state.proposals.iter().zip(restored.proposals.iter()) {
        assert_same_proposal(p, q);
    }
    assert_eq!(restored.users.len(), state.users.len());
    for (u, v) in state.users.iter().zip(restored.users.iter()) {
        assert_eq!(u.id, v.id);
        assert_eq!(u.fullname, v.fullname);
        assert_eq!(u.email, v.email);
        assert_eq!(u.image_url, v.image_url);
        assert_eq!(u.location, v.location);
        assert_eq!(u.website, v.website);
        assert_eq!(u.bio, v.bio);
    }
}

#[test]
fn snapshot_roundtrip_empty_state() {
    let state = State::new();
    let blob = state.to_snapshot();
    let restored = State::from_snapshot(&blob);
    assert!(restored.proposals.is_empty());
    assert!(restored.users.is_empty());
}

#[test]
fn restore_garbage_yields_empty_state() {
    let restored = State::from_snapshot(&vec![0xde, 0xad, 0xbe, 0xef]);
    assert!(restored.proposals.is_empty());
    assert!(restored.users.is_empty());

    let restored2 = State::from_snapshot(&Vec::new());
    assert!(restored2.proposals.is_empty());
    assert!(restored2.users.is_empty());
}

#[test]
fn restore_truncated_snapshot_yields_empty_state() {
    let state = populated_state();
    let mut blob = state.to_snapshot();
    blob.truncate(blob.len() / 2);
    let restored = State::from_snapshot(&blob);
    assert!(restored.proposals.is_empty());
    assert!(restored.users.is_empty());
}

#[test]
fn restore_trailing_bytes_yields_empty_state() {
    let state = populated_state();
    let mut blob = state.to_snapshot();
    blob.push(0);
    let restored = State::from_snapshot(&blob);
    assert!(restored.proposals.is_empty());
}

#[test]
fn restore_rejects_broken_invariant() {
    // A record whose mirrored counters disagree never comes out of the
    // store's own operations; a snapshot carrying one is refused whole.
    let mut state = populated_state();
    state.proposals[0].yes_votes = 99;
    state.proposals[0].votes = Some(Votes { yes: 0, no: 0 });
    let blob = state.to_snapshot();
    let restored = State::from_snapshot(&blob);
    assert!(restored.proposals.is_empty());
    assert!(restored.users.is_empty());
}

#[test]
fn empty_snapshot_is_two_zero_counts() {
    // The exact encoding of the empty aggregate: two little-endian
    // zero counts and nothing else.
    let blob = State::new().to_snapshot();
    assert_eq!(blob, vec![0u8; 16]);
}
