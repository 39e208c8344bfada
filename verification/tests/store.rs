use voting_app_backend::model::{State, VoteChoice, VoteError};
use voting_app_backend::ident::generate_deterministic_id;

const NOW: u64 = 1_700_000_000_123_456_789;

// "2vxsx-fae" is the anonymous principal, "aaaaa-aa" the management
// canister: both are valid identity tokens.
const ALICE: &str = "2vxsx-fae";
const BOB: &str = "aaaaa-aa";

fn make_proposal(state: &mut State, duration_days: u32) -> String {
    state.add_proposal(
        "test-caller",
        NOW,
        "A title".to_string(),
        "A description".to_string(),
        None,
        duration_days,
        None,
        None,
        None,
        None,
        None,
    )
}

#[test]
fn scenario_create_vote_stats() {
    let mut state = State::new();
    let id = make_proposal(&mut state, 7);
    assert_eq!(id.len(), 32);

    assert!(matches!(state.vote_proposal(id.clone(), ALICE.to_string(), VoteChoice::Yes), Ok(())));
    {
        let p = state.get_proposal_by_id(id.clone()).unwrap();
        assert_eq!(p.yes_votes, 1);
        assert_eq!(p.no_votes, 0);
        assert_eq!(p.total_voters, Some(1));
        let v = p.votes.as_ref().unwrap();
        assert_eq!((v.yes, v.no), (1, 0));
    }

    // Second vote by the same identity: rejected, counters unchanged.
    assert!(matches!(
        state.vote_proposal(id.clone(), ALICE.to_string(), VoteChoice::Yes),
        Err(VoteError::AlreadyVoted)
    ));
    {
        let p = state.get_proposal_by_id(id.clone()).unwrap();
        assert_eq!(p.yes_votes, 1);
        assert_eq!(p.total_voters, Some(1));
    }

    assert!(matches!(state.vote_proposal(id.clone(), BOB.to_string(), VoteChoice::No), Ok(())));
    {
        let p = state.get_proposal_by_id(id.clone()).unwrap();
        assert_eq!(p.yes_votes, 1);
        assert_eq!(p.no_votes, 1);
        assert_eq!(p.total_voters, Some(2));
        assert_eq!(p.voters.len(), 2);
    }

    let stats = state.get_proposal_stats();
    assert_eq!(stats.total_proposals, 1);
    assert_eq!(stats.total_yes_votes, 1);
    assert_eq!(stats.total_no_votes, 1);
    assert_eq!(stats.total_votes, 2);
}

#[test]
fn vote_error_cases() {
    let mut state = State::new();
    let id = make_proposal(&mut state, 3);

    // An identity token that does not parse.
    assert!(matches!(
        state.vote_proposal(id.clone(), "not a principal!!".to_string(), VoteChoice::Yes),
        Err(VoteError::InvalidIdentity)
    ));
    // A valid identity on a missing proposal.
    assert!(matches!(
        state.vote_proposal("no-such-id".to_string(), ALICE.to_string(), VoteChoice::Yes),
        Err(VoteError::NotFound)
    ));
    // Nothing was counted.
    let p = state.get_proposal_by_id(id).unwrap();
    assert_eq!(p.yes_votes, 0);
    assert_eq!(p.no_votes, 0);
    assert_eq!(p.voters.len(), 0);
}

#[test]
fn delete_then_absent() {
    let mut state = State::new();
    let id = make_proposal(&mut state, 1);
    assert!(state.get_proposal_by_id(id.clone()).is_some());
    assert!(matches!(state.delete_proposal(id.clone()), Ok(())));
    assert!(state.get_proposal_by_id(id.clone()).is_none());
    // Deleting a nonexistent id reports NotFound.
    assert!(matches!(state.delete_proposal(id), Err(VoteError::NotFound)));
}

#[test]
fn time_left_is_duration_in_days() {
    let mut state = State::new();
    let id7 = make_proposal(&mut state, 7);
    let p7 = state.get_proposal_by_id(id7).unwrap();
    assert_eq!(p7.time_left.as_deref(), Some("7 days"));
    assert_eq!(p7.created_at, NOW / 1_000_000_000);

    let id0 = state.add_proposal(
        "other-caller",
        NOW + 1,
        "t".to_string(),
        "d".to_string(),
        None,
        0,
        None,
        None,
        None,
        None,
        None,
    );
    let p0 = state.get_proposal_by_id(id0).unwrap();
    assert_eq!(p0.time_left.as_deref(), Some("0 days"));
}

#[test]
fn stats_empty_state() {
    let state = State::new();
    let stats = state.get_proposal_stats();
    assert_eq!(stats.total_proposals, 0);
    assert_eq!(stats.total_yes_votes, 0);
    assert_eq!(stats.total_no_votes, 0);
    assert_eq!(stats.total_votes, 0);
    assert!(state.get_proposals().is_empty());
}

#[test]
fn proposals_by_user_filters_exactly() {
    let mut state = State::new();
    let a = state.add_proposal(
        "c1",
        NOW,
        "t1".to_string(),
        "d1".to_string(),
        None,
        1,
        None,
        None,
        None,
        None,
        Some("user-a".to_string()),
    );
    let _b = state.add_proposal(
        "c2",
        NOW + 1,
        "t2".to_string(),
        "d2".to_string(),
        None,
        1,
        None,
        None,
        None,
        None,
        Some("user-b".to_string()),
    );
    let _c = state.add_proposal(
        "c3",
        NOW + 2,
        "t3".to_string(),
        "d3".to_string(),
        None,
        1,
        None,
        None,
        None,
        None,
        None,
    );
    let of_a = state.get_proposal_by_user_id("user-a".to_string());
    assert_eq!(of_a.len(), 1);
    assert_eq!(of_a[0].id, a);
    assert!(state.get_proposal_by_user_id("user-z".to_string()).is_empty());
}

#[test]
fn users_create_and_lookup() {
    let mut state = State::new();
    let id = state.create_profile(
        "caller-u",
        NOW,
        None,
        "Ada Lovelace".to_string(),
        "ada@example.org".to_string(),
        None,
        None,
        Some("bio".to_string()),
    );
    assert_eq!(state.get_users().len(), 1);
    let u = state.get_users_by_id(id.clone()).unwrap();
    assert_eq!(u.fullname, "Ada Lovelace");
    assert_eq!(u.email, "ada@example.org");
    assert!(state.get_users_by_id("missing".to_string()).is_none());
    assert_eq!(u.id, id);
}

#[test]
fn generated_id_is_deterministic() {
    let a = generate_deterministic_id("caller-one", 42);
    let b = generate_deterministic_id("caller-one", 42);
    assert_eq!(a, b);
    assert_eq!(a.len(), 32);
    assert!(a.chars().all(|c| c.is_ascii_hexdigit() && !c.is_ascii_uppercase()));
}

#[test]
fn generated_ids_do_not_collide_in_sample() {
    let mut seen = Vec::new();
    for caller in ["alpha", "beta", "gamma"] {
        for ts in 0..50u64 {
            let id = generate_deterministic_id(caller, ts);
            assert!(!seen.contains(&id));
            seen.push(id);
        }
    }
    // The digest truly depends on its input.
    assert_ne!(
        generate_deterministic_id("x", 1),
        generate_deterministic_id("x", 2)
    );
    assert_ne!(
        generate_deterministic_id("x", 1),
        generate_deterministic_id("y", 1)
    );
}

#[test]
fn same_caller_and_timestamp_replaces_record() {
    // The id depends only on (caller, timestamp): a second insert under
    // the same pair lands on the same key, as a mapping insert does.
    let mut state = State::new();
    let a = state.add_proposal(
        "caller", NOW, "old".to_string(), "d".to_string(), None, 1, None, None, None, None, None,
    );
    let b = state.add_proposal(
        "caller", NOW, "new".to_string(), "d".to_string(), None, 2, None, None, None, None, None,
    );
    assert_eq!(a, b);
    assert_eq!(state.get_proposals().len(), 1);
    let p = state.get_proposal_by_id(a).unwrap();
    assert_eq!(p.title, "new");
    assert_eq!(p.duration_days, 2);
}

#[test]
fn proposals_keep_insertion_order() {
    let mut state = State::new();
    let a = state.add_proposal(
        "c1", NOW, "t1".to_string(), "d".to_string(), None, 1, None, None, None, None, None,
    );
    let b = state.add_proposal(
        "c2", NOW + 1, "t2".to_string(), "d".to_string(), None, 1, None, None, None, None, None,
    );
    let all = state.get_proposals();
    assert_eq!(all[0].id, a);
    assert_eq!(all[1].id, b);
}

#[test]
fn id_depends_on_whole_input_not_a_prefix() {
    // The two inputs share their first 16 bytes; only a digest of the
    // whole input tells them apart in the 16 bytes kept.
    let a = generate_deterministic_id("aaaaaaaaaaaaaaaa-one", 7);
    let b = generate_deterministic_id("aaaaaaaaaaaaaaaa-two", 7);
    assert_ne!(a, b);
}
