use voting_app_backend::authoring::{build_chat_prompt, build_generation_prompt,
    parse_generated_proposal};
use voting_app_backend::model::{ChatTurn, State};

const NOW: u64 = 1_700_000_500_000_000_000;

#[test]
fn parse_accepts_demanded_object() {
    let reply = r#"
        {
            "title": "Shorter meetings",
            "description": "Cap weekly meetings",
            "full_description": "All recurring meetings are capped at 25 minutes."
        }
    "#;
    let g = parse_generated_proposal(reply).unwrap();
    assert_eq!(g.title, "Shorter meetings");
    assert_eq!(g.description, "Cap weekly meetings");
    assert_eq!(
        g.full_description,
        "All recurring meetings are capped at 25 minutes."
    );
}

#[test]
fn parse_handles_escapes_and_extra_members() {
    let reply = "{\"note\":\"ignored\",\"title\":\"say \\\"hi\\\"\\n\",\"description\":\"a\\\\b\",\"full_description\":\"tab\\there\"}";
    let g = parse_generated_proposal(reply).unwrap();
    assert_eq!(g.title, "say \"hi\"\n");
    assert_eq!(g.description, "a\\b");
    assert_eq!(g.full_description, "tab\there");
}

#[test]
fn parse_handles_unicode_escapes() {
    let reply = "{\"title\":\"\\u0041\\u00e9\\u20ac\",\"description\":\"d\",\"full_description\":\"f\"}";
    let g = parse_generated_proposal(reply).unwrap();
    assert_eq!(g.title, "A\u{e9}\u{20ac}");
}

#[test]
fn parse_rejects_surrogate_escape() {
    let reply = "{\"title\":\"\\ud83d\\ude00\",\"description\":\"d\",\"full_description\":\"f\"}";
    assert!(parse_generated_proposal(reply).is_err());
}

#[test]
fn parse_keeps_last_binding_of_repeated_key() {
    let reply = "{\"title\":\"first\",\"title\":\"second\",\"description\":\"d\",\"full_description\":\"f\"}";
    let g = parse_generated_proposal(reply).unwrap();
    assert_eq!(g.title, "second");
}

#[test]
fn parse_rejects_bad_replies() {
    // Plain text instead of JSON.
    assert!(parse_generated_proposal("I would suggest a proposal about parks.").is_err());
    // A required member is missing.
    assert!(parse_generated_proposal("{\"title\":\"t\",\"description\":\"d\"}").is_err());
    // A value is not a string.
    assert!(
        parse_generated_proposal("{\"title\":5,\"description\":\"d\",\"full_description\":\"f\"}")
            .is_err()
    );
    // Text around the object.
    assert!(parse_generated_proposal(
        "Here you go: {\"title\":\"t\",\"description\":\"d\",\"full_description\":\"f\"}"
    )
    .is_err());
    // An empty object.
    assert!(parse_generated_proposal("{}").is_err());
    // An unterminated string.
    assert!(parse_generated_proposal("{\"title\":\"t").is_err());
}

#[test]
fn prompt_creation_success_stores_generated_fields() {
    let mut state = State::new();
    let reply = "{\"title\":\"T\",\"description\":\"D\",\"full_description\":\"F\"}";
    let id = state
        .add_proposal_with_prompt(
            "caller-p",
            NOW,
            reply,
            None,
            14,
            Some("cat".to_string()),
            None,
            None,
            None,
        )
        .unwrap();
    let p = state.get_proposal_by_id(id).unwrap();
    assert_eq!(p.title, "T");
    assert_eq!(p.description, "D");
    assert_eq!(p.full_description.as_deref(), Some("F"));
    assert_eq!(p.category.as_deref(), Some("cat"));
    assert_eq!(p.duration_days, 14);
    assert_eq!(p.yes_votes, 0);
}

#[test]
fn prompt_creation_failure_leaves_store_unchanged() {
    let mut state = State::new();
    let before = state.get_proposals().len();
    let r = state.add_proposal_with_prompt(
        "caller-p",
        NOW,
        "not json at all",
        None,
        7,
        None,
        None,
        None,
        None,
    );
    assert!(r.is_err());
    assert_eq!(state.get_proposals().len(), before);
}

#[test]
fn generation_prompt_wraps_user_text() {
    let p = build_generation_prompt("Make a proposal about bike lanes.");
    assert!(p.contains("output ONLY a valid JSON object"));
    assert!(p.ends_with("Make a proposal about bike lanes."));
    assert!(p.contains("\"full_description\""));
}

#[test]
fn chat_prompt_tags_roles_case_insensitively() {
    let turns = vec![
        ChatTurn { role: "SYSTEM".to_string(), content: "be brief".to_string() },
        ChatTurn { role: "user".to_string(), content: "hello".to_string() },
        ChatTurn { role: "Assistant".to_string(), content: "hi".to_string() },
        ChatTurn { role: "moderator".to_string(), content: "welcome".to_string() },
    ];
    let p = build_chat_prompt(&turns);
    let expected = "You are a helpful governance assistant for VoteVerse. Answer clearly and concisely.\n\n---\n\n[system]: be brief\n\n[user]: hello\n\n[assistant]: hi\n\n[user]: welcome\n";
    assert_eq!(p, expected);
}

#[test]
fn chat_prompt_of_no_turns_is_the_preamble() {
    let p = build_chat_prompt(&Vec::new());
    assert_eq!(
        p,
        "You are a helpful governance assistant for VoteVerse. Answer clearly and concisely.\n\n---\n"
    );
}
