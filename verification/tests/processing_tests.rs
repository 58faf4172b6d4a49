use agent_feed_indexer::constants::{
    CREATE_OR_UPDATE_PROFILE_DISCRIMINATOR, CREATE_POST_DISCRIMINATOR, FOLLOW_AGENT_DISCRIMINATOR,
    LIKE_POST_DISCRIMINATOR, REPLY_TO_POST_DISCRIMINATOR, REPOST_POST_DISCRIMINATOR,
    UNFOLLOW_AGENT_DISCRIMINATOR, UNLIKE_POST_DISCRIMINATOR, UNREPOST_POST_DISCRIMINATOR,
};
use agent_feed_indexer::models::{AgentProfile, FollowRecord, LikeRecord, Post, RepostRecord};
use agent_feed_indexer::processing::{
    classify_instruction, deserialize_account_data, examine_fetched_account, fetch_decision,
    is_account_not_found_message, is_transaction_not_found_message, parse_loaded_addresses, plan_transaction, ParsedAddress,
    CompiledInstruction, DecodedAccount, FetchDecision, FetchedAccount, InstructionKind,
    InstructionReport, LoadedAddresses, LogDecision, LogProcessor, TransactionFetch,
};
use agent_feed_indexer::pubkey::{Pubkey, PubkeyParseError};

fn with_disc(disc: [u8; 8], body: &[u8]) -> Vec<u8> {
    let mut v = disc.to_vec();
    v.extend_from_slice(body);
    v
}

fn record_body() -> Vec<u8> {
    borsh::to_vec(&([4u8; 32], [5u8; 32], 42i64, 1u8)).unwrap()
}

#[test]
fn account_data_kinds() {
    assert!(matches!(deserialize_account_data(&[]), DecodedAccount::Empty));
    assert!(matches!(deserialize_account_data(&[1, 2, 3]), DecodedAccount::Unknown));
    assert!(matches!(deserialize_account_data(&[0u8; 100]), DecodedAccount::Unknown));

    let like = with_disc(LikeRecord::DISCRIMINATOR, &record_body());
    match deserialize_account_data(&like) {
        DecodedAccount::LikeRecord(r) => assert_eq!(r.timestamp, 42),
        other => panic!("unexpected {:?}", other),
    }
    let repost = with_disc(RepostRecord::DISCRIMINATOR, &record_body());
    assert!(matches!(deserialize_account_data(&repost), DecodedAccount::RepostRecord(_)));
    let follow = with_disc(FollowRecord::DISCRIMINATOR, &record_body());
    assert!(matches!(deserialize_account_data(&follow), DecodedAccount::FollowRecord(_)));

    let post_body = borsh::to_vec(&([1u8; 32], 1u64, 2i64, String::from("gm"), None::<[u8; 32]>, 0u64, 0u64, 0u64, 3u8)).unwrap();
    let post = with_disc(Post::DISCRIMINATOR, &post_body);
    match deserialize_account_data(&post) {
        DecodedAccount::Post(p) => assert_eq!(p.content, "gm"),
        other => panic!("unexpected {:?}", other),
    }
    let profile_body = borsh::to_vec(&([1u8; 32], String::from("a"), String::from("b"), String::from("c"), 1u64, 2u64, 3u64, 4u8)).unwrap();
    let mut profile = with_disc(AgentProfile::DISCRIMINATOR, &profile_body);
    profile.extend_from_slice(&[0u8; 64]);
    match deserialize_account_data(&profile) {
        DecodedAccount::AgentProfile(p) => assert_eq!(p.bio, "c"),
        other => panic!("unexpected {:?}", other),
    }
    // a post discriminator with a record's body does not decode as any type
    let mixed = with_disc(Post::DISCRIMINATOR, &record_body());
    assert!(matches!(deserialize_account_data(&mixed), DecodedAccount::Unknown));
}

#[test]
fn instruction_kinds() {
    let cases = [
        (CREATE_POST_DISCRIMINATOR, InstructionKind::CreatePost),
        (REPLY_TO_POST_DISCRIMINATOR, InstructionKind::ReplyToPost),
        (LIKE_POST_DISCRIMINATOR, InstructionKind::LikePost),
        (UNLIKE_POST_DISCRIMINATOR, InstructionKind::UnlikePost),
        (REPOST_POST_DISCRIMINATOR, InstructionKind::RepostPost),
        (UNREPOST_POST_DISCRIMINATOR, InstructionKind::UnrepostPost),
        (CREATE_OR_UPDATE_PROFILE_DISCRIMINATOR, InstructionKind::CreateOrUpdateProfile),
        (FOLLOW_AGENT_DISCRIMINATOR, InstructionKind::FollowAgent),
        (UNFOLLOW_AGENT_DISCRIMINATOR, InstructionKind::UnfollowAgent),
    ];
    for (disc, kind) in cases {
        assert_eq!(classify_instruction(&disc), kind);
        assert_eq!(classify_instruction(&with_disc(disc, &[1, 2, 3])), kind);
    }
    assert_eq!(classify_instruction(&[123, 92, 184]), InstructionKind::DataTooShort);
    assert_eq!(classify_instruction(&[0u8; 8]), InstructionKind::Unknown);
}

#[test]
fn fetched_account_decisions() {
    let program = Pubkey([7; 32]);
    let other = Pubkey([8; 32]);
    let like = with_disc(LikeRecord::DISCRIMINATOR, &record_body());
    assert!(matches!(examine_fetched_account(&program, &other, &like), FetchedAccount::NotOwnedByProgram));
    assert!(matches!(examine_fetched_account(&program, &program, &[]), FetchedAccount::NoData));
    assert!(matches!(
        examine_fetched_account(&program, &program, &like),
        FetchedAccount::Decoded(DecodedAccount::LikeRecord(_))
    ));
    assert!(matches!(
        examine_fetched_account(&program, &program, &[9, 9]),
        FetchedAccount::Decoded(DecodedAccount::Unknown)
    ));
}

#[test]
fn not_found_messages() {
    assert!(is_account_not_found_message("AccountNotFound: pubkey=abc"));
    assert!(is_account_not_found_message("account abc was not found"));
    assert!(!is_account_not_found_message("connection refused"));
    assert!(is_transaction_not_found_message("invalid type: null, expected struct"));
    assert!(is_transaction_not_found_message("transaction not found"));
    assert!(!is_transaction_not_found_message("timeout"));
}

#[test]
fn fetch_decisions() {
    assert_eq!(fetch_decision(0, 20, None), FetchDecision::ReturnTransaction);
    assert_eq!(fetch_decision(19, 20, None), FetchDecision::ReturnTransaction);
    assert_eq!(fetch_decision(0, 20, Some("not found")), FetchDecision::RetryNotFound);
    assert_eq!(fetch_decision(3, 20, Some("503 Service Unavailable")), FetchDecision::RetryAfterError);
    assert_eq!(fetch_decision(19, 20, Some("invalid type: null")), FetchDecision::ReturnNotFound);
    assert_eq!(fetch_decision(19, 20, Some("503 Service Unavailable")), FetchDecision::ReturnError);
    assert_eq!(fetch_decision(0, 1, Some("boom")), FetchDecision::ReturnError);
}

#[test]
fn log_processor_decisions() {
    let mut p = LogProcessor::new();
    assert_eq!(p.on_log("sigA", false, true), LogDecision::FetchTransaction);
    assert_eq!(p.on_log("sigA", false, true), LogDecision::Duplicate);
    assert_eq!(p.on_log("sigB", true, true), LogDecision::FailedTransaction);
    assert_eq!(p.on_log("sigB", false, true), LogDecision::Duplicate);
    assert_eq!(p.on_log("bad", false, false), LogDecision::InvalidSignature);
    assert_eq!(p.on_log("sigC", false, true), LogDecision::FetchTransaction);
    assert_eq!(p.transactions_total(), 6);
}

#[test]
fn plan_of_a_transaction() {
    let program = Pubkey([7; 32]);
    let keys = vec![Pubkey([1; 32]), program, Pubkey([3; 32]), Pubkey([9; 32])];
    let like_data = with_disc(LIKE_POST_DISCRIMINATOR, &[1, 2]);
    let instructions = vec![
        CompiledInstruction { program_id_index: 1, accounts: vec![0, 2, 0, 17], data: like_data },
        CompiledInstruction { program_id_index: 3, accounts: vec![3], data: vec![1, 2, 3] },
        CompiledInstruction { program_id_index: 1, accounts: vec![2, 1], data: vec![1] },
        CompiledInstruction { program_id_index: 40, accounts: vec![3], data: vec![] },
    ];
    let loaded = LoadedAddresses {
        writable: vec![String::from("11111111111111111111111111111111"), String::from("0OIl")],
        readonly: vec![String::from("abc")],
    };
    let parsed = parse_loaded_addresses(Some(&loaded));
    assert_eq!(parsed.len(), 3);
    assert_eq!(parsed[2].address, "abc");
    let plan = plan_transaction(&program, &keys, &instructions, &parsed);
    assert_eq!(plan.instructions.len(), 4);
    match &plan.instructions[0] {
        InstructionReport::ForProgram { index, data_len, kind } => {
            assert_eq!((*index, *data_len, *kind), (0, 10, InstructionKind::LikePost));
        },
        other => panic!("unexpected {:?}", other),
    }
    match &plan.instructions[1] {
        InstructionReport::OtherProgram { index, program } => {
            assert_eq!(*index, 1);
            assert_eq!(program.map(|k| k.0), Some([9; 32]));
        },
        other => panic!("unexpected {:?}", other),
    }
    match &plan.instructions[2] {
        InstructionReport::ForProgram { kind, .. } => assert_eq!(*kind, InstructionKind::DataTooShort),
        other => panic!("unexpected {:?}", other),
    }
    match &plan.instructions[3] {
        InstructionReport::OtherProgram { program, .. } => assert!(program.is_none()),
        other => panic!("unexpected {:?}", other),
    }
    let fetched: Vec<[u8; 32]> = plan.accounts_to_fetch.iter().map(|k| k.0).collect();
    assert_eq!(fetched, vec![[1; 32], [3; 32], [7; 32], [0; 32]]);
    assert_eq!(plan.invalid_addresses.len(), 2);
    assert_eq!(plan.invalid_addresses[0].address, "0OIl");
    assert_eq!(plan.invalid_addresses[0].error, PubkeyParseError::Invalid);
    assert_eq!(plan.invalid_addresses[1].address, "abc");
    assert_eq!(plan.invalid_addresses[1].error, PubkeyParseError::WrongSize);
}

#[test]
fn plan_without_loaded_addresses() {
    let program = Pubkey([7; 32]);
    let keys = vec![program, Pubkey([2; 32])];
    let instructions = vec![CompiledInstruction { program_id_index: 0, accounts: vec![1, 1, 0], data: vec![] }];
    assert!(parse_loaded_addresses(None).is_empty());
    let plan = plan_transaction(&program, &keys, &instructions, &Vec::new());
    let fetched: Vec<[u8; 32]> = plan.accounts_to_fetch.iter().map(|k| k.0).collect();
    assert_eq!(fetched, vec![[2; 32], [7; 32]]);
    assert!(plan.invalid_addresses.is_empty());
}

#[test]
fn plan_uses_given_parse_results() {
    let program = Pubkey([7; 32]);
    let keys = vec![program, Pubkey([2; 32])];
    let instructions = vec![CompiledInstruction { program_id_index: 0, accounts: vec![1], data: vec![] }];
    let parsed = vec![
        ParsedAddress { address: String::from("first"), key: Ok(Pubkey([6; 32])) },
        ParsedAddress { address: String::from("second"), key: Err(PubkeyParseError::Invalid) },
        ParsedAddress { address: String::from("third"), key: Ok(Pubkey([2; 32])) },
        ParsedAddress { address: String::from("fourth"), key: Err(PubkeyParseError::WrongSize) },
    ];
    let plan = plan_transaction(&program, &keys, &instructions, &parsed);
    let fetched: Vec<[u8; 32]> = plan.accounts_to_fetch.iter().map(|k| k.0).collect();
    assert_eq!(fetched, vec![[2; 32], [6; 32]]);
    let invalid: Vec<(String, PubkeyParseError)> =
        plan.invalid_addresses.iter().map(|a| (a.address.clone(), a.error)).collect();
    assert_eq!(
        invalid,
        vec![(String::from("second"), PubkeyParseError::Invalid), (String::from("fourth"), PubkeyParseError::WrongSize)]
    );
}

fn run_fetch(max_retries: usize, errors: &[Option<&str>]) -> (usize, Option<FetchDecision>) {
    let mut fetch = TransactionFetch::new(max_retries);
    let mut made = 0;
    while let Some(attempt) = fetch.next_attempt() {
        assert_eq!(attempt, made);
        made += 1;
        let d = fetch.record(errors[attempt]);
        if d != FetchDecision::RetryNotFound && d != FetchDecision::RetryAfterError {
            return (made, Some(d));
        }
    }
    (made, None)
}

#[test]
fn fetch_run_ends_within_max_retries() {
    let errs = [Some("not found"), Some("timeout"), Some("not found"), None, None];
    assert_eq!(run_fetch(5, &errs), (4, Some(FetchDecision::ReturnTransaction)));
    assert_eq!(run_fetch(3, &errs), (3, Some(FetchDecision::ReturnNotFound)));
    assert_eq!(run_fetch(2, &errs), (2, Some(FetchDecision::ReturnError)));
    assert_eq!(run_fetch(0, &errs), (0, None));
}

#[test]
fn repeated_notification_changes_only_the_count() {
    let events = [("s1", false, true), ("s2", true, true), ("s3", false, true), ("s4", false, false)];
    let mut plain = LogProcessor::new();
    let plain_decisions: Vec<LogDecision> = events.iter().map(|(s, f, v)| plain.on_log(s, *f, *v)).collect();
    let mut with_repeat = LogProcessor::new();
    let mut repeat_decisions = Vec::new();
    for (k, (s, f, v)) in events.iter().enumerate() {
        if k == 2 {
            repeat_decisions.push(with_repeat.on_log("s1", false, true));
        }
        repeat_decisions.push(with_repeat.on_log(s, *f, *v));
    }
    assert_eq!(repeat_decisions[2], LogDecision::Duplicate);
    repeat_decisions.remove(2);
    assert_eq!(repeat_decisions, plain_decisions);
    assert_eq!(with_repeat.transactions_total(), plain.transactions_total() + 1);
}
