//! What the indexer decides about each transaction it hears of: which logs to follow up, when to
//! retry fetching a transaction, which instructions target the program, which accounts to fetch,
//! and what the fetched account data holds.
use vstd::prelude::*;
use crate::constants::{
    CREATE_OR_UPDATE_PROFILE_DISCRIMINATOR, CREATE_POST_DISCRIMINATOR, FOLLOW_AGENT_DISCRIMINATOR,
    LIKE_POST_DISCRIMINATOR, REPLY_TO_POST_DISCRIMINATOR, REPOST_POST_DISCRIMINATOR,
    UNFOLLOW_AGENT_DISCRIMINATOR, UNLIKE_POST_DISCRIMINATOR, UNREPOST_POST_DISCRIMINATOR,
};
use crate::models::{
    AgentProfile, AgentProfileView, FollowRecord, FollowRecordView, LikeRecord, LikeRecordView,
    Post, PostView, RepostRecord, RepostRecordView, agent_profile_discriminator,
    follow_record_discriminator, like_record_discriminator, post_discriminator,
    repost_record_discriminator, spec_read_agent_profile, spec_read_follow_record,
    spec_read_like_record, spec_read_post, spec_read_repost_record,
    spec_try_deserialize_agent_profile, spec_try_deserialize_follow_record,
    spec_try_deserialize_like_record, spec_try_deserialize_post,
    spec_try_deserialize_repost_record, spec_write_agent_profile, spec_write_follow_record,
    spec_write_like_record, spec_write_post, spec_write_repost_record,
    lemma_agent_profile_account_roundtrip, lemma_follow_record_account_roundtrip,
    lemma_like_record_account_roundtrip, lemma_post_account_roundtrip,
    lemma_repost_record_account_roundtrip,
};
use crate::pubkey::{Pubkey, PubkeyParseError, parsed_key_view, pubkey_from_base58};
use crate::text::{contains, spec_contains};
use vstd::hash_set::StringHashSet;

verus! {

// ===================== account data =====================

/// What a program-owned account's data turned out to be.
#[derive(Clone, Debug)]
pub enum DecodedAccount {
    /// The account holds no data.
    Empty,
    Post(Post),
    AgentProfile(AgentProfile),
    LikeRecord(LikeRecord),
    RepostRecord(RepostRecord),
    FollowRecord(FollowRecord),
    /// No account type accepts the data.
    Unknown,
}

pub ghost enum DecodedAccountView {
    Empty,
    Post(PostView),
    AgentProfile(AgentProfileView),
    LikeRecord(LikeRecordView),
    RepostRecord(RepostRecordView),
    FollowRecord(FollowRecordView),
    Unknown,
}

impl View for DecodedAccount {
    type V = DecodedAccountView;

    open spec fn view(&self) -> DecodedAccountView {
        match self {
            DecodedAccount::Empty => DecodedAccountView::Empty,
            DecodedAccount::Post(v) => DecodedAccountView::Post(v@),
            DecodedAccount::AgentProfile(v) => DecodedAccountView::AgentProfile(v@),
            DecodedAccount::LikeRecord(v) => DecodedAccountView::LikeRecord(v@),
            DecodedAccount::RepostRecord(v) => DecodedAccountView::RepostRecord(v@),
            DecodedAccount::FollowRecord(v) => DecodedAccountView::FollowRecord(v@),
            DecodedAccount::Unknown => DecodedAccountView::Unknown,
        }
    }
}

/// Account data tried against each account type in turn: post, profile, like, repost, follow.
pub open spec fn spec_deserialize_account_data(s: Seq<u8>) -> DecodedAccountView {
    if s.len() == 0 {
        DecodedAccountView::Empty
    } else if let Ok(v) = spec_try_deserialize_post(s).0 {
        DecodedAccountView::Post(v)
    } else if let Ok(v) = spec_try_deserialize_agent_profile(s).0 {
        DecodedAccountView::AgentProfile(v)
    } else if let Ok(v) = spec_try_deserialize_like_record(s).0 {
        DecodedAccountView::LikeRecord(v)
    } else if let Ok(v) = spec_try_deserialize_repost_record(s).0 {
        DecodedAccountView::RepostRecord(v)
    } else if let Ok(v) = spec_try_deserialize_follow_record(s).0 {
        DecodedAccountView::FollowRecord(v)
    } else {
        DecodedAccountView::Unknown
    }
}

/// Decodes account data as the first account type that accepts it, trying post, profile, like,
/// repost and follow records in that order; bytes after the record's fields are ignored.
pub fn deserialize_account_data(data: &[u8]) -> (res: DecodedAccount)
    ensures
        res@ == spec_deserialize_account_data(data@),
        res is Empty <==> data@.len() == 0,
        spec_try_deserialize_post(data@).0 matches Ok(v) ==> res@ == DecodedAccountView::Post(v),
        res is Post ==> data@.len() >= 8 && data@.take(8) == seq![8u8, 147, 90, 186, 185, 56, 192, 150],
        spec_try_deserialize_agent_profile(data@).0 matches Ok(v) ==> res@ == DecodedAccountView::AgentProfile(v),
        res is AgentProfile ==> data@.len() >= 8 && data@.take(8) == seq![60u8, 227, 42, 24, 0, 87, 86, 205],
        spec_try_deserialize_like_record(data@).0 matches Ok(v) ==> res@ == DecodedAccountView::LikeRecord(v),
        res is LikeRecord ==> data@.len() >= 8 && data@.take(8) == seq![179u8, 237, 53, 5, 91, 236, 161, 50],
        spec_try_deserialize_repost_record(data@).0 matches Ok(v) ==> res@ == DecodedAccountView::RepostRecord(v),
        res is RepostRecord ==> data@.len() >= 8 && data@.take(8) == seq![134u8, 201, 23, 191, 183, 203, 59, 13],
        spec_try_deserialize_follow_record(data@).0 matches Ok(v) ==> res@ == DecodedAccountView::FollowRecord(v),
        res is FollowRecord ==> data@.len() >= 8 && data@.take(8) == seq![184u8, 58, 38, 54, 57, 20, 186, 26],
        res is Unknown ==> data@.len() > 0 && spec_try_deserialize_post(data@).0 is Err
            && spec_try_deserialize_agent_profile(data@).0 is Err && spec_try_deserialize_like_record(data@).0 is Err
            && spec_try_deserialize_repost_record(data@).0 is Err && spec_try_deserialize_follow_record(data@).0 is Err,
{
    proof {
        lemma_account_data_by_discriminator(data@);
    }
    if data.len() == 0 {
        return DecodedAccount::Empty;
    }
    let mut cur: &[u8] = data;
    if let Ok(v) = Post::try_deserialize(&mut cur) {
        return DecodedAccount::Post(v);
    }
    let mut cur: &[u8] = data;
    if let Ok(v) = AgentProfile::try_deserialize(&mut cur) {
        return DecodedAccount::AgentProfile(v);
    }
    let mut cur: &[u8] = data;
    if let Ok(v) = LikeRecord::try_deserialize(&mut cur) {
        return DecodedAccount::LikeRecord(v);
    }
    let mut cur: &[u8] = data;
    if let Ok(v) = RepostRecord::try_deserialize(&mut cur) {
        return DecodedAccount::RepostRecord(v);
    }
    let mut cur: &[u8] = data;
    if let Ok(v) = FollowRecord::try_deserialize(&mut cur) {
        return DecodedAccount::FollowRecord(v);
    }
    DecodedAccount::Unknown
}

/// Account data read by its discriminator alone: the type whose discriminator opens the data, if
/// its fields decode after it.
pub open spec fn spec_account_data_by_discriminator(s: Seq<u8>) -> DecodedAccountView {
    if s.len() == 0 {
        DecodedAccountView::Empty
    } else if s.len() < 8 {
        DecodedAccountView::Unknown
    } else if s.take(8) == post_discriminator() {
        match spec_read_post(s.skip(8)).0 {
            Ok(v) => DecodedAccountView::Post(v),
            Err(_) => DecodedAccountView::Unknown,
        }
    } else if s.take(8) == agent_profile_discriminator() {
        match spec_read_agent_profile(s.skip(8)).0 {
            Ok(v) => DecodedAccountView::AgentProfile(v),
            Err(_) => DecodedAccountView::Unknown,
        }
    } else if s.take(8) == like_record_discriminator() {
        match spec_read_like_record(s.skip(8)).0 {
            Ok(v) => DecodedAccountView::LikeRecord(v),
            Err(_) => DecodedAccountView::Unknown,
        }
    } else if s.take(8) == repost_record_discriminator() {
        match spec_read_repost_record(s.skip(8)).0 {
            Ok(v) => DecodedAccountView::RepostRecord(v),
            Err(_) => DecodedAccountView::Unknown,
        }
    } else if s.take(8) == follow_record_discriminator() {
        match spec_read_follow_record(s.skip(8)).0 {
            Ok(v) => DecodedAccountView::FollowRecord(v),
            Err(_) => DecodedAccountView::Unknown,
        }
    } else {
        DecodedAccountView::Unknown
    }
}

/// The account types have pairwise distinct discriminators, so trying them in turn picks the
/// type whose discriminator opens the data: the order of the attempts does not matter.
pub proof fn lemma_account_data_by_discriminator(s: Seq<u8>)
    ensures
        spec_deserialize_account_data(s) == spec_account_data_by_discriminator(s),
{
    let d = s.take(8);
    if s.len() >= 8 {
        assert(post_discriminator()[0] == 8);
        assert(agent_profile_discriminator()[0] == 60);
        assert(like_record_discriminator()[0] == 179);
        assert(repost_record_discriminator()[0] == 134);
        assert(follow_record_discriminator()[0] == 184);
    }
}

/// A record's account data: its discriminator followed by the encoding of its fields.
pub open spec fn spec_account_data_of(a: DecodedAccountView) -> Seq<u8> {
    match a {
        DecodedAccountView::Post(v) => post_discriminator() + spec_write_post(v),
        DecodedAccountView::AgentProfile(v) => agent_profile_discriminator() + spec_write_agent_profile(v),
        DecodedAccountView::LikeRecord(v) => like_record_discriminator() + spec_write_like_record(v),
        DecodedAccountView::RepostRecord(v) => repost_record_discriminator() + spec_write_repost_record(v),
        DecodedAccountView::FollowRecord(v) => follow_record_discriminator() + spec_write_follow_record(v),
        _ => Seq::empty(),
    }
}

/// A record whose keys are 32 bytes and whose strings fit their length prefixes.
pub open spec fn is_encodable_record(a: DecodedAccountView) -> bool {
    match a {
        DecodedAccountView::Post(v) => v.wf() && v.fits(),
        DecodedAccountView::AgentProfile(v) => v.wf() && v.fits(),
        DecodedAccountView::LikeRecord(v) => v.wf() && v.fits(),
        DecodedAccountView::RepostRecord(v) => v.wf() && v.fits(),
        DecodedAccountView::FollowRecord(v) => v.wf() && v.fits(),
        _ => false,
    }
}

/// The data of any program account reads back as the record it holds, whatever bytes follow.
pub proof fn lemma_account_data_roundtrip(a: DecodedAccountView, rest: Seq<u8>)
    requires
        is_encodable_record(a),
    ensures
        spec_deserialize_account_data(spec_account_data_of(a) + rest) == a,
{
    let s = spec_account_data_of(a) + rest;
    lemma_account_data_by_discriminator(s);
    match a {
        DecodedAccountView::Post(v) => {
            lemma_post_account_roundtrip(v, rest);
            assert(s.take(8) =~= post_discriminator());
        },
        DecodedAccountView::AgentProfile(v) => {
            lemma_agent_profile_account_roundtrip(v, rest);
            assert(s.take(8) =~= agent_profile_discriminator());
        },
        DecodedAccountView::LikeRecord(v) => {
            lemma_like_record_account_roundtrip(v, rest);
            assert(s.take(8) =~= like_record_discriminator());
        },
        DecodedAccountView::RepostRecord(v) => {
            lemma_repost_record_account_roundtrip(v, rest);
            assert(s.take(8) =~= repost_record_discriminator());
        },
        DecodedAccountView::FollowRecord(v) => {
            lemma_follow_record_account_roundtrip(v, rest);
            assert(s.take(8) =~= follow_record_discriminator());
        },
        _ => {},
    }
}


// ===================== instructions =====================

/// Which of the program's instructions an instruction's data invokes, by its first 8 bytes.
#[derive(Clone, Copy, Debug, PartialEq, Eq, Structural)]
pub enum InstructionKind {
    CreatePost,
    ReplyToPost,
    LikePost,
    UnlikePost,
    RepostPost,
    UnrepostPost,
    CreateOrUpdateProfile,
    FollowAgent,
    UnfollowAgent,
    /// The first 8 bytes are no known instruction's discriminator.
    Unknown,
    /// The data is shorter than a discriminator.
    DataTooShort,
}

/// The discriminator of each known instruction.
pub open spec fn instruction_discriminator(kind: InstructionKind) -> Seq<u8> {
    match kind {
        InstructionKind::CreatePost => seq![123u8, 92, 184, 29, 231, 24, 15, 202],
        InstructionKind::ReplyToPost => seq![47u8, 124, 83, 114, 55, 170, 176, 188],
        InstructionKind::LikePost => seq![45u8, 242, 154, 71, 63, 133, 54, 186],
        InstructionKind::UnlikePost => seq![236u8, 63, 6, 34, 128, 3, 114, 174],
        InstructionKind::RepostPost => seq![175u8, 134, 193, 12, 27, 197, 61, 189],
        InstructionKind::UnrepostPost => seq![222u8, 76, 33, 179, 167, 222, 5, 21],
        InstructionKind::CreateOrUpdateProfile => seq![52u8, 169, 99, 129, 231, 122, 119, 207],
        InstructionKind::FollowAgent => seq![64u8, 202, 196, 131, 84, 241, 248, 38],
        InstructionKind::UnfollowAgent => seq![124u8, 101, 198, 225, 35, 138, 12, 36],
        _ => Seq::empty(),
    }
}

pub open spec fn is_known_instruction(kind: InstructionKind) -> bool {
    kind != InstructionKind::Unknown && kind != InstructionKind::DataTooShort
}

/// The instruction whose discriminator opens the data.
pub open spec fn spec_classify_instruction(data: Seq<u8>) -> InstructionKind {
    if data.len() < 8 {
        InstructionKind::DataTooShort
    } else {
        let d = data.take(8);
        if d == instruction_discriminator(InstructionKind::CreatePost) {
            InstructionKind::CreatePost
        } else if d == instruction_discriminator(InstructionKind::ReplyToPost) {
            InstructionKind::ReplyToPost
        } else if d == instruction_discriminator(InstructionKind::LikePost) {
            InstructionKind::LikePost
        } else if d == instruction_discriminator(InstructionKind::UnlikePost) {
            InstructionKind::UnlikePost
        } else if d == instruction_discriminator(InstructionKind::RepostPost) {
            InstructionKind::RepostPost
        } else if d == instruction_discriminator(InstructionKind::UnrepostPost) {
            InstructionKind::UnrepostPost
        } else if d == instruction_discriminator(InstructionKind::CreateOrUpdateProfile) {
            InstructionKind::CreateOrUpdateProfile
        } else if d == instruction_discriminator(InstructionKind::FollowAgent) {
            InstructionKind::FollowAgent
        } else if d == instruction_discriminator(InstructionKind::UnfollowAgent) {
            InstructionKind::UnfollowAgent
        } else {
            InstructionKind::Unknown
        }
    }
}

/// Whether the data (at least 8 bytes long) opens with `disc`.
fn starts_with_discriminator(data: &[u8], disc: &[u8; 8]) -> (res: bool)
    requires
        data@.len() >= 8,
    ensures
        res == (data@.take(8) == disc@),
{
    let mut i: usize = 0;
    while i < 8
        invariant
            i <= 8,
            data@.len() >= 8,
            disc@.len() == 8,
            forall|j: int| 0 <= j < i ==> data@[j] == disc@[j],
        decreases 8 - i,
    {
        if data[i] != disc[i] {
            assert(data@.take(8)[i as int] != disc@[i as int]);
            return false;
        }
        i = i + 1;
    }
    assert(data@.take(8) =~= disc@);
    true
}

/// Names the program instruction that the data invokes, by its first 8 bytes.
pub fn classify_instruction(data: &[u8]) -> (kind: InstructionKind)
    ensures
        kind == spec_classify_instruction(data@),
{
    if data.len() < 8 {
        return InstructionKind::DataTooShort;
    }
    let c = CREATE_POST_DISCRIMINATOR;
    assert(c@ =~= instruction_discriminator(InstructionKind::CreatePost));
    if starts_with_discriminator(data, &c) {
        return InstructionKind::CreatePost;
    }
    let c = REPLY_TO_POST_DISCRIMINATOR;
    assert(c@ =~= instruction_discriminator(InstructionKind::ReplyToPost));
    if starts_with_discriminator(data, &c) {
        return InstructionKind::ReplyToPost;
    }
    let c = LIKE_POST_DISCRIMINATOR;
    assert(c@ =~= instruction_discriminator(InstructionKind::LikePost));
    if starts_with_discriminator(data, &c) {
        return InstructionKind::LikePost;
    }
    let c = UNLIKE_POST_DISCRIMINATOR;
    assert(c@ =~= instruction_discriminator(InstructionKind::UnlikePost));
    if starts_with_discriminator(data, &c) {
        return InstructionKind::UnlikePost;
    }
    let c = REPOST_POST_DISCRIMINATOR;
    assert(c@ =~= instruction_discriminator(InstructionKind::RepostPost));
    if starts_with_discriminator(data, &c) {
        return InstructionKind::RepostPost;
    }
    let c = UNREPOST_POST_DISCRIMINATOR;
    assert(c@ =~= instruction_discriminator(InstructionKind::UnrepostPost));
    if starts_with_discriminator(data, &c) {
        return InstructionKind::UnrepostPost;
    }
    let c = CREATE_OR_UPDATE_PROFILE_DISCRIMINATOR;
    assert(c@ =~= instruction_discriminator(InstructionKind::CreateOrUpdateProfile));
    if starts_with_discriminator(data, &c) {
        return InstructionKind::CreateOrUpdateProfile;
    }
    let c = FOLLOW_AGENT_DISCRIMINATOR;
    assert(c@ =~= instruction_discriminator(InstructionKind::FollowAgent));
    if starts_with_discriminator(data, &c) {
        return InstructionKind::FollowAgent;
    }
    let c = UNFOLLOW_AGENT_DISCRIMINATOR;
    assert(c@ =~= instruction_discriminator(InstructionKind::UnfollowAgent));
    if starts_with_discriminator(data, &c) {
        return InstructionKind::UnfollowAgent;
    }
    InstructionKind::Unknown
}

/// The program's instruction discriminators, byte for byte: data that opens with one of them is
/// that instruction, whatever follows; data shorter than 8 bytes is too short, and 8 or more
/// bytes that open with none of them are unknown.
pub proof fn lemma_classify_instruction_bytes(data: Seq<u8>, args: Seq<u8>)
    ensures
        spec_classify_instruction(seq![123u8, 92, 184, 29, 231, 24, 15, 202] + args) == InstructionKind::CreatePost,
        spec_classify_instruction(seq![47u8, 124, 83, 114, 55, 170, 176, 188] + args) == InstructionKind::ReplyToPost,
        spec_classify_instruction(seq![45u8, 242, 154, 71, 63, 133, 54, 186] + args) == InstructionKind::LikePost,
        spec_classify_instruction(seq![236u8, 63, 6, 34, 128, 3, 114, 174] + args) == InstructionKind::UnlikePost,
        spec_classify_instruction(seq![175u8, 134, 193, 12, 27, 197, 61, 189] + args) == InstructionKind::RepostPost,
        spec_classify_instruction(seq![222u8, 76, 33, 179, 167, 222, 5, 21] + args) == InstructionKind::UnrepostPost,
        spec_classify_instruction(seq![52u8, 169, 99, 129, 231, 122, 119, 207] + args)
            == InstructionKind::CreateOrUpdateProfile,
        spec_classify_instruction(seq![64u8, 202, 196, 131, 84, 241, 248, 38] + args) == InstructionKind::FollowAgent,
        spec_classify_instruction(seq![124u8, 101, 198, 225, 35, 138, 12, 36] + args) == InstructionKind::UnfollowAgent,
        data.len() < 8 <==> spec_classify_instruction(data) == InstructionKind::DataTooShort,
        spec_classify_instruction(data) == InstructionKind::Unknown <==> (data.len() >= 8 && data.take(8)
            != seq![123u8, 92, 184, 29, 231, 24, 15, 202] && data.take(8) != seq![47u8, 124, 83, 114, 55, 170, 176, 188]
            && data.take(8) != seq![45u8, 242, 154, 71, 63, 133, 54, 186] && data.take(8) != seq![236u8, 63, 6, 34, 128, 3, 114, 174]
            && data.take(8) != seq![175u8, 134, 193, 12, 27, 197, 61, 189] && data.take(8) != seq![222u8, 76, 33, 179, 167, 222, 5, 21]
            && data.take(8) != seq![52u8, 169, 99, 129, 231, 122, 119, 207] && data.take(8) != seq![64u8, 202, 196, 131, 84, 241, 248, 38]
            && data.take(8) != seq![124u8, 101, 198, 225, 35, 138, 12, 36]),
{
    lemma_classify_instruction_discriminator(InstructionKind::CreatePost, args);
    lemma_classify_instruction_discriminator(InstructionKind::ReplyToPost, args);
    lemma_classify_instruction_discriminator(InstructionKind::LikePost, args);
    lemma_classify_instruction_discriminator(InstructionKind::UnlikePost, args);
    lemma_classify_instruction_discriminator(InstructionKind::RepostPost, args);
    lemma_classify_instruction_discriminator(InstructionKind::UnrepostPost, args);
    lemma_classify_instruction_discriminator(InstructionKind::CreateOrUpdateProfile, args);
    lemma_classify_instruction_discriminator(InstructionKind::FollowAgent, args);
    lemma_classify_instruction_discriminator(InstructionKind::UnfollowAgent, args);
}

/// Instruction data that opens with a known instruction's discriminator is classified as that
/// instruction, whatever the arguments after it.
pub proof fn lemma_classify_instruction_discriminator(kind: InstructionKind, args: Seq<u8>)
    requires
        is_known_instruction(kind),
    ensures
        spec_classify_instruction(instruction_discriminator(kind) + args) == kind,
{
    let data = instruction_discriminator(kind) + args;
    assert(data.take(8) =~= instruction_discriminator(kind));
}

// ===================== fetched accounts =====================

/// What the indexer does with an account fetched for a transaction.
#[derive(Clone, Debug)]
pub enum FetchedAccount {
    /// Another program owns the account: it is skipped.
    NotOwnedByProgram,
    /// The program owns the account but it holds no data: it is skipped.
    NoData,
    /// The program owns the account, and its data decodes as this.
    Decoded(DecodedAccount),
}

pub ghost enum FetchedAccountView {
    NotOwnedByProgram,
    NoData,
    Decoded(DecodedAccountView),
}

impl View for FetchedAccount {
    type V = FetchedAccountView;

    open spec fn view(&self) -> FetchedAccountView {
        match self {
            FetchedAccount::NotOwnedByProgram => FetchedAccountView::NotOwnedByProgram,
            FetchedAccount::NoData => FetchedAccountView::NoData,
            FetchedAccount::Decoded(d) => FetchedAccountView::Decoded(d@),
        }
    }
}

pub open spec fn spec_examine_fetched_account(program_id: Seq<u8>, owner: Seq<u8>, data: Seq<u8>) -> FetchedAccountView {
    if owner != program_id {
        FetchedAccountView::NotOwnedByProgram
    } else if data.len() == 0 {
        FetchedAccountView::NoData
    } else {
        FetchedAccountView::Decoded(spec_deserialize_account_data(data))
    }
}

/// Decides what a fetched account is: skipped when another program owns it or it holds no
/// data, decoded otherwise.
pub fn examine_fetched_account(program_id: &Pubkey, owner: &Pubkey, data: &[u8]) -> (res: FetchedAccount)
    ensures
        res@ == spec_examine_fetched_account(program_id@, owner@, data@),
        owner@ != program_id@ ==> res is NotOwnedByProgram,
        res is NotOwnedByProgram <==> owner@ != program_id@,
        res is NoData <==> (owner@ == program_id@ && data@.len() == 0),
        res is Decoded <==> (owner@ == program_id@ && data@.len() > 0),
        res matches FetchedAccount::Decoded(d) ==> d@ == spec_deserialize_account_data(data@),
{
    proof {
        lemma_examine_fetched_account_cases(program_id@, owner@, data@);
    }
    if !owner.same_as(program_id) {
        FetchedAccount::NotOwnedByProgram
    } else if data.len() == 0 {
        FetchedAccount::NoData
    } else {
        FetchedAccount::Decoded(deserialize_account_data(data))
    }
}

/// Ownership is tested before anything else: an account that another program owns is skipped
/// as not owned, whatever its data. An account of the program is skipped for want of data
/// exactly when its data is empty, and otherwise is decoded from its data.
pub proof fn lemma_examine_fetched_account_cases(program_id: Seq<u8>, owner: Seq<u8>, data: Seq<u8>)
    ensures
        owner != program_id ==> spec_examine_fetched_account(program_id, owner, data)
            == FetchedAccountView::NotOwnedByProgram,
        spec_examine_fetched_account(program_id, owner, data) == FetchedAccountView::NoData
            <==> (owner == program_id && data.len() == 0),
        owner == program_id && data.len() > 0 ==> spec_examine_fetched_account(program_id, owner, data)
            == FetchedAccountView::Decoded(spec_deserialize_account_data(data)),
{
}

/// Whether an RPC error message says that an account does not exist (it was likely closed).
pub fn is_account_not_found_message(message: &str) -> (res: bool)
    ensures
        res == (spec_contains(message@, "AccountNotFound"@) || spec_contains(message@, "was not found"@)),
{
    contains(message, "AccountNotFound") || contains(message, "was not found")
}

// ===================== fetching a transaction =====================

/// Whether an RPC error message says that the transaction is not (yet) available.
pub fn is_transaction_not_found_message(message: &str) -> (res: bool)
    ensures
        res == (spec_contains(message@, "invalid type: null"@) || spec_contains(message@, "not found"@)),
{
    contains(message, "invalid type: null") || contains(message, "not found")
}

/// What to do after one attempt to fetch a transaction.
#[derive(Clone, Copy, Debug, PartialEq, Eq, Structural)]
pub enum FetchDecision {
    /// The transaction arrived: hand it back.
    ReturnTransaction,
    /// The last attempt found no transaction: report that there is none.
    ReturnNotFound,
    /// The last attempt failed with another error: report the error.
    ReturnError,
    /// The transaction was not found yet: wait the delay, then try again.
    RetryNotFound,
    /// The attempt failed with another error: wait the delay, then try again.
    RetryAfterError,
}

pub open spec fn spec_fetch_decision(attempt: int, max_retries: int, error: Option<Seq<char>>) -> FetchDecision {
    match error {
        None => FetchDecision::ReturnTransaction,
        Some(message) => if attempt + 1 == max_retries {
            if spec_contains(message, "invalid type: null"@) || spec_contains(message, "not found"@) {
                FetchDecision::ReturnNotFound
            } else {
                FetchDecision::ReturnError
            }
        } else if spec_contains(message, "invalid type: null"@) || spec_contains(message, "not found"@) {
            FetchDecision::RetryNotFound
        } else {
            FetchDecision::RetryAfterError
        },
    }
}

/// The decision after attempt number `attempt` (counted from 0) of `max_retries`, given the
/// attempt's error message, if any. A transaction that arrives is handed back at once; the last
/// attempt never retries; a not-found error there means there is no transaction, and any other
/// error is reported. Earlier failures retry, telling a not-found error from another one.
pub fn fetch_decision(attempt: usize, max_retries: usize, error: Option<&str>) -> (res: FetchDecision)
    requires
        attempt < max_retries,
    ensures
        res == spec_fetch_decision(attempt as int, max_retries as int, match error {
            Some(m) => Some(m@),
            None => None,
        }),
        (res == FetchDecision::RetryNotFound || res == FetchDecision::RetryAfterError) ==> attempt + 1
            < max_retries,
        error is None ==> res == FetchDecision::ReturnTransaction,
        error is Some && attempt + 1 < max_retries ==> (res == FetchDecision::RetryNotFound || res
            == FetchDecision::RetryAfterError),
        error is Some && attempt + 1 == max_retries ==> (res == FetchDecision::ReturnNotFound || res
            == FetchDecision::ReturnError),
        error matches Some(m) ==> ((res == FetchDecision::RetryNotFound || res == FetchDecision::ReturnNotFound)
            <==> (spec_contains(m@, "invalid type: null"@) || spec_contains(m@, "not found"@))),
{
    proof {
        lemma_fetch_decision_cases(attempt as int, max_retries as int, error_view(error));
    }
    match error {
        None => FetchDecision::ReturnTransaction,
        Some(message) => {
            let not_found = is_transaction_not_found_message(message);
            if attempt + 1 == max_retries {
                if not_found {
                    FetchDecision::ReturnNotFound
                } else {
                    FetchDecision::ReturnError
                }
            } else if not_found {
                FetchDecision::RetryNotFound
            } else {
                FetchDecision::RetryAfterError
            }
        },
    }
}

/// What one attempt decides, for an attempt before the last one or the last itself: an attempt
/// that got the transaction hands it back; a failed attempt before the last always retries, so
/// that a fetch gives up only at its last attempt; the last attempt never retries. Whether the
/// decision speaks of a missing transaction depends only on whether the error message says
/// "invalid type: null" or "not found".
pub proof fn lemma_fetch_decision_cases(attempt: int, max_retries: int, error: Option<Seq<char>>)
    requires
        0 <= attempt < max_retries,
    ensures
        error is None ==> spec_fetch_decision(attempt, max_retries, error) == FetchDecision::ReturnTransaction,
        error is Some && attempt + 1 < max_retries ==> (spec_fetch_decision(attempt, max_retries, error)
            == FetchDecision::RetryNotFound || spec_fetch_decision(attempt, max_retries, error)
            == FetchDecision::RetryAfterError),
        error is Some && attempt + 1 == max_retries ==> (spec_fetch_decision(attempt, max_retries, error)
            == FetchDecision::ReturnNotFound || spec_fetch_decision(attempt, max_retries, error)
            == FetchDecision::ReturnError),
        error matches Some(m) ==> ((spec_fetch_decision(attempt, max_retries, error) == FetchDecision::RetryNotFound
            || spec_fetch_decision(attempt, max_retries, error) == FetchDecision::ReturnNotFound)
            <==> (spec_contains(m, "invalid type: null"@) || spec_contains(m, "not found"@))),
{
}

/// Whether a decision is to try again.
pub open spec fn is_retry(d: FetchDecision) -> bool {
    d == FetchDecision::RetryNotFound || d == FetchDecision::RetryAfterError
}

/// How a fetch that starts at attempt `attempt` ends, given each attempt's error message (or
/// `None` for an attempt that got the transaction): the number of attempts made in all, and the
/// final decision, or `None` when the attempts run out without one.
pub open spec fn spec_fetch_run(max_retries: nat, errors: Seq<Option<Seq<char>>>, attempt: nat) -> (nat, Option<FetchDecision>)
    decreases max_retries - attempt,
{
    if attempt >= max_retries {
        (attempt, None)
    } else {
        let d = spec_fetch_decision(attempt as int, max_retries as int, errors[attempt as int]);
        if is_retry(d) {
            spec_fetch_run(max_retries, errors, attempt + 1)
        } else {
            (attempt + 1, Some(d))
        }
    }
}

/// A fetch makes at most `max_retries` attempts; when `max_retries` is positive it always ends
/// with a decision (the transaction, not found, or an error), and it ends at the first attempt
/// that gets the transaction.
pub proof fn lemma_fetch_run_bounded(max_retries: nat, errors: Seq<Option<Seq<char>>>, attempt: nat)
    requires
        attempt <= max_retries,
        errors.len() >= max_retries,
    ensures
        spec_fetch_run(max_retries, errors, attempt).0 <= max_retries,
        attempt < max_retries ==> spec_fetch_run(max_retries, errors, attempt).1 is Some,
        attempt < max_retries && errors[attempt as int] is None ==> spec_fetch_run(max_retries, errors, attempt)
            == (attempt + 1, Some(FetchDecision::ReturnTransaction)),
    decreases max_retries - attempt,
{
    if attempt < max_retries {
        let d = spec_fetch_decision(attempt as int, max_retries as int, errors[attempt as int]);
        if is_retry(d) {
            lemma_fetch_run_bounded(max_retries, errors, attempt + 1);
        }
    }
}

/// A fetch stops at the first attempt that gets the transaction, and otherwise only at its last
/// attempt: every attempt before the one it stops at failed, the fetch hands a transaction back
/// exactly when the attempt it stops at got one, and a fetch that stops on an error has used
/// all `max_retries` attempts.
pub proof fn lemma_fetch_run_stops_on_success_or_last(max_retries: nat, errors: Seq<Option<Seq<char>>>, attempt: nat)
    requires
        attempt < max_retries,
        errors.len() >= max_retries,
    ensures
        attempt < spec_fetch_run(max_retries, errors, attempt).0 <= max_retries,
        forall|k: int|
            attempt <= k < spec_fetch_run(max_retries, errors, attempt).0 - 1 ==> (#[trigger] errors[k]) is Some,
        spec_fetch_run(max_retries, errors, attempt).1 == Some(FetchDecision::ReturnTransaction)
            <==> errors[spec_fetch_run(max_retries, errors, attempt).0 - 1] is None,
        errors[spec_fetch_run(max_retries, errors, attempt).0 - 1] is Some ==> spec_fetch_run(
            max_retries,
            errors,
            attempt,
        ).0 == max_retries,
    decreases max_retries - attempt,
{
    let d = spec_fetch_decision(attempt as int, max_retries as int, errors[attempt as int]);
    lemma_fetch_decision_cases(attempt as int, max_retries as int, errors[attempt as int]);
    if is_retry(d) {
        lemma_fetch_run_stops_on_success_or_last(max_retries, errors, attempt + 1);
    }
}

/// The error messages of a fetch's attempts, each taken by its characters.
pub open spec fn error_view(error: Option<&str>) -> Option<Seq<char>> {
    match error {
        Some(m) => Some(m@),
        None => None,
    }
}

/// The attempts to fetch one transaction: how many were made out of how many are allowed, the
/// error of each (or `None` for the one that got the transaction), and how the fetch ended, if
/// it has.
pub struct TransactionFetch {
    attempt: usize,
    max_retries: usize,
    outcome: Option<FetchDecision>,
    errors: Ghost<Seq<Option<Seq<char>>>>,
}

pub ghost struct TransactionFetchView {
    pub attempt: nat,
    pub max_retries: nat,
    pub outcome: Option<FetchDecision>,
    pub errors: Seq<Option<Seq<char>>>,
}

impl View for TransactionFetch {
    type V = TransactionFetchView;

    closed spec fn view(&self) -> TransactionFetchView {
        TransactionFetchView {
            attempt: self.attempt as nat,
            max_retries: self.max_retries as nat,
            outcome: self.outcome,
            errors: self.errors@,
        }
    }
}

impl TransactionFetch {
    /// The attempts made so far agree with `spec_fetch_run`: while the fetch goes on, the run
    /// from the start is the run from the next attempt, whatever the later attempts give; once
    /// it has ended, the run from the start ends there.
    #[verifier::type_invariant]
    closed spec fn inv(self) -> bool {
        &&& self.errors@.len() == self.attempt
        &&& self.attempt <= self.max_retries
        &&& match self.outcome {
            None => forall|rest: Seq<Option<Seq<char>>>|
                #[trigger] spec_fetch_run(self.max_retries as nat, self.errors@ + rest, 0)
                    == spec_fetch_run(self.max_retries as nat, self.errors@ + rest, self.attempt as nat),
            Some(d) => !is_retry(d) && forall|rest: Seq<Option<Seq<char>>>|
                #[trigger] spec_fetch_run(self.max_retries as nat, self.errors@ + rest, 0)
                    == (self.attempt as nat, Some(d)),
        }
    }

    /// A fetch allowed `max_retries` attempts, none made yet.
    pub fn new(max_retries: usize) -> (f: TransactionFetch)
        ensures
            f@ == (TransactionFetchView { attempt: 0, max_retries: max_retries as nat, outcome: None, errors: Seq::empty() }),
    {
        TransactionFetch { attempt: 0, max_retries, outcome: None, errors: Ghost(Seq::empty()) }
    }

    /// The number of the next attempt to make, counted from 0, or `None` when the fetch has
    /// ended or has used all its attempts. When the attempts ran out without an ending, the run
    /// of `spec_fetch_run` over them also ends without a decision.
    pub fn next_attempt(&self) -> (a: Option<usize>)
        ensures
            a == (if self@.outcome is None && self@.attempt < self@.max_retries {
                Some(self@.attempt as usize)
            } else {
                None::<usize>
            }),
            a is None && self@.outcome is None ==> spec_fetch_run(self@.max_retries, self@.errors, 0) == (
                self@.max_retries,
                None::<FetchDecision>,
            ),
    {
        proof {
            use_type_invariant(self);
            let e = self.errors@;
            assert(e + Seq::<Option<Seq<char>>>::empty() =~= e);
            if self.outcome is None {
                assert(spec_fetch_run(self.max_retries as nat, e + Seq::<Option<Seq<char>>>::empty(), 0)
                    == spec_fetch_run(self.max_retries as nat, e + Seq::<Option<Seq<char>>>::empty(), self.attempt as nat));
            }
        }
        if self.outcome.is_none() && self.attempt < self.max_retries {
            Some(self.attempt)
        } else {
            None
        }
    }

    /// Records the result of the next attempt (its error message, or `None` when it got the
    /// transaction) and decides what to do, as `fetch_decision` does. When the decision ends the
    /// fetch, `spec_fetch_run` over the attempts made ends with the same decision after the same
    /// number of attempts.
    pub fn record(&mut self, error: Option<&str>) -> (d: FetchDecision)
        requires
            old(self)@.outcome is None,
            old(self)@.attempt < old(self)@.max_retries,
        ensures
            d == spec_fetch_decision(old(self)@.attempt as int, old(self)@.max_retries as int, error_view(error)),
            final(self)@.attempt == old(self)@.attempt + 1,
            final(self)@.max_retries == old(self)@.max_retries,
            final(self)@.errors == old(self)@.errors.push(error_view(error)),
            final(self)@.outcome == (if is_retry(d) { None } else { Some(d) }),
            !is_retry(d) ==> spec_fetch_run(final(self)@.max_retries, final(self)@.errors, 0) == (
                final(self)@.attempt,
                Some(d),
            ),
            error is None ==> d == FetchDecision::ReturnTransaction && final(self)@.outcome == Some(
                FetchDecision::ReturnTransaction,
            ),
            error is Some && old(self)@.attempt + 1 < old(self)@.max_retries ==> final(self)@.outcome is None,
            old(self)@.attempt + 1 == old(self)@.max_retries ==> final(self)@.outcome is Some,
    {
        proof {
            use_type_invariant(&*self);
            lemma_fetch_decision_cases(self.attempt as int, self.max_retries as int, error_view(error));
        }
        let ghost old_errors = self.errors@;
        let ghost a = self.attempt as nat;
        let ghost m = self.max_retries as nat;
        let ghost ev = error_view(error);
        let d = fetch_decision(self.attempt, self.max_retries, error);
        let ghost new_errors = old_errors.push(ev);
        assert(d == spec_fetch_decision(a as int, m as int, ev));
        if d == FetchDecision::RetryNotFound || d == FetchDecision::RetryAfterError {
            assert forall|rest: Seq<Option<Seq<char>>>|
                #[trigger] spec_fetch_run(m, new_errors + rest, 0) == spec_fetch_run(m, new_errors + rest, a + 1) by {
                let s2 = old_errors + (seq![ev] + rest);
                assert(new_errors + rest =~= s2);
                assert(spec_fetch_run(m, s2, 0) == spec_fetch_run(m, s2, a));
                assert(s2[a as int] == ev);
            }
        } else {
            assert forall|rest: Seq<Option<Seq<char>>>|
                #[trigger] spec_fetch_run(m, new_errors + rest, 0) == (a + 1, Some(d)) by {
                let s2 = old_errors + (seq![ev] + rest);
                assert(new_errors + rest =~= s2);
                assert(spec_fetch_run(m, s2, 0) == spec_fetch_run(m, s2, a));
                assert(s2[a as int] == ev);
            }
        }
        let outcome = if d == FetchDecision::RetryNotFound || d == FetchDecision::RetryAfterError {
            None
        } else {
            Some(d)
        };
        proof {
            if !is_retry(d) {
                assert(new_errors + Seq::<Option<Seq<char>>>::empty() =~= new_errors);
                assert(spec_fetch_run(m, new_errors + Seq::<Option<Seq<char>>>::empty(), 0) == (a + 1, Some(d)));
            }
        }
        *self = TransactionFetch {
            attempt: self.attempt + 1,
            max_retries: self.max_retries,
            outcome,
            errors: Ghost(new_errors),
        };
        d
    }
}

// ===================== transaction plan =====================

/// An instruction of a transaction: the program it calls and the accounts it names, as indices
/// into the transaction's account keys, and its data.
#[derive(Clone, Debug)]
pub struct CompiledInstruction {
    pub program_id_index: u8,
    pub accounts: Vec<u8>,
    pub data: Vec<u8>,
}

pub ghost struct CompiledInstructionView {
    pub program_id_index: u8,
    pub accounts: Seq<u8>,
    pub data: Seq<u8>,
}

impl View for CompiledInstruction {
    type V = CompiledInstructionView;

    open spec fn view(&self) -> CompiledInstructionView {
        CompiledInstructionView {
            program_id_index: self.program_id_index,
            accounts: self.accounts@,
            data: self.data@,
        }
    }
}

/// Addresses that a transaction loads from address lookup tables, in base58 text.
#[derive(Clone, Debug)]
pub struct LoadedAddresses {
    pub writable: Vec<String>,
    pub readonly: Vec<String>,
}

/// What an instruction of a transaction is, seen from the indexed program.
#[derive(Clone, Debug)]
pub enum InstructionReport {
    /// Instruction number `index` calls the program, with `data_len` bytes of data.
    ForProgram { index: usize, data_len: usize, kind: InstructionKind },
    /// Instruction number `index` calls another program: the key its program index names, or
    /// `None` when that index is out of range.
    OtherProgram { index: usize, program: Option<Pubkey> },
}

/// A loaded address and the result of parsing it as the base58 text of a key.
#[derive(Debug)]
pub struct ParsedAddress {
    pub address: String,
    pub key: Result<Pubkey, PubkeyParseError>,
}

/// A loaded address that is not the text of a key.
#[derive(Clone, Debug)]
pub struct InvalidAddress {
    pub address: String,
    pub error: PubkeyParseError,
}

/// What the indexer learns from a fetched transaction: a report per instruction, the accounts to
/// fetch (each once), and the loaded addresses that do not parse.
#[derive(Clone, Debug)]
pub struct TransactionPlan {
    pub instructions: Vec<InstructionReport>,
    pub accounts_to_fetch: Vec<Pubkey>,
    pub invalid_addresses: Vec<InvalidAddress>,
}

pub open spec fn keys_view(keys: Seq<Pubkey>) -> Seq<Seq<u8>> {
    keys.map_values(|k: Pubkey| k@)
}

pub open spec fn strings_view(v: Seq<String>) -> Seq<Seq<char>> {
    v.map_values(|s: String| s@)
}

pub open spec fn invalid_view(v: Seq<InvalidAddress>) -> Seq<(Seq<char>, PubkeyParseError)> {
    v.map_values(|a: InvalidAddress| (a.address@, a.error))
}

/// The loaded addresses, writable ones first.
pub open spec fn loaded_view(loaded: Option<&LoadedAddresses>) -> Seq<Seq<char>> {
    match loaded {
        None => Seq::empty(),
        Some(l) => strings_view(l.writable@) + strings_view(l.readonly@),
    }
}

/// The instruction calls the program: its program index names the program's key.
pub open spec fn targets_program(program: Seq<u8>, keys: Seq<Seq<u8>>, ins: CompiledInstructionView) -> bool {
    (ins.program_id_index as int) < keys.len() && keys[ins.program_id_index as int] == program
}

/// `r` is the report on instruction number `index`.
pub open spec fn report_describes(
    r: InstructionReport,
    program: Seq<u8>,
    keys: Seq<Seq<u8>>,
    index: int,
    ins: CompiledInstructionView,
) -> bool {
    match r {
        InstructionReport::ForProgram { index: i, data_len, kind } => {
            &&& targets_program(program, keys, ins)
            &&& i == index
            &&& data_len == ins.data.len()
            &&& kind == spec_classify_instruction(ins.data)
        },
        InstructionReport::OtherProgram { index: i, program: p } => {
            &&& !targets_program(program, keys, ins)
            &&& i == index
            &&& if (ins.program_id_index as int) < keys.len() {
                p matches Some(k) && k@ == keys[ins.program_id_index as int]
            } else {
                p is None
            }
        },
    }
}

/// The keys that the account indices name, in order, skipping indices out of range.
pub open spec fn spec_account_keys(keys: Seq<Seq<u8>>, accounts: Seq<u8>) -> Seq<Seq<u8>>
    decreases accounts.len(),
{
    if accounts.len() == 0 {
        Seq::empty()
    } else {
        let prev = spec_account_keys(keys, accounts.drop_last());
        let a = accounts.last() as int;
        if a < keys.len() {
            prev.push(keys[a])
        } else {
            prev
        }
    }
}

/// The account keys of the instructions that call the program, in order, with repeats.
pub open spec fn spec_program_accounts(
    program: Seq<u8>,
    keys: Seq<Seq<u8>>,
    ins: Seq<CompiledInstructionView>,
) -> Seq<Seq<u8>>
    decreases ins.len(),
{
    if ins.len() == 0 {
        Seq::empty()
    } else {
        let prev = spec_program_accounts(program, keys, ins.drop_last());
        if targets_program(program, keys, ins.last()) {
            prev + spec_account_keys(keys, ins.last().accounts)
        } else {
            prev
        }
    }
}

/// A loaded address and what parsing it gave, taken as values.
pub type ParsedAddressView = (Seq<char>, Result<Seq<u8>, PubkeyParseError>);

pub open spec fn parsed_view(v: Seq<ParsedAddress>) -> Seq<ParsedAddressView> {
    v.map_values(|a: ParsedAddress| (a.address@, parsed_key_view(a.key)))
}

/// The keys that the loaded addresses parsed to, in order, skipping those that did not parse.
pub open spec fn spec_loaded_keys(parsed: Seq<ParsedAddressView>) -> Seq<Seq<u8>>
    decreases parsed.len(),
{
    if parsed.len() == 0 {
        Seq::empty()
    } else {
        let prev = spec_loaded_keys(parsed.drop_last());
        match parsed.last().1 {
            Ok(k) => prev.push(k),
            Err(_) => prev,
        }
    }
}

/// The loaded addresses that did not parse, in order, with the reason.
pub open spec fn spec_invalid_addresses(parsed: Seq<ParsedAddressView>) -> Seq<(Seq<char>, PubkeyParseError)>
    decreases parsed.len(),
{
    if parsed.len() == 0 {
        Seq::empty()
    } else {
        let prev = spec_invalid_addresses(parsed.drop_last());
        match parsed.last().1 {
            Ok(_) => prev,
            Err(e) => prev.push((parsed.last().0, e)),
        }
    }
}

/// Each index in range puts the key it names among the collected keys, whatever the other
/// indices are; and every collected key is named by an index in range.
pub proof fn lemma_account_keys_members(keys: Seq<Seq<u8>>, accounts: Seq<u8>)
    ensures
        forall|j: int|
            0 <= j < accounts.len() && (#[trigger] accounts[j] as int) < keys.len() ==> spec_account_keys(
                keys,
                accounts,
            ).contains(keys[accounts[j] as int]),
        forall|k: Seq<u8>|
            spec_account_keys(keys, accounts).contains(k) ==> exists|j: int|
                0 <= j < accounts.len() && (#[trigger] accounts[j] as int) < keys.len() && keys[accounts[j] as int]
                    == k,
    decreases accounts.len(),
{
    if accounts.len() > 0 {
        let t = accounts.drop_last();
        lemma_account_keys_members(keys, t);
        let prev = spec_account_keys(keys, t);
        let res = spec_account_keys(keys, accounts);
        let n = accounts.len() - 1;
        let a = accounts.last() as int;
        assert forall|j: int| 0 <= j < accounts.len() && (#[trigger] accounts[j] as int) < keys.len() implies res.contains(
            keys[accounts[j] as int],
        ) by {
            if j < n {
                assert(t[j] == accounts[j]);
                assert(prev.contains(keys[t[j] as int]));
                let p = choose|p: int| 0 <= p < prev.len() && prev[p] == keys[t[j] as int];
                assert(res[p] == prev[p]);
            } else {
                assert(res[prev.len() as int] == keys[a]);
            }
        }
        assert forall|k: Seq<u8>| res.contains(k) implies exists|j: int|
            0 <= j < accounts.len() && (#[trigger] accounts[j] as int) < keys.len() && keys[accounts[j] as int] == k by {
            let p = choose|p: int| 0 <= p < res.len() && res[p] == k;
            if p < prev.len() {
                assert(prev[p] == k);
                assert(prev.contains(k));
                let j = choose|j: int| 0 <= j < t.len() && (#[trigger] t[j] as int) < keys.len() && keys[t[j] as int] == k;
                assert(accounts[j] == t[j]);
            } else {
                assert(accounts[n] as int == a);
            }
        }
    }
}

/// Every account index in range of every instruction that calls the program puts the key it
/// names among the program's accounts; and each of the program's accounts is named so.
pub proof fn lemma_program_accounts_members(program: Seq<u8>, keys: Seq<Seq<u8>>, ins: Seq<CompiledInstructionView>)
    ensures
        forall|i: int, j: int|
            0 <= i < ins.len() && targets_program(program, keys, ins[i]) && 0 <= j < ins[i].accounts.len() && (
            #[trigger] ins[i].accounts[j] as int) < keys.len() ==> spec_program_accounts(program, keys, ins).contains(
                keys[ins[i].accounts[j] as int],
            ),
        forall|k: Seq<u8>|
            spec_program_accounts(program, keys, ins).contains(k) ==> exists|i: int, j: int|
                0 <= i < ins.len() && targets_program(program, keys, ins[i]) && 0 <= j < ins[i].accounts.len() && (
                #[trigger] ins[i].accounts[j] as int) < keys.len() && keys[ins[i].accounts[j] as int] == k,
    decreases ins.len(),
{
    if ins.len() > 0 {
        let t = ins.drop_last();
        lemma_program_accounts_members(program, keys, t);
        let prev = spec_program_accounts(program, keys, t);
        let res = spec_program_accounts(program, keys, ins);
        let n = ins.len() - 1;
        let last = ins.last();
        let ak = spec_account_keys(keys, last.accounts);
        lemma_account_keys_members(keys, last.accounts);
        assert forall|i: int, j: int|
            0 <= i < ins.len() && targets_program(program, keys, ins[i]) && 0 <= j < ins[i].accounts.len() && (
            #[trigger] ins[i].accounts[j] as int) < keys.len() implies res.contains(keys[ins[i].accounts[j] as int]) by {
            let k = keys[ins[i].accounts[j] as int];
            if i < n {
                assert(t[i] == ins[i]);
                assert(t[i].accounts[j] == ins[i].accounts[j]);
                assert(prev.contains(k));
                let p = choose|p: int| 0 <= p < prev.len() && prev[p] == k;
                if targets_program(program, keys, last) {
                    assert(res[p] == prev[p]);
                } else {
                    assert(res == prev);
                }
            } else {
                assert(ins[i] == last);
                assert(ak.contains(k));
                let p = choose|p: int| 0 <= p < ak.len() && ak[p] == k;
                assert(res[prev.len() + p] == ak[p]);
            }
        }
        assert forall|k: Seq<u8>| res.contains(k) implies exists|i: int, j: int|
            0 <= i < ins.len() && targets_program(program, keys, ins[i]) && 0 <= j < ins[i].accounts.len() && (
            #[trigger] ins[i].accounts[j] as int) < keys.len() && keys[ins[i].accounts[j] as int] == k by {
            let p = choose|p: int| 0 <= p < res.len() && res[p] == k;
            if p < prev.len() {
                if targets_program(program, keys, last) {
                    assert(res[p] == prev[p]);
                }
                assert(prev[p] == k);
                assert(prev.contains(k));
                let (i, j) = choose|i: int, j: int|
                    0 <= i < t.len() && targets_program(program, keys, t[i]) && 0 <= j < t[i].accounts.len() && (
                    #[trigger] t[i].accounts[j] as int) < keys.len() && keys[t[i].accounts[j] as int] == k;
                assert(ins[i] == t[i]);
                assert(ins[i].accounts[j] == t[i].accounts[j]);
            } else {
                assert(targets_program(program, keys, last));
                assert(ak[p - prev.len()] == k);
                assert(ak.contains(k));
                let j = choose|j: int|
                    0 <= j < last.accounts.len() && (#[trigger] last.accounts[j] as int) < keys.len()
                        && keys[last.accounts[j] as int] == k;
                assert(ins[n] == last);
                assert(ins[n].accounts[j] == last.accounts[j]);
            }
        }
    }
}

/// The key of every loaded address that parsed is among the loaded keys, whatever the other
/// addresses are; and every loaded key is the key of a loaded address that parsed.
pub proof fn lemma_loaded_keys_members(parsed: Seq<ParsedAddressView>)
    ensures
        forall|m: int|
            0 <= m < parsed.len() && (#[trigger] parsed[m]).1 is Ok ==> spec_loaded_keys(parsed).contains(
                parsed[m].1->Ok_0,
            ),
        forall|k: Seq<u8>|
            spec_loaded_keys(parsed).contains(k) ==> exists|m: int|
                0 <= m < parsed.len() && (#[trigger] parsed[m]).1 == Ok::<Seq<u8>, PubkeyParseError>(k),
    decreases parsed.len(),
{
    if parsed.len() > 0 {
        let t = parsed.drop_last();
        lemma_loaded_keys_members(t);
        let prev = spec_loaded_keys(t);
        let res = spec_loaded_keys(parsed);
        let n = parsed.len() - 1;
        assert forall|m: int| 0 <= m < parsed.len() && (#[trigger] parsed[m]).1 is Ok implies res.contains(
            parsed[m].1->Ok_0,
        ) by {
            let k = parsed[m].1->Ok_0;
            if m < n {
                assert(t[m] == parsed[m]);
                assert(prev.contains(k));
                let p = choose|p: int| 0 <= p < prev.len() && prev[p] == k;
                assert(res[p] == prev[p]);
            } else {
                assert(res[prev.len() as int] == k);
            }
        }
        assert forall|k: Seq<u8>| res.contains(k) implies exists|m: int|
            0 <= m < parsed.len() && (#[trigger] parsed[m]).1 == Ok::<Seq<u8>, PubkeyParseError>(k) by {
            let p = choose|p: int| 0 <= p < res.len() && res[p] == k;
            if p < prev.len() {
                assert(prev[p] == k);
                assert(prev.contains(k));
                let m = choose|m: int| 0 <= m < t.len() && (#[trigger] t[m]).1 == Ok::<Seq<u8>, PubkeyParseError>(k);
                assert(parsed[m] == t[m]);
            } else {
                assert(parsed[n].1 == Ok::<Seq<u8>, PubkeyParseError>(k));
            }
        }
    }
}

/// The first occurrence of each element, in order.
pub open spec fn dedup(s: Seq<Seq<u8>>) -> Seq<Seq<u8>>
    decreases s.len(),
{
    if s.len() == 0 {
        s
    } else {
        let p = dedup(s.drop_last());
        if p.contains(s.last()) {
            p
        } else {
            p.push(s.last())
        }
    }
}

pub open spec fn no_duplicates(s: Seq<Seq<u8>>) -> bool {
    forall|i: int, j: int| 0 <= i < j < s.len() ==> s[i] != s[j]
}

/// Keeping first occurrences leaves each element once, and the same elements.
pub proof fn lemma_dedup(s: Seq<Seq<u8>>)
    ensures
        no_duplicates(dedup(s)),
        forall|k: Seq<u8>| dedup(s).contains(k) <==> s.contains(k),
    decreases s.len(),
{
    if s.len() > 0 {
        let t = s.drop_last();
        lemma_dedup(t);
        let p = dedup(t);
        assert forall|k: Seq<u8>| dedup(s).contains(k) <==> s.contains(k) by {
            if s.contains(k) {
                let i = choose|i: int| 0 <= i < s.len() && s[i] == k;
                if i < s.len() - 1 {
                    assert(t[i] == k);
                    assert(t.contains(k));
                    assert(p.contains(k));
                    let j = choose|j: int| 0 <= j < p.len() && p[j] == k;
                    if !p.contains(s.last()) {
                        assert(dedup(s)[j] == k);
                    }
                } else {
                    if !p.contains(k) {
                        assert(dedup(s)[p.len() as int] == k);
                    }
                }
            }
            if dedup(s).contains(k) {
                let i = choose|i: int| 0 <= i < dedup(s).len() && dedup(s)[i] == k;
                if p.contains(k) {
                    assert(t.contains(k));
                    let j = choose|j: int| 0 <= j < t.len() && t[j] == k;
                    assert(s[j] == k);
                } else if p.contains(s.last()) {
                    assert(p[i] == k);
                } else if i < p.len() {
                    assert(p[i] == k);
                } else {
                    assert(s[s.len() - 1] == k);
                }
            }
        }
        if !p.contains(s.last()) {
            assert forall|i: int, j: int| 0 <= i < j < dedup(s).len() implies dedup(s)[i] != dedup(s)[j] by {
                if j == p.len() {
                    assert(dedup(s)[i] == p[i]);
                }
            }
        }
    }
}

/// Appends `key` unless a key with the same bytes is there already.
fn push_unique(out: &mut Vec<Pubkey>, key: Pubkey, Ghost(listed): Ghost<Seq<Seq<u8>>>)
    requires
        keys_view(old(out)@) == dedup(listed),
    ensures
        keys_view(final(out)@) == dedup(listed.push(key@)),
{
    let ghost l2 = listed.push(key@);
    assert(l2.drop_last() =~= listed);
    assert(l2.last() == key@);
    let mut i: usize = 0;
    while i < out.len()
        invariant
            i <= out@.len(),
            keys_view(out@) == dedup(listed),
            l2 == listed.push(key@),
            l2.drop_last() == listed,
            l2.last() == key@,
            l2.len() > 0,
            forall|j: int| 0 <= j < i ==> out@[j]@ != key@,
        decreases out@.len() - i,
    {
        if out[i].same_as(&key) {
            assert(keys_view(out@)[i as int] == key@);
            assert(dedup(listed).contains(key@));
            assert(dedup(l2) == dedup(listed));
            return;
        }
        i = i + 1;
    }
    assert(!dedup(listed).contains(key@)) by {
        if dedup(listed).contains(key@) {
            let j = choose|j: int| 0 <= j < dedup(listed).len() && dedup(listed)[j] == key@;
            assert(keys_view(out@)[j] == out@[j]@);
        }
    }
    let ghost before = out@;
    out.push(key);
    assert(keys_view(out@) =~= keys_view(before).push(key@));
}

/// The report on instruction number `index`.
fn report_instruction(
    program_id: &Pubkey,
    account_keys: &Vec<Pubkey>,
    index: usize,
    ins: &CompiledInstruction,
) -> (r: InstructionReport)
    ensures
        report_describes(r, program_id@, keys_view(account_keys@), index as int, ins@),
{
    let p = ins.program_id_index as usize;
    if p < account_keys.len() && account_keys[p].same_as(program_id) {
        InstructionReport::ForProgram {
            index,
            data_len: ins.data.len(),
            kind: classify_instruction(ins.data.as_slice()),
        }
    } else if p < account_keys.len() {
        InstructionReport::OtherProgram { index, program: Some(account_keys[p]) }
    } else {
        InstructionReport::OtherProgram { index, program: None }
    }
}

/// Adds the keys that the account indices name (skipping indices out of range) to `out`.
fn collect_account_keys(
    account_keys: &Vec<Pubkey>,
    accounts: &Vec<u8>,
    out: &mut Vec<Pubkey>,
    Ghost(listed): Ghost<Seq<Seq<u8>>>,
)
    requires
        keys_view(old(out)@) == dedup(listed),
    ensures
        keys_view(final(out)@) == dedup(listed + spec_account_keys(keys_view(account_keys@), accounts@)),
{
    let ghost kv = keys_view(account_keys@);
    let mut j: usize = 0;
    assert(accounts@.take(0) =~= Seq::<u8>::empty());
    assert(listed + spec_account_keys(kv, accounts@.take(0)) =~= listed);
    while j < accounts.len()
        invariant
            j <= accounts@.len(),
            kv == keys_view(account_keys@),
            keys_view(out@) == dedup(listed + spec_account_keys(kv, accounts@.take(j as int))),
        decreases accounts@.len() - j,
    {
        let ghost before = listed + spec_account_keys(kv, accounts@.take(j as int));
        assert(accounts@.take(j + 1).drop_last() =~= accounts@.take(j as int));
        let a = accounts[j] as usize;
        if a < account_keys.len() {
            push_unique(out, account_keys[a], Ghost(before));
            assert(listed + spec_account_keys(kv, accounts@.take(j + 1)) =~= before.push(account_keys@[a as int]@));
        } else {
            assert(listed + spec_account_keys(kv, accounts@.take(j + 1)) =~= before);
        }
        j = j + 1;
    }
    assert(accounts@.take(accounts@.len() as int) =~= accounts@);
}

/// Parses the loaded addresses, writable ones first, as base58 keys.
pub fn parse_loaded_addresses(loaded: Option<&LoadedAddresses>) -> (parsed: Vec<ParsedAddress>)
    ensures
        parsed@.len() == loaded_view(loaded).len(),
        forall|i: int|
            0 <= i < parsed@.len() ==> (#[trigger] parsed@[i]).address@ == loaded_view(loaded)[i]
                && parsed_key_view(parsed@[i].key) == pubkey_from_base58(loaded_view(loaded)[i]),
{
    let mut out: Vec<ParsedAddress> = Vec::new();
    match loaded {
        None => {},
        Some(l) => {
            parse_addresses_into(&l.writable, &mut out);
            let ghost first = out@;
            parse_addresses_into(&l.readonly, &mut out);
            let ghost w = l.writable@.len() as int;
            let ghost all = loaded_view(loaded);
            assert forall|i: int| 0 <= i < out@.len() implies (#[trigger] out@[i]).address@ == all[i]
                && parsed_key_view(out@[i].key) == pubkey_from_base58(all[i]) by {
                if i < w {
                    assert(out@[i] == first[i]);
                    assert(first[0 + i] == first[i]);
                    assert(all[i] == l.writable@[i]@);
                } else {
                    let j = i - w;
                    assert(out@[w + j] == out@[i]);
                    assert(all[i] == l.readonly@[j]@);
                }
            }
        },
    }
    out
}

/// Appends each address with the result of parsing it.
fn parse_addresses_into(addrs: &Vec<String>, out: &mut Vec<ParsedAddress>)
    ensures
        final(out)@.len() == old(out)@.len() + addrs@.len(),
        forall|i: int| 0 <= i < old(out)@.len() ==> final(out)@[i] == old(out)@[i],
        forall|i: int|
            0 <= i < addrs@.len() ==> (#[trigger] final(out)@[old(out)@.len() + i]).address@ == addrs@[i]@
                && parsed_key_view(final(out)@[old(out)@.len() + i].key) == pubkey_from_base58(addrs@[i]@),
{
    let ghost start = out@;
    let mut i: usize = 0;
    while i < addrs.len()
        invariant
            i <= addrs@.len(),
            out@.len() == start.len() + i,
            forall|j: int| 0 <= j < start.len() ==> out@[j] == start[j],
            forall|j: int|
                0 <= j < i ==> (#[trigger] out@[start.len() + j]).address@ == addrs@[j]@
                    && parsed_key_view(out@[start.len() + j].key) == pubkey_from_base58(addrs@[j]@),
        decreases addrs@.len() - i,
    {
        let text = &addrs[i];
        let key = Pubkey::from_base58(text.as_str());
        out.push(ParsedAddress { address: text.clone(), key });
        i = i + 1;
    }
}

/// Adds the keys of the addresses that parsed to `out`, and the addresses that did not to
/// `invalid`.
fn collect_loaded_keys(
    parsed: &Vec<ParsedAddress>,
    out: &mut Vec<Pubkey>,
    invalid: &mut Vec<InvalidAddress>,
    Ghost(base): Ghost<Seq<Seq<u8>>>,
)
    requires
        keys_view(old(out)@) == dedup(base),
        old(invalid)@.len() == 0,
    ensures
        keys_view(final(out)@) == dedup(base + spec_loaded_keys(parsed_view(parsed@))),
        invalid_view(final(invalid)@) == spec_invalid_addresses(parsed_view(parsed@)),
{
    let ghost pv = parsed_view(parsed@);
    let mut i: usize = 0;
    assert(pv.take(0) =~= Seq::<ParsedAddressView>::empty());
    assert(base + spec_loaded_keys(pv.take(0)) =~= base);
    assert(invalid_view(invalid@) =~= spec_invalid_addresses(pv.take(0)));
    while i < parsed.len()
        invariant
            i <= parsed@.len(),
            pv == parsed_view(parsed@),
            keys_view(out@) == dedup(base + spec_loaded_keys(pv.take(i as int))),
            invalid_view(invalid@) == spec_invalid_addresses(pv.take(i as int)),
        decreases parsed@.len() - i,
    {
        let ghost cur = pv.take(i as int);
        let ghost next = pv.take(i + 1);
        assert(next.drop_last() =~= cur);
        assert(next.last() == (parsed@[i as int].address@, parsed_key_view(parsed@[i as int].key)));
        let entry = &parsed[i];
        match &entry.key {
            Ok(k) => {
                push_unique(out, *k, Ghost(base + spec_loaded_keys(cur)));
                assert(base + spec_loaded_keys(next) =~= (base + spec_loaded_keys(cur)).push(k@));
            },
            Err(e) => {
                let ghost before = invalid@;
                invalid.push(InvalidAddress { address: entry.address.clone(), error: *e });
                assert(invalid_view(invalid@) =~= invalid_view(before).push((entry.address@, *e)));
            },
        }
        i = i + 1;
    }
    assert(pv.take(parsed@.len() as int) =~= pv);
}

/// Reads a fetched transaction from the indexed program's side: reports on each instruction
/// (whether it calls the program and, if so, which instruction), gathers the accounts to fetch
/// (those named by the instructions that call the program, then the keys of the loaded addresses
/// that parsed, each key once, in the order first met), and lists the loaded addresses that did
/// not parse.
pub fn plan_transaction(
    program_id: &Pubkey,
    account_keys: &Vec<Pubkey>,
    instructions: &Vec<CompiledInstruction>,
    loaded: &Vec<ParsedAddress>,
) -> (plan: TransactionPlan)
    ensures
        plan.instructions@.len() == instructions@.len(),
        forall|i: int|
            0 <= i < instructions@.len() ==> report_describes(
                #[trigger] plan.instructions@[i],
                program_id@,
                keys_view(account_keys@),
                i,
                instructions@[i]@,
            ),
        keys_view(plan.accounts_to_fetch@) == dedup(
            spec_program_accounts(
                program_id@,
                keys_view(account_keys@),
                instructions@.map_values(|c: CompiledInstruction| c@),
            ) + spec_loaded_keys(parsed_view(loaded@)),
        ),
        no_duplicates(keys_view(plan.accounts_to_fetch@)),
        forall|k: Seq<u8>|
            keys_view(plan.accounts_to_fetch@).contains(k) <==> (spec_program_accounts(
                program_id@,
                keys_view(account_keys@),
                instructions@.map_values(|c: CompiledInstruction| c@),
            ) + spec_loaded_keys(parsed_view(loaded@))).contains(k),
        invalid_view(plan.invalid_addresses@) == spec_invalid_addresses(parsed_view(loaded@)),
        forall|i: int, j: int|
            0 <= i < instructions@.len() && (instructions@[i].program_id_index as int) < account_keys@.len()
                && account_keys@[instructions@[i].program_id_index as int]@ == program_id@ && 0 <= j
                < instructions@[i].accounts@.len() && (#[trigger] instructions@[i].accounts@[j] as int)
                < account_keys@.len() ==> keys_view(plan.accounts_to_fetch@).contains(
                account_keys@[instructions@[i].accounts@[j] as int]@,
            ),
        forall|m: int|
            0 <= m < loaded@.len() && (#[trigger] loaded@[m]).key is Ok ==> keys_view(
                plan.accounts_to_fetch@,
            ).contains(loaded@[m].key->Ok_0@),
        forall|k: Seq<u8>|
            keys_view(plan.accounts_to_fetch@).contains(k) ==> (exists|i: int, j: int|
                0 <= i < instructions@.len() && (instructions@[i].program_id_index as int) < account_keys@.len()
                    && account_keys@[instructions@[i].program_id_index as int]@ == program_id@ && 0 <= j
                    < instructions@[i].accounts@.len() && (#[trigger] instructions@[i].accounts@[j] as int)
                    < account_keys@.len() && account_keys@[instructions@[i].accounts@[j] as int]@ == k) || (exists|
                m: int,
            |
                0 <= m < loaded@.len() && (#[trigger] loaded@[m]).key is Ok && loaded@[m].key->Ok_0@ == k),
{
    let ghost kv = keys_view(account_keys@);
    let ghost iv = instructions@.map_values(|c: CompiledInstruction| c@);
    let mut reports: Vec<InstructionReport> = Vec::new();
    let mut out: Vec<Pubkey> = Vec::new();
    let mut idx: usize = 0;
    assert(iv.take(0) =~= Seq::<CompiledInstructionView>::empty());
    assert(keys_view(out@) =~= dedup(spec_program_accounts(program_id@, kv, iv.take(0))));
    while idx < instructions.len()
        invariant
            idx <= instructions@.len(),
            kv == keys_view(account_keys@),
            iv == instructions@.map_values(|c: CompiledInstruction| c@),
            reports@.len() == idx,
            forall|i: int|
                0 <= i < idx ==> report_describes(#[trigger] reports@[i], program_id@, kv, i, instructions@[i]@),
            keys_view(out@) == dedup(spec_program_accounts(program_id@, kv, iv.take(idx as int))),
        decreases instructions@.len() - idx,
    {
        let ins = &instructions[idx];
        let ghost prev = spec_program_accounts(program_id@, kv, iv.take(idx as int));
        assert(iv.take(idx + 1).drop_last() =~= iv.take(idx as int));
        assert(iv.take(idx + 1).last() == ins@);
        let r = report_instruction(program_id, account_keys, idx, ins);
        let is_for_program = match r {
            InstructionReport::ForProgram { .. } => true,
            InstructionReport::OtherProgram { .. } => false,
        };
        reports.push(r);
        if is_for_program {
            collect_account_keys(account_keys, &ins.accounts, &mut out, Ghost(prev));
        }
        idx = idx + 1;
    }
    assert(iv.take(instructions@.len() as int) =~= iv);
    let mut invalid: Vec<InvalidAddress> = Vec::new();
    let ghost base = spec_program_accounts(program_id@, kv, iv);
    collect_loaded_keys(loaded, &mut out, &mut invalid, Ghost(base));
    proof {
        let lk = spec_loaded_keys(parsed_view(loaded@));
        let all = base + lk;
        lemma_dedup(all);
        lemma_program_accounts_members(program_id@, kv, iv);
        lemma_loaded_keys_members(parsed_view(loaded@));
        assert forall|i: int, j: int|
            0 <= i < instructions@.len() && (instructions@[i].program_id_index as int) < account_keys@.len()
                && account_keys@[instructions@[i].program_id_index as int]@ == program_id@ && 0 <= j
                < instructions@[i].accounts@.len() && (#[trigger] instructions@[i].accounts@[j] as int)
                < account_keys@.len() implies keys_view(out@).contains(
            account_keys@[instructions@[i].accounts@[j] as int]@,
        ) by {
            let a = instructions@[i].accounts@[j] as int;
            assert(iv[i] == instructions@[i]@);
            assert(iv[i].accounts[j] == instructions@[i].accounts@[j]);
            assert(kv[instructions@[i].program_id_index as int] == account_keys@[instructions@[i].program_id_index as int]@);
            assert(targets_program(program_id@, kv, iv[i]));
            assert(kv[a] == account_keys@[a]@);
            assert(base.contains(kv[a]));
            let p = choose|p: int| 0 <= p < base.len() && base[p] == kv[a];
            assert(all[p] == kv[a]);
            assert(all.contains(kv[a]));
        }
        assert forall|m: int| 0 <= m < loaded@.len() && (#[trigger] loaded@[m]).key is Ok implies keys_view(
            out@,
        ).contains(loaded@[m].key->Ok_0@) by {
            let k = loaded@[m].key->Ok_0@;
            assert(parsed_view(loaded@)[m] == (loaded@[m].address@, parsed_key_view(loaded@[m].key)));
            assert(lk.contains(k));
            let p = choose|p: int| 0 <= p < lk.len() && lk[p] == k;
            assert(all[base.len() + p] == k);
            assert(all.contains(k));
        }
        assert forall|k: Seq<u8>| keys_view(out@).contains(k) implies (exists|i: int, j: int|
            0 <= i < instructions@.len() && (instructions@[i].program_id_index as int) < account_keys@.len()
                && account_keys@[instructions@[i].program_id_index as int]@ == program_id@ && 0 <= j
                < instructions@[i].accounts@.len() && (#[trigger] instructions@[i].accounts@[j] as int)
                < account_keys@.len() && account_keys@[instructions@[i].accounts@[j] as int]@ == k) || (exists|
            m: int,
        |
            0 <= m < loaded@.len() && (#[trigger] loaded@[m]).key is Ok && loaded@[m].key->Ok_0@ == k) by {
            assert(all.contains(k));
            let p = choose|p: int| 0 <= p < all.len() && all[p] == k;
            if p < base.len() {
                assert(base[p] == k);
                assert(base.contains(k));
                let (i, j) = choose|i: int, j: int|
                    0 <= i < iv.len() && targets_program(program_id@, kv, iv[i]) && 0 <= j < iv[i].accounts.len() && (
                    #[trigger] iv[i].accounts[j] as int) < kv.len() && kv[iv[i].accounts[j] as int] == k;
                assert(iv[i] == instructions@[i]@);
                assert(instructions@[i].accounts@[j] == iv[i].accounts[j]);
                assert(kv[instructions@[i].program_id_index as int] == account_keys@[instructions@[i].program_id_index as int]@);
                assert(kv[iv[i].accounts[j] as int] == account_keys@[iv[i].accounts[j] as int]@);
            } else {
                assert(lk[p - base.len()] == k);
                assert(lk.contains(k));
                let m = choose|m: int|
                    0 <= m < parsed_view(loaded@).len() && (#[trigger] parsed_view(loaded@)[m]).1
                        == Ok::<Seq<u8>, PubkeyParseError>(k);
                assert(parsed_view(loaded@)[m] == (loaded@[m].address@, parsed_key_view(loaded@[m].key)));
                assert(loaded@[m].key is Ok);
            }
        }
    }
    TransactionPlan { instructions: reports, accounts_to_fetch: out, invalid_addresses: invalid }
}

// ===================== log notifications =====================

/// What the processing loop does with a log notification.
#[derive(Clone, Copy, Debug, PartialEq, Eq, Structural)]
pub enum LogDecision {
    /// The signature was seen before: skip it.
    Duplicate,
    /// The transaction failed: skip it.
    FailedTransaction,
    /// The signature is not the text of a signature: skip it.
    InvalidSignature,
    /// Fetch the transaction and look at it.
    FetchTransaction,
}

/// The processing loop's memory: how many notifications it has counted, and the signatures
/// it has met.
pub struct LogProcessor {
    transactions_total: u64,
    processed_signatures: StringHashSet,
}

pub ghost struct LogProcessorView {
    pub transactions_total: nat,
    pub processed: Set<Seq<char>>,
}

impl View for LogProcessor {
    type V = LogProcessorView;

    closed spec fn view(&self) -> LogProcessorView {
        LogProcessorView {
            transactions_total: self.transactions_total as nat,
            processed: self.processed_signatures@,
        }
    }
}

/// One log notification: its signature, whether the transaction failed, and whether the
/// signature text parses as a signature.
pub ghost struct LogEvent {
    pub signature: Seq<char>,
    pub failed: bool,
    pub signature_valid: bool,
}

/// The decision on a notification, given the signatures met before it.
pub open spec fn spec_log_decision(processed: Set<Seq<char>>, e: LogEvent) -> LogDecision {
    if processed.contains(e.signature) {
        LogDecision::Duplicate
    } else if e.failed {
        LogDecision::FailedTransaction
    } else if !e.signature_valid {
        LogDecision::InvalidSignature
    } else {
        LogDecision::FetchTransaction
    }
}

/// The memory after a notification: one more counted, its signature met.
pub open spec fn spec_log_step(v: LogProcessorView, e: LogEvent) -> LogProcessorView {
    LogProcessorView {
        transactions_total: v.transactions_total + 1,
        processed: v.processed.insert(e.signature),
    }
}

/// The memory after a run of notifications.
pub open spec fn spec_log_run(v: LogProcessorView, events: Seq<LogEvent>) -> LogProcessorView
    decreases events.len(),
{
    if events.len() == 0 {
        v
    } else {
        spec_log_step(spec_log_run(v, events.drop_last()), events.last())
    }
}

/// The decision on notification number `j` of a run.
pub open spec fn spec_log_decision_at(v: LogProcessorView, events: Seq<LogEvent>, j: int) -> LogDecision {
    spec_log_decision(spec_log_run(v, events.take(j)).processed, events[j])
}

impl LogProcessor {
    /// A processor that has counted nothing and met no signature.
    pub fn new() -> (p: LogProcessor)
        ensures
            p@.transactions_total == 0,
            p@.processed == Set::<Seq<char>>::empty(),
    {
        LogProcessor { transactions_total: 0, processed_signatures: StringHashSet::new() }
    }

    /// The number of notifications counted.
    pub fn transactions_total(&self) -> (n: u64)
        ensures
            n == self@.transactions_total,
    {
        self.transactions_total
    }

    /// Counts a notification, remembers its signature, and decides what to do with it: a
    /// signature met before is skipped, then a failed transaction, then a signature that does
    /// not parse; any other transaction is fetched.
    pub fn on_log(&mut self, signature: &str, failed: bool, signature_valid: bool) -> (d: LogDecision)
        requires
            old(self)@.transactions_total < u64::MAX,
        ensures
            final(self)@ == spec_log_step(
                old(self)@,
                LogEvent { signature: signature@, failed, signature_valid },
            ),
            d == spec_log_decision(
                old(self)@.processed,
                LogEvent { signature: signature@, failed, signature_valid },
            ),
            final(self)@.transactions_total == old(self)@.transactions_total + 1,
            final(self)@.processed == old(self)@.processed.insert(signature@),
            d == LogDecision::Duplicate <==> old(self)@.processed.contains(signature@),
            d == LogDecision::FailedTransaction <==> (!old(self)@.processed.contains(signature@) && failed),
            d == LogDecision::InvalidSignature <==> (!old(self)@.processed.contains(signature@) && !failed
                && !signature_valid),
            d == LogDecision::FetchTransaction <==> (!old(self)@.processed.contains(signature@) && !failed
                && signature_valid),
    {
        self.transactions_total = self.transactions_total + 1;
        let fresh = self.processed_signatures.insert(signature.to_owned());
        if !fresh {
            LogDecision::Duplicate
        } else if failed {
            LogDecision::FailedTransaction
        } else if !signature_valid {
            LogDecision::InvalidSignature
        } else {
            LogDecision::FetchTransaction
        }
    }
}

/// After a run, the signatures met are those met before and those of the run, and the count has
/// grown by the run's length.
pub proof fn lemma_log_run(v: LogProcessorView, events: Seq<LogEvent>)
    ensures
        spec_log_run(v, events).transactions_total == v.transactions_total + events.len(),
        forall|sig: Seq<char>|
            #[trigger] spec_log_run(v, events).processed.contains(sig) <==> (v.processed.contains(sig)
                || exists|i: int| 0 <= i < events.len() && (#[trigger] events[i]).signature == sig),
    decreases events.len(),
{
    if events.len() > 0 {
        let t = events.drop_last();
        lemma_log_run(v, t);
        let r = spec_log_run(v, t);
        assert(spec_log_run(v, events) == spec_log_step(r, events.last()));
        assert forall|sig: Seq<char>|
            spec_log_run(v, events).processed.contains(sig) <==> (v.processed.contains(sig) || exists|i: int|
                0 <= i < events.len() && (#[trigger] events[i]).signature == sig) by {
            if spec_log_run(v, events).processed.contains(sig) {
                if r.processed.contains(sig) {
                    if !v.processed.contains(sig) {
                        let i = choose|i: int| 0 <= i < t.len() && (#[trigger] t[i]).signature == sig;
                        assert(events[i].signature == sig);
                    }
                } else {
                    assert(events[events.len() - 1].signature == sig);
                }
            }
            if exists|i: int| 0 <= i < events.len() && (#[trigger] events[i]).signature == sig {
                let i = choose|i: int| 0 <= i < events.len() && (#[trigger] events[i]).signature == sig;
                if i < events.len() - 1 {
                    assert(t[i].signature == sig);
                }
            }
        }
    }
}

/// Each signature is followed up at most once: in any run, a notification whose signature came
/// earlier in the run is skipped as a duplicate.
pub proof fn lemma_signature_followed_once(v: LogProcessorView, events: Seq<LogEvent>, i: int, j: int)
    requires
        0 <= i < j < events.len(),
        events[i].signature == events[j].signature,
    ensures
        spec_log_decision_at(v, events, j) == LogDecision::Duplicate,
{
    let prefix = events.take(j);
    lemma_log_run(v, prefix);
    assert(prefix[i].signature == events[j].signature);
    assert(exists|k: int| 0 <= k < prefix.len() && (#[trigger] prefix[k]).signature == events[j].signature);
    assert(spec_log_run(v, prefix).processed.contains(events[j].signature));
}

/// A notification whose signature was already met only adds to the count: any notifications
/// after it meet the same signatures as without it, with one more counted.
proof fn lemma_seen_notification_only_counts(v: LogProcessorView, p: Seq<LogEvent>, x: LogEvent, q: Seq<LogEvent>)
    requires
        spec_log_run(v, p).processed.contains(x.signature),
    ensures
        spec_log_run(v, p.push(x) + q).processed == spec_log_run(v, p + q).processed,
        spec_log_run(v, p.push(x) + q).transactions_total == spec_log_run(v, p + q).transactions_total + 1,
    decreases q.len(),
{
    if q.len() == 0 {
        assert(p.push(x) + q =~= p.push(x));
        assert(p + q =~= p);
        assert(p.push(x).drop_last() =~= p);
        let r = spec_log_run(v, p);
        assert(r.processed.insert(x.signature) =~= r.processed);
    } else {
        let q2 = q.drop_last();
        lemma_seen_notification_only_counts(v, p, x, q2);
        assert((p.push(x) + q).drop_last() =~= p.push(x) + q2);
        assert((p + q).drop_last() =~= p + q2);
        assert((p.push(x) + q).last() == q.last());
        assert((p + q).last() == q.last());
    }
}

/// Inserting, anywhere after a notification, another notification with the same signature
/// changes only the count: the repeat is skipped as a duplicate, every other notification gets
/// the same decision as before (so the same transactions are fetched), the same signatures are
/// met, and one more notification is counted.
pub proof fn lemma_repeated_notification_changes_only_count(
    v: LogProcessorView,
    events: Seq<LogEvent>,
    i: int,
    j: int,
    x: LogEvent,
)
    requires
        0 <= i < j <= events.len(),
        x.signature == events[i].signature,
    ensures
        spec_log_run(v, events.take(j).push(x) + events.skip(j)).processed == spec_log_run(v, events).processed,
        spec_log_run(v, events.take(j).push(x) + events.skip(j)).transactions_total
            == spec_log_run(v, events).transactions_total + 1,
        spec_log_decision_at(v, events.take(j).push(x) + events.skip(j), j) == LogDecision::Duplicate,
        forall|k: int|
            0 <= k < j ==> spec_log_decision_at(v, events.take(j).push(x) + events.skip(j), k)
                == #[trigger] spec_log_decision_at(v, events, k),
        forall|k: int|
            j <= k < events.len() ==> spec_log_decision_at(v, events.take(j).push(x) + events.skip(j), k + 1)
                == #[trigger] spec_log_decision_at(v, events, k),
{
    let p = events.take(j);
    let q = events.skip(j);
    let e2 = p.push(x) + q;
    assert(events =~= p + q);
    lemma_log_run(v, p);
    assert(p[i].signature == x.signature);
    assert(exists|k: int| 0 <= k < p.len() && (#[trigger] p[k]).signature == x.signature);
    assert(spec_log_run(v, p).processed.contains(x.signature));
    lemma_seen_notification_only_counts(v, p, x, q);
    assert(e2.take(j) =~= p);
    assert(e2[j] == x);
    assert forall|k: int| 0 <= k < j implies spec_log_decision_at(v, e2, k) == #[trigger] spec_log_decision_at(
        v,
        events,
        k,
    ) by {
        assert(e2.take(k) =~= events.take(k));
        assert(e2[k] == events[k]);
    }
    assert forall|k: int| j <= k < events.len() implies spec_log_decision_at(v, e2, k + 1)
        == #[trigger] spec_log_decision_at(v, events, k) by {
        let q2 = q.take(k - j);
        assert(e2.take(k + 1) =~= p.push(x) + q2);
        assert(events.take(k) =~= p + q2);
        assert(e2[k + 1] == events[k]);
        lemma_seen_notification_only_counts(v, p, x, q2);
    }
}

} // verus!
