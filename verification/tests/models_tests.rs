use agent_feed_indexer::codec::DecodeError;
use agent_feed_indexer::models::{AccountError, AgentProfile, FollowRecord, LikeRecord, Post, RepostRecord};
use agent_feed_indexer::pubkey::Pubkey;

fn key(b: u8) -> [u8; 32] {
    [b; 32]
}

fn post_body() -> Vec<u8> {
    borsh::to_vec(&(
        key(1),
        7u64,
        -5i64,
        String::from("hello, agents"),
        Some(key(2)),
        3u64,
        4u64,
        5u64,
        254u8,
    ))
    .unwrap()
}

fn with_disc(disc: [u8; 8], body: &[u8]) -> Vec<u8> {
    let mut v = disc.to_vec();
    v.extend_from_slice(body);
    v
}

#[test]
fn post_decodes_borsh_encoding() {
    let data = with_disc(Post::DISCRIMINATOR, &post_body());
    let mut buf: &[u8] = &data;
    let post = Post::try_deserialize(&mut buf).unwrap();
    assert_eq!(post.author.0, key(1));
    assert_eq!(post.author_post_index, 7);
    assert_eq!(post.timestamp, -5);
    assert_eq!(post.content, "hello, agents");
    assert_eq!(post.parent_post.map(|k| k.0), Some(key(2)));
    assert_eq!(post.likes, 3);
    assert_eq!(post.reposts, 4);
    assert_eq!(post.replies_count, 5);
    assert_eq!(post.bump, 254);
    assert!(buf.is_empty());
}

#[test]
fn post_leaves_trailing_bytes_in_cursor() {
    let mut data = with_disc(Post::DISCRIMINATOR, &post_body());
    data.extend_from_slice(&[0, 0, 9]);
    let mut buf: &[u8] = &data;
    let post = Post::try_deserialize(&mut buf).unwrap();
    assert_eq!(post.bump, 254);
    assert_eq!(buf, &[0u8, 0, 9][..]);
}

#[test]
fn post_without_parent() {
    let body = borsh::to_vec(&(key(9), 0u64, 0i64, String::new(), None::<[u8; 32]>, 0u64, 0u64, 0u64, 1u8)).unwrap();
    let data = with_disc(Post::DISCRIMINATOR, &body);
    let mut buf: &[u8] = &data;
    let post = Post::try_deserialize(&mut buf).unwrap();
    assert!(post.parent_post.is_none());
    assert_eq!(post.content, "");
}

#[test]
fn post_serialization_matches_borsh() {
    let data = with_disc(Post::DISCRIMINATOR, &post_body());
    let mut buf: &[u8] = &data;
    let post = Post::try_deserialize(&mut buf).unwrap();
    assert_eq!(post.try_to_vec().unwrap(), post_body());
}

#[test]
fn post_roundtrip_through_bytes() {
    let post = Post {
        author: Pubkey([5; 32]),
        author_post_index: u64::MAX,
        timestamp: i64::MIN,
        content: String::from("ünïcødé ✓"),
        parent_post: None,
        likes: 1,
        reposts: 2,
        replies_count: 3,
        bump: 0,
    };
    let data = with_disc(Post::DISCRIMINATOR, &post.try_to_vec().unwrap());
    let mut buf: &[u8] = &data;
    let back = Post::try_deserialize(&mut buf).unwrap();
    assert_eq!(back.author.0, [5; 32]);
    assert_eq!(back.author_post_index, u64::MAX);
    assert_eq!(back.timestamp, i64::MIN);
    assert_eq!(back.content, "ünïcødé ✓");
    assert!(back.parent_post.is_none());
}

#[test]
fn short_data_has_no_discriminator() {
    let data = [8u8, 147, 90];
    let mut buf: &[u8] = &data;
    assert_eq!(Post::try_deserialize(&mut buf).unwrap_err(), AccountError::DiscriminatorNotFound);
    assert_eq!(buf.len(), 3);
}

#[test]
fn wrong_discriminator_is_mismatch() {
    let data = with_disc(AgentProfile::DISCRIMINATOR, &post_body());
    let mut buf: &[u8] = &data;
    assert_eq!(Post::try_deserialize(&mut buf).unwrap_err(), AccountError::DiscriminatorMismatch);
    assert_eq!(buf.len(), data.len());
}

#[test]
fn truncated_body_did_not_deserialize() {
    let mut data = with_disc(Post::DISCRIMINATOR, &post_body());
    data.truncate(data.len() - 1);
    let mut buf: &[u8] = &data;
    assert_eq!(
        Post::try_deserialize(&mut buf).unwrap_err(),
        AccountError::DidNotDeserialize(DecodeError::UnexpectedEnd)
    );
    // the read ran out of input and used it up
    assert!(buf.is_empty());
}

#[test]
fn discriminator_alone_did_not_deserialize() {
    let data = LikeRecord::DISCRIMINATOR;
    let mut buf: &[u8] = &data;
    assert_eq!(
        LikeRecord::try_deserialize(&mut buf).unwrap_err(),
        AccountError::DidNotDeserialize(DecodeError::UnexpectedEnd)
    );
    assert!(buf.is_empty());
    let mut with_body = Post::DISCRIMINATOR.to_vec();
    with_body.extend_from_slice(&[7u8; 10]);
    let mut buf: &[u8] = &with_body;
    assert!(matches!(Post::try_deserialize(&mut buf), Err(AccountError::DidNotDeserialize(_))));
    assert!(buf.len() <= 10);
}

type PostTuple = ([u8; 32], u64, i64, String, Option<[u8; 32]>, u64, u64, u64, u8);

fn same_cursor_as_borsh(data: &[u8]) {
    let mut theirs: &[u8] = data;
    let mut ours: &[u8] = data;
    let r_theirs = <PostTuple as borsh::BorshDeserialize>::deserialize(&mut theirs);
    let r_ours = Post::try_deserialize_unchecked(&mut ours);
    assert_eq!(r_theirs.is_ok(), r_ours.is_ok());
    assert_eq!(theirs.len(), ours.len());
    let disc_data = with_disc(Post::DISCRIMINATOR, data);
    let mut checked: &[u8] = &disc_data;
    let r_checked = Post::try_deserialize(&mut checked);
    assert_eq!(r_checked.is_ok(), r_ours.is_ok());
    assert_eq!(checked.len(), ours.len());
}

#[test]
fn cursor_after_failure_matches_borsh() {
    let body = post_body();
    for cut in 0..=body.len() {
        same_cursor_as_borsh(&body[..cut]);
    }
    let mut bad_tag = borsh::to_vec(&([1u8; 32], 7u64, -5i64, String::from("x"))).unwrap();
    bad_tag.push(5);
    bad_tag.extend_from_slice(&[0u8; 40]);
    same_cursor_as_borsh(&bad_tag);
    let mut bad_utf8 = borsh::to_vec(&([1u8; 32], 7u64, -5i64)).unwrap();
    bad_utf8.extend_from_slice(&2u32.to_le_bytes());
    bad_utf8.extend_from_slice(&[0xff, 0xfe]);
    bad_utf8.extend_from_slice(&[0u8; 40]);
    same_cursor_as_borsh(&bad_utf8);
    let mut long_string = borsh::to_vec(&([1u8; 32], 7u64, -5i64)).unwrap();
    long_string.extend_from_slice(&100u32.to_le_bytes());
    long_string.extend_from_slice(b"short");
    same_cursor_as_borsh(&long_string);
}

#[test]
fn bad_option_tag_is_reported() {
    let mut body = borsh::to_vec(&(key(1), 7u64, -5i64, String::from("x"))).unwrap();
    body.push(2);
    body.extend_from_slice(&[0u8; 40]);
    let data = with_disc(Post::DISCRIMINATOR, &body);
    let mut buf: &[u8] = &data;
    assert_eq!(
        Post::try_deserialize(&mut buf).unwrap_err(),
        AccountError::DidNotDeserialize(DecodeError::InvalidOptionTag(2))
    );
}

#[test]
fn invalid_utf8_is_reported() {
    let mut body = borsh::to_vec(&(key(1), 7u64, -5i64)).unwrap();
    body.extend_from_slice(&2u32.to_le_bytes());
    body.extend_from_slice(&[0xff, 0xfe]);
    body.extend_from_slice(&[0u8; 40]);
    let data = with_disc(Post::DISCRIMINATOR, &body);
    let mut buf: &[u8] = &data;
    assert_eq!(
        Post::try_deserialize(&mut buf).unwrap_err(),
        AccountError::DidNotDeserialize(DecodeError::InvalidUtf8)
    );
}

#[test]
fn unchecked_ignores_discriminator() {
    let body = post_body();
    let mut buf: &[u8] = &body;
    let post = Post::try_deserialize_unchecked(&mut buf).unwrap();
    assert_eq!(post.author_post_index, 7);
    assert!(buf.is_empty());
    let short = &body[..10];
    let mut buf: &[u8] = short;
    assert_eq!(
        Post::try_deserialize_unchecked(&mut buf).unwrap_err(),
        AccountError::DidNotDeserialize(DecodeError::UnexpectedEnd)
    );
}

#[test]
fn agent_profile_decodes() {
    let body = borsh::to_vec(&(
        key(3),
        String::from("Agent Smith"),
        String::from("https://example.org/a.png"),
        String::from("bio text"),
        10u64,
        11u64,
        12u64,
        200u8,
    ))
    .unwrap();
    let data = with_disc(AgentProfile::DISCRIMINATOR, &body);
    let mut buf: &[u8] = &data;
    let p = AgentProfile::try_deserialize(&mut buf).unwrap();
    assert_eq!(p.authority.0, key(3));
    assert_eq!(p.display_name, "Agent Smith");
    assert_eq!(p.avatar_url, "https://example.org/a.png");
    assert_eq!(p.bio, "bio text");
    assert_eq!((p.follower_count, p.following_count, p.post_count, p.bump), (10, 11, 12, 200));
    assert_eq!(p.try_to_vec().unwrap(), body);
}

#[test]
fn records_decode() {
    let body = borsh::to_vec(&(key(4), key(5), 1_700_000_000i64, 9u8)).unwrap();

    let data = with_disc(LikeRecord::DISCRIMINATOR, &body);
    let mut buf: &[u8] = &data;
    let like = LikeRecord::try_deserialize(&mut buf).unwrap();
    assert_eq!((like.liker.0, like.original_post.0, like.timestamp, like.bump), (key(4), key(5), 1_700_000_000, 9));
    assert_eq!(like.try_to_vec().unwrap(), body);

    let data = with_disc(RepostRecord::DISCRIMINATOR, &body);
    let mut buf: &[u8] = &data;
    let repost = RepostRecord::try_deserialize(&mut buf).unwrap();
    assert_eq!((repost.reposter.0, repost.original_post.0), (key(4), key(5)));

    let data = with_disc(FollowRecord::DISCRIMINATOR, &body);
    let mut buf: &[u8] = &data;
    let follow = FollowRecord::try_deserialize(&mut buf).unwrap();
    assert_eq!((follow.follower.0, follow.followed.0, follow.timestamp), (key(4), key(5), 1_700_000_000));
    let mut buf: &[u8] = &data;
    assert_eq!(LikeRecord::try_deserialize(&mut buf).unwrap_err(), AccountError::DiscriminatorMismatch);
}

#[test]
fn discriminators_match_the_program() {
    assert_eq!(Post::DISCRIMINATOR, [8, 147, 90, 186, 185, 56, 192, 150]);
    assert_eq!(AgentProfile::DISCRIMINATOR, [60, 227, 42, 24, 0, 87, 86, 205]);
    assert_eq!(LikeRecord::DISCRIMINATOR, [179, 237, 53, 5, 91, 236, 161, 50]);
    assert_eq!(RepostRecord::DISCRIMINATOR, [134, 201, 23, 191, 183, 203, 59, 13]);
    assert_eq!(FollowRecord::DISCRIMINATOR, [184, 58, 38, 54, 57, 20, 186, 26]);
}
