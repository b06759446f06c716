use kiln::kiln::{KilnError, KilnErrorKind, Section};
use kiln::merge::{construct_shared_tags, get_new_tags_from_sections, tags_difference};
use kiln::tags::{
    image_value_from_bytes, CommentValue, PictureKind, TagId, TagPair, TagValue,
};

fn text_pair(id: TagId, val: &str) -> TagPair {
    TagPair::from_id(id, TagValue::Text(String::from(val)))
}

#[test]
fn comment_values_fix_language_and_description() {
    let pair = TagPair::from_text(TagId::COMM, String::from("a remark"));
    match &pair.val {
        TagValue::Comment(c) => {
            assert_eq!(c.lang, "eng");
            assert_eq!(c.description, "");
            assert_eq!(c.text, "a remark");
        },
        _ => panic!("COMM should build a comment value"),
    }
}

#[test]
fn text_identifiers_build_text_values() {
    let pair = TagPair::from_text(TagId::TYER, String::from("1999"));
    assert!(pair.val == TagValue::Text(String::from("1999")));
    assert!(matches!(pair.id, TagId::TYER));
}

#[test]
fn image_from_bytes_uses_the_fixed_policy_encoding() {
    let value = image_value_from_bytes(vec![1, 2, 3]);
    match &value {
        TagValue::Image(img) => {
            assert_eq!(img.mime_type, "image/jpeg");
            assert!(matches!(img.picture_type, PictureKind::CoverFront));
            assert_eq!(img.description, "cover");
            assert_eq!(img.data, vec![1, 2, 3]);
        },
        _ => panic!("bytes should build an image value"),
    }
}

#[test]
fn from_str_with_content_accepts_known_tokens() {
    let pair = TagPair::from_str_with_content("TALB", TagValue::Text(String::from("Album")))
        .expect("TALB is a known token");
    assert!(matches!(pair.id, TagId::TALB));
    assert!(pair.val == TagValue::Text(String::from("Album")));
}

#[test]
fn from_str_with_content_rejects_unknown_tokens() {
    let err = TagPair::from_str_with_content("WXYZ", TagValue::Text(String::new()))
        .expect_err("WXYZ is no known token");
    assert!(matches!(err.kind, KilnErrorKind::ID3));
    assert_eq!(err.message, "WXYZ");
}

#[test]
fn kiln_error_new_keeps_kind_and_message() {
    let err = KilnError::new(KilnErrorKind::Glob, String::from("bad pattern"));
    assert!(matches!(err.kind, KilnErrorKind::Glob));
    assert_eq!(err.message, "bad pattern");
}

#[test]
fn values_compare_by_content() {
    let a = TagPair::from_id(
        TagId::COMM,
        TagValue::Comment(CommentValue {
            lang: String::from("eng"),
            description: String::new(),
            text: String::from("hi"),
        }),
    );
    let b = TagPair::from_text(TagId::COMM, String::from("hi"));
    assert!(a == b);
    let c = TagPair::from_text(TagId::COMM, String::from("ho"));
    assert!(a != c);
    assert!(text_pair(TagId::TPE1, "x") != text_pair(TagId::TPE2, "x"));
}

#[test]
fn merge_gives_later_sections_the_last_word() {
    let sections = vec![
        Section {
            header: String::from("*.mp3"),
            tag_set: vec![text_pair(TagId::TPE1, "First"), text_pair(TagId::TALB, "Kept")],
        },
        Section {
            header: String::from("one.mp3"),
            tag_set: vec![text_pair(TagId::TPE1, "Second")],
        },
    ];
    let files = vec![
        vec![String::from("one.mp3"), String::from("two.mp3")],
        vec![String::from("one.mp3")],
    ];
    let states = get_new_tags_from_sections(&sections, &files);
    assert_eq!(states.len(), 2);
    assert_eq!(states[0].filepath, "one.mp3");
    assert_eq!(states[0].tags.len(), 2);
    assert!(states[0].tags[0] == text_pair(TagId::TPE1, "Second"));
    assert!(states[0].tags[1] == text_pair(TagId::TALB, "Kept"));
    assert_eq!(states[1].filepath, "two.mp3");
    assert!(states[1].tags[0] == text_pair(TagId::TPE1, "First"));
}

#[test]
fn merge_collapses_duplicate_identifiers_within_a_section() {
    let sections = vec![
        Section {
            header: String::from("*.mp3"),
            tag_set: vec![text_pair(TagId::TCON, "Rock"), text_pair(TagId::TCON, "Jazz")],
        },
    ];
    let files = vec![vec![String::from("a.mp3")]];
    let states = get_new_tags_from_sections(&sections, &files);
    assert_eq!(states[0].tags.len(), 1);
    assert!(states[0].tags[0] == text_pair(TagId::TCON, "Jazz"));
}

#[test]
fn shared_tags_is_the_intersection_in_first_set_order() {
    let sets = vec![
        vec![text_pair(TagId::TPE1, "a"), text_pair(TagId::TALB, "b"), text_pair(TagId::TCON, "c")],
        vec![text_pair(TagId::TCON, "c"), text_pair(TagId::TPE1, "a")],
        vec![text_pair(TagId::TPE1, "a"), text_pair(TagId::TCON, "c"), text_pair(TagId::TYER, "d")],
    ];
    let shared = construct_shared_tags(&sets);
    assert_eq!(shared.len(), 2);
    assert!(shared[0] == text_pair(TagId::TPE1, "a"));
    assert!(shared[1] == text_pair(TagId::TCON, "c"));
}

#[test]
fn shared_tags_of_nothing_is_empty() {
    let sets: Vec<Vec<TagPair>> = Vec::new();
    assert_eq!(construct_shared_tags(&sets).len(), 0);
}

#[test]
fn shared_tags_needs_equal_values_not_just_identifiers() {
    let sets = vec![
        vec![text_pair(TagId::TPE1, "a")],
        vec![text_pair(TagId::TPE1, "other")],
    ];
    assert_eq!(construct_shared_tags(&sets).len(), 0);
}

#[test]
fn tags_difference_drops_exact_matches_only() {
    let tags = vec![
        text_pair(TagId::TPE1, "a"),
        text_pair(TagId::TALB, "b"),
        text_pair(TagId::TCON, "c"),
    ];
    let others = vec![text_pair(TagId::TALB, "b"), text_pair(TagId::TCON, "changed")];
    let rest = tags_difference(&tags, &others);
    assert_eq!(rest.len(), 2);
    assert!(rest[0] == text_pair(TagId::TPE1, "a"));
    assert!(rest[1] == text_pair(TagId::TCON, "c"));
}
