use kiln::kiln::KilnErrorKind;
use kiln::parse::{encode_assignment, parse_input_file, remove_comments};
use kiln::tags::{token_to_id, TagId, TagPair, TagValue};

#[test]
fn parses_one_section_with_two_assignments() {
    let out = parse_input_file("[songs/*.mp3]\nTPE1 = The Artist\nTALB = The Album\n")
        .expect("spec text should parse");
    assert_eq!(out.sections.len(), 1);
    assert_eq!(out.sections[0].header, "songs/*.mp3");
    assert_eq!(out.sections[0].entries.len(), 2);
    assert!(matches!(out.sections[0].entries[0].id, TagId::TPE1));
    assert_eq!(out.sections[0].entries[0].val, "The Artist");
    assert!(matches!(out.sections[0].entries[1].id, TagId::TALB));
    assert_eq!(out.sections[0].entries[1].val, "The Album");
    assert_eq!(out.remaining, "");
}

#[test]
fn unknown_identifier_fails_with_raw_token() {
    let err = parse_input_file("[a]\nFOO = bar\n").expect_err("FOO is no identifier");
    assert!(matches!(err.kind, KilnErrorKind::ID3));
    assert_eq!(err.message, "FOO");
}

#[test]
fn unknown_identifier_aborts_later_sections_too() {
    let err =
        parse_input_file("[a]\nTPE1 = x\n[b]\nZZZZ = y\n").expect_err("ZZZZ is no identifier");
    assert!(matches!(err.kind, KilnErrorKind::ID3));
    assert_eq!(err.message, "ZZZZ");
}

#[test]
fn leftover_input_is_returned_not_fatal() {
    let out = parse_input_file("[a]\nTPE1 = x\nnot a section\n").expect("prefix parses");
    assert_eq!(out.sections.len(), 1);
    assert_eq!(out.remaining, "not a section\n");
}

#[test]
fn empty_input_parses_to_nothing() {
    let out = parse_input_file("").expect("empty input parses");
    assert_eq!(out.sections.len(), 0);
    assert_eq!(out.remaining, "");
}

#[test]
fn assignment_spacing_is_flexible() {
    let out = parse_input_file("[a]\nTPE1=x\nTALB   =   y\n").expect("spacing variants parse");
    assert_eq!(out.sections[0].entries.len(), 2);
    assert_eq!(out.sections[0].entries[0].val, "x");
    assert_eq!(out.sections[0].entries[1].val, "y");
}

#[test]
fn apic_value_is_kept_as_path_text() {
    let out = parse_input_file("[a]\nAPIC = cover.png\n").expect("APIC line parses");
    assert!(matches!(out.sections[0].entries[0].id, TagId::APIC));
    assert_eq!(out.sections[0].entries[0].val, "cover.png");
}

#[test]
fn remove_comments_strips_comment_and_blank_lines() {
    let content = String::from("# a comment\nTPE1 = x\n\n# another\nTALB = y\n");
    assert_eq!(remove_comments(content), "TPE1 = x\nTALB = y");
}

#[test]
fn remove_comments_strips_carriage_returns_with_their_newlines() {
    let content = String::from("[a]\r\nTPE1 = x\r\n");
    assert_eq!(remove_comments(content), "[a]\nTPE1 = x");
}

#[test]
fn remove_comments_keeps_hash_inside_a_line() {
    let content = String::from("TIT2 = Track #1\n");
    assert_eq!(remove_comments(content), "TIT2 = Track #1");
}

#[test]
fn encode_assignment_renders_spec_syntax() {
    assert_eq!(encode_assignment(TagId::TPE1, "The Artist"), "TPE1 = The Artist\n");
    assert_eq!(encode_assignment(TagId::TYER, ""), "TYER = \n");
}

#[test]
fn encoded_assignment_reparses_to_equal_pair() {
    let ids = [
        TagId::TPE1,
        TagId::TPE2,
        TagId::TALB,
        TagId::TIT2,
        TagId::TRCK,
        TagId::TYER,
        TagId::TDRC,
        TagId::TCON,
        TagId::TSRC,
    ];
    for id in ids {
        let pair = TagPair::from_text(id, String::from("Some Value"));
        let text = match &pair.val {
            TagValue::Text(t) => t.clone(),
            _ => panic!("text identifiers build text values"),
        };
        let spec = format!("[h]\n{}", encode_assignment(pair.id, &text));
        let out = parse_input_file(&spec).expect("encoded assignment parses");
        assert_eq!(out.remaining, "");
        assert_eq!(out.sections.len(), 1);
        assert_eq!(out.sections[0].entries.len(), 1);
        let entry = &out.sections[0].entries[0];
        let reparsed = TagPair::from_text(entry.id, entry.val.clone());
        assert!(reparsed == pair);
    }
}

#[test]
fn token_decoding_matches_encoding() {
    let ids = [
        (TagId::TPE1, "TPE1"),
        (TagId::TPE2, "TPE2"),
        (TagId::TALB, "TALB"),
        (TagId::TIT2, "TIT2"),
        (TagId::TRCK, "TRCK"),
        (TagId::TYER, "TYER"),
        (TagId::TDRC, "TDRC"),
        (TagId::TCON, "TCON"),
        (TagId::TSRC, "TSRC"),
        (TagId::COMM, "COMM"),
        (TagId::APIC, "APIC"),
    ];
    for (id, token) in ids {
        assert_eq!(token_to_id(token), Some(id));
    }
    assert_eq!(token_to_id("TXXX"), None);
    assert_eq!(token_to_id(""), None);
    assert_eq!(token_to_id("tpe1"), None);
}
