//! The canonical tag model: identifiers, values and assignments.

use vstd::prelude::*;

use crate::kiln::{KilnError, KilnErrorKind, KilnResult};

verus! {

/// The closed set of tag identifiers the tool understands, named by their
/// canonical id3 frame tokens.
#[derive(Clone, Copy, Debug, PartialEq, Eq, Structural)]
pub enum TagId {
    TPE1,
    TPE2,
    TALB,
    TIT2,
    TRCK,
    TYER,
    TDRC,
    TCON,
    TSRC,
    COMM,
    APIC,
}

/// The role of an attached picture. Anything other than a front cover is
/// carried through opaquely by its raw code.
#[derive(Clone, Copy, Debug, PartialEq, Eq, Structural)]
pub enum PictureKind {
    CoverFront,
    Other(u8),
}

/// A comment value: language code, description and the comment text.
#[derive(Debug)]
pub struct CommentValue {
    pub lang: String,
    pub description: String,
    pub text: String,
}

/// An attached picture: mime type, kind, description and the encoded bytes.
#[derive(Debug)]
pub struct ImageValue {
    pub mime_type: String,
    pub picture_type: PictureKind,
    pub description: String,
    pub data: Vec<u8>,
}

/// A tag value: plain text, a comment, or a picture.
#[derive(Debug)]
pub enum TagValue {
    Text(String),
    Comment(CommentValue),
    Image(ImageValue),
}

/// One tag assignment: an identifier together with its value.
#[derive(Debug)]
pub struct TagPair {
    pub id: TagId,
    pub val: TagValue,
}

/// The assignments of one file or one section.
pub type TagSet = Vec<TagPair>;

// Mathematical models of the value types: every contract in the crate speaks
// of these.

pub struct CommentValueView {
    pub lang: Seq<char>,
    pub description: Seq<char>,
    pub text: Seq<char>,
}

pub struct ImageValueView {
    pub mime_type: Seq<char>,
    pub picture_type: PictureKind,
    pub description: Seq<char>,
    pub data: Seq<u8>,
}

pub enum TagValueView {
    Text(Seq<char>),
    Comment(CommentValueView),
    Image(ImageValueView),
}

pub struct TagPairView {
    pub id: TagId,
    pub val: TagValueView,
}

impl View for CommentValue {
    type V = CommentValueView;

    open spec fn view(&self) -> CommentValueView {
        CommentValueView {
            lang: self.lang@,
            description: self.description@,
            text: self.text@,
        }
    }
}

impl View for ImageValue {
    type V = ImageValueView;

    open spec fn view(&self) -> ImageValueView {
        ImageValueView {
            mime_type: self.mime_type@,
            picture_type: self.picture_type,
            description: self.description@,
            data: self.data@,
        }
    }
}

impl View for TagValue {
    type V = TagValueView;

    open spec fn view(&self) -> TagValueView {
        match self {
            TagValue::Text(s) => TagValueView::Text(s@),
            TagValue::Comment(c) => TagValueView::Comment(c@),
            TagValue::Image(i) => TagValueView::Image(i@),
        }
    }
}

impl View for TagPair {
    type V = TagPairView;

    open spec fn view(&self) -> TagPairView {
        TagPairView { id: self.id, val: self.val@ }
    }
}

/// The models of a whole vector of assignments.
pub open spec fn tag_seq_view(tags: Seq<TagPair>) -> Seq<TagPairView> {
    tags.map_values(|t: TagPair| t@)
}

impl Clone for CommentValue {
    fn clone(&self) -> (r: Self)
        ensures
            r@ == self@,
    {
        CommentValue {
            lang: self.lang.clone(),
            description: self.description.clone(),
            text: self.text.clone(),
        }
    }
}

impl Clone for ImageValue {
    fn clone(&self) -> (r: Self)
        ensures
            r@ == self@,
    {
        let data = self.data.clone();
        assert(data@ =~= self.data@);
        ImageValue {
            mime_type: self.mime_type.clone(),
            picture_type: self.picture_type,
            description: self.description.clone(),
            data,
        }
    }
}

impl Clone for TagValue {
    fn clone(&self) -> (r: Self)
        ensures
            r@ == self@,
    {
        match self {
            TagValue::Text(s) => TagValue::Text(s.clone()),
            TagValue::Comment(c) => TagValue::Comment(c.clone()),
            TagValue::Image(i) => TagValue::Image(i.clone()),
        }
    }
}

impl Clone for TagPair {
    fn clone(&self) -> (r: Self)
        ensures
            r@ == self@,
    {
        TagPair { id: self.id, val: self.val.clone() }
    }
}

impl PartialEq for CommentValue {
    fn eq(&self, other: &Self) -> bool {
        self.lang == other.lang && self.description == other.description && self.text
            == other.text
    }
}

impl vstd::std_specs::cmp::PartialEqSpecImpl for CommentValue {
    open spec fn obeys_eq_spec() -> bool {
        true
    }

    open spec fn eq_spec(&self, other: &Self) -> bool {
        self@ == other@
    }
}

impl PartialEq for ImageValue {
    fn eq(&self, other: &Self) -> (r: bool)
        ensures
            r == (self@ == other@),
    {
        let r = self.mime_type == other.mime_type && self.picture_type == other.picture_type
            && self.description == other.description && self.data == other.data;
        proof {
            if r {
                assert(self.data@ =~= other.data@);
            } else if self@ == other@ {
                assert(self.data@ =~= other.data@);
                assert(false);
            }
        }
        r
    }
}

impl vstd::std_specs::cmp::PartialEqSpecImpl for ImageValue {
    open spec fn obeys_eq_spec() -> bool {
        true
    }

    open spec fn eq_spec(&self, other: &Self) -> bool {
        self@ == other@
    }
}

impl PartialEq for TagValue {
    fn eq(&self, other: &Self) -> (r: bool)
        ensures
            r == (self@ == other@),
    {
        match (self, other) {
            (TagValue::Text(a), TagValue::Text(b)) => {
                let r = *a == *b;
                assert(r == (self@ == other@));
                r
            },
            (TagValue::Comment(a), TagValue::Comment(b)) => {
                let r = *a == *b;
                assert(r == (self@ == other@));
                r
            },
            (TagValue::Image(a), TagValue::Image(b)) => {
                let r = *a == *b;
                assert(r == (self@ == other@));
                r
            },
            _ => {
                assert(self@ != other@);
                false
            },
        }
    }
}

impl vstd::std_specs::cmp::PartialEqSpecImpl for TagValue {
    open spec fn obeys_eq_spec() -> bool {
        true
    }

    open spec fn eq_spec(&self, other: &Self) -> bool {
        self@ == other@
    }
}

/// The canonical token of each identifier, as it stands in a spec file.
pub open spec fn sp_id_token(id: TagId) -> Seq<char> {
    match id {
        TagId::TPE1 => seq!['T', 'P', 'E', '1'],
        TagId::TPE2 => seq!['T', 'P', 'E', '2'],
        TagId::TALB => seq!['T', 'A', 'L', 'B'],
        TagId::TIT2 => seq!['T', 'I', 'T', '2'],
        TagId::TRCK => seq!['T', 'R', 'C', 'K'],
        TagId::TYER => seq!['T', 'Y', 'E', 'R'],
        TagId::TDRC => seq!['T', 'D', 'R', 'C'],
        TagId::TCON => seq!['T', 'C', 'O', 'N'],
        TagId::TSRC => seq!['T', 'S', 'R', 'C'],
        TagId::COMM => seq!['C', 'O', 'M', 'M'],
        TagId::APIC => seq!['A', 'P', 'I', 'C'],
    }
}

/// Decoding a raw token: the inverse of `sp_id_token`, `None` on anything
/// unrecognized.
pub open spec fn sp_token_to_id(t: Seq<char>) -> Option<TagId> {
    if t == sp_id_token(TagId::TPE1) {
        Some(TagId::TPE1)
    } else if t == sp_id_token(TagId::TPE2) {
        Some(TagId::TPE2)
    } else if t == sp_id_token(TagId::TALB) {
        Some(TagId::TALB)
    } else if t == sp_id_token(TagId::TIT2) {
        Some(TagId::TIT2)
    } else if t == sp_id_token(TagId::TRCK) {
        Some(TagId::TRCK)
    } else if t == sp_id_token(TagId::TYER) {
        Some(TagId::TYER)
    } else if t == sp_id_token(TagId::TDRC) {
        Some(TagId::TDRC)
    } else if t == sp_id_token(TagId::TCON) {
        Some(TagId::TCON)
    } else if t == sp_id_token(TagId::TSRC) {
        Some(TagId::TSRC)
    } else if t == sp_id_token(TagId::COMM) {
        Some(TagId::COMM)
    } else if t == sp_id_token(TagId::APIC) {
        Some(TagId::APIC)
    } else {
        None
    }
}

/// The identifier-to-token mapping is collision free: decoding a canonical
/// token gives back exactly the identifier it was made from.
pub proof fn lemma_id_token_bijective(id: TagId)
    ensures
        sp_token_to_id(sp_id_token(id)) == Some(id),
{
}

/// The identifiers whose spec-file value is plain text (neither a comment
/// nor a picture).
pub open spec fn is_text_id(id: TagId) -> bool {
    id != TagId::COMM && id != TagId::APIC
}

/// Decode a raw identifier token from spec text.
pub fn token_to_id(tok: &str) -> (r: Option<TagId>)
    ensures
        r == sp_token_to_id(tok@),
{
    let len = tok.unicode_len();
    if len != 4 {
        return None;
    }
    let c0 = tok.get_char(0);
    let c1 = tok.get_char(1);
    let c2 = tok.get_char(2);
    let c3 = tok.get_char(3);
    proof {
        assert(tok@ =~= seq![c0, c1, c2, c3]);
    }
    if c0 == 'T' && c1 == 'P' && c2 == 'E' && c3 == '1' {
        Some(TagId::TPE1)
    } else if c0 == 'T' && c1 == 'P' && c2 == 'E' && c3 == '2' {
        Some(TagId::TPE2)
    } else if c0 == 'T' && c1 == 'A' && c2 == 'L' && c3 == 'B' {
        Some(TagId::TALB)
    } else if c0 == 'T' && c1 == 'I' && c2 == 'T' && c3 == '2' {
        Some(TagId::TIT2)
    } else if c0 == 'T' && c1 == 'R' && c2 == 'C' && c3 == 'K' {
        Some(TagId::TRCK)
    } else if c0 == 'T' && c1 == 'Y' && c2 == 'E' && c3 == 'R' {
        Some(TagId::TYER)
    } else if c0 == 'T' && c1 == 'D' && c2 == 'R' && c3 == 'C' {
        Some(TagId::TDRC)
    } else if c0 == 'T' && c1 == 'C' && c2 == 'O' && c3 == 'N' {
        Some(TagId::TCON)
    } else if c0 == 'T' && c1 == 'S' && c2 == 'R' && c3 == 'C' {
        Some(TagId::TSRC)
    } else if c0 == 'C' && c1 == 'O' && c2 == 'M' && c3 == 'M' {
        Some(TagId::COMM)
    } else if c0 == 'A' && c1 == 'P' && c2 == 'I' && c3 == 'C' {
        Some(TagId::APIC)
    } else {
        None
    }
}

/// The canonical token of an identifier, for rendering and for encoding
/// assignments back to spec syntax.
pub fn id_token(id: TagId) -> (r: &'static str)
    ensures
        r@ == sp_id_token(id),
{
    match id {
        TagId::TPE1 => {
            proof {
                reveal_strlit("TPE1");
            }
            let r = "TPE1";
            assert(r@ =~= sp_id_token(TagId::TPE1));
            r
        },
        TagId::TPE2 => {
            proof {
                reveal_strlit("TPE2");
            }
            let r = "TPE2";
            assert(r@ =~= sp_id_token(TagId::TPE2));
            r
        },
        TagId::TALB => {
            proof {
                reveal_strlit("TALB");
            }
            let r = "TALB";
            assert(r@ =~= sp_id_token(TagId::TALB));
            r
        },
        TagId::TIT2 => {
            proof {
                reveal_strlit("TIT2");
            }
            let r = "TIT2";
            assert(r@ =~= sp_id_token(TagId::TIT2));
            r
        },
        TagId::TRCK => {
            proof {
                reveal_strlit("TRCK");
            }
            let r = "TRCK";
            assert(r@ =~= sp_id_token(TagId::TRCK));
            r
        },
        TagId::TYER => {
            proof {
                reveal_strlit("TYER");
            }
            let r = "TYER";
            assert(r@ =~= sp_id_token(TagId::TYER));
            r
        },
        TagId::TDRC => {
            proof {
                reveal_strlit("TDRC");
            }
            let r = "TDRC";
            assert(r@ =~= sp_id_token(TagId::TDRC));
            r
        },
        TagId::TCON => {
            proof {
                reveal_strlit("TCON");
            }
            let r = "TCON";
            assert(r@ =~= sp_id_token(TagId::TCON));
            r
        },
        TagId::TSRC => {
            proof {
                reveal_strlit("TSRC");
            }
            let r = "TSRC";
            assert(r@ =~= sp_id_token(TagId::TSRC));
            r
        },
        TagId::COMM => {
            proof {
                reveal_strlit("COMM");
            }
            let r = "COMM";
            assert(r@ =~= sp_id_token(TagId::COMM));
            r
        },
        TagId::APIC => {
            proof {
                reveal_strlit("APIC");
            }
            let r = "APIC";
            assert(r@ =~= sp_id_token(TagId::APIC));
            r
        },
    }
}

/// The value a text-bearing identifier takes when read from spec text:
/// comments get the fixed "eng" language code and an empty description,
/// everything else is the text itself. Pictures never take this path.
pub open spec fn sp_pair_from_text(id: TagId, val: Seq<char>) -> TagPairView {
    if id == TagId::COMM {
        TagPairView {
            id,
            val: TagValueView::Comment(
                CommentValueView { lang: "eng"@, description: Seq::empty(), text: val },
            ),
        }
    } else {
        TagPairView { id, val: TagValueView::Text(val) }
    }
}

/// The shape every picture value takes when built from already-encoded
/// JPEG bytes (the policy encoding: front cover, fixed mime and caption).
pub open spec fn sp_image_from_bytes(data: Seq<u8>) -> TagValueView {
    TagValueView::Image(
        ImageValueView {
            mime_type: "image/jpeg"@,
            picture_type: PictureKind::CoverFront,
            description: "cover"@,
            data,
        },
    )
}

/// Infallible picture constructor from already-encoded bytes; the fallible
/// path (decoding a file from disk and re-encoding it) lives with the
/// image-loading collaborator, which hands the bytes in here.
pub fn image_value_from_bytes(data: Vec<u8>) -> (r: TagValue)
    ensures
        r@ == sp_image_from_bytes(data@),
{
    TagValue::Image(
        ImageValue {
            mime_type: "image/jpeg".to_owned(),
            picture_type: PictureKind::CoverFront,
            description: "cover".to_owned(),
            data,
        },
    )
}

impl TagPair {
    /// Build the assignment a spec-file line denotes, for any identifier
    /// whose value is carried as text.
    pub fn from_text(id: TagId, val: String) -> (r: TagPair)
        requires
            id != TagId::APIC,
        ensures
            r@ == sp_pair_from_text(id, val@),
    {
        if let TagId::COMM = id {
            TagPair {
                id,
                val: TagValue::Comment(
                    CommentValue { lang: "eng".to_owned(), description: String::new(), text: val },
                ),
            }
        } else {
            TagPair { id, val: TagValue::Text(val) }
        }
    }

    /// Pair a raw identifier token with an already-built value, as when
    /// reading a file's current tags from the store; an unrecognized token
    /// is an error carrying that token.
    pub fn from_str_with_content(id: &str, val: TagValue) -> (r: KilnResult<TagPair>)
        ensures
            match r {
                Ok(p) => sp_token_to_id(id@) == Some(p.id) && p.val@ == val@,
                Err(e) => sp_token_to_id(id@) is None && e.kind == KilnErrorKind::ID3
                    && e.message@ == id@,
            },
    {
        match token_to_id(id) {
            Some(tag_id) => Ok(TagPair { id: tag_id, val }),
            None => Err(KilnError::new(KilnErrorKind::ID3, id.to_owned())),
        }
    }

    /// Pair a known identifier with a value.
    pub fn from_id(id: TagId, val: TagValue) -> (r: TagPair)
        ensures
            r.id == id,
            r.val@ == val@,
    {
        TagPair { id, val }
    }
}

impl PartialEq for TagPair {
    fn eq(&self, other: &Self) -> bool {
        self.id == other.id && self.val == other.val
    }
}

impl vstd::std_specs::cmp::PartialEqSpecImpl for TagPair {
    open spec fn obeys_eq_spec() -> bool {
        true
    }

    open spec fn eq_spec(&self, other: &Self) -> bool {
        self@ == other@
    }
}

} // verus!
