//! The spec-language parser.
//!
//! A spec file is a sequence of sections: a `[pattern]` header line followed
//! by `IDENTIFIER = value` assignment lines. Comment lines (first character
//! `#`) and blank lines are stripped beforehand by `remove_comments`.
//! Parsing is best-effort from the front: input after the last parseable
//! section is handed back to the caller unconsumed, but an assignment line
//! whose identifier token is unknown aborts parsing with an error carrying
//! the raw token.

use vstd::prelude::*;

use crate::kiln::{KilnError, KilnErrorKind, KilnResult};
use crate::tags::{id_token, sp_id_token, sp_token_to_id, token_to_id, TagId};

verus! {

/// The character classes the grammar scans over.
#[derive(Clone, Copy, Debug, PartialEq, Eq, Structural)]
pub enum CharClass {
    /// ASCII alphanumeric: an identifier token.
    Alnum,
    /// Space or tab around the `=` of an assignment.
    Space,
    /// Space, carriage return or newline: padding after a header or an
    /// assignment.
    LineWs,
    /// Anything except a newline: an assignment value.
    NotNewline,
    /// Anything except `]`: a header pattern.
    NotRBracket,
}

pub open spec fn is_ascii_alnum(c: char) -> bool {
    (48 <= c as u32 && c as u32 <= 57) || (65 <= c as u32 && c as u32 <= 90) || (97 <= c as u32
        && c as u32 <= 122)
}

pub open spec fn class_member(k: CharClass, c: char) -> bool {
    match k {
        CharClass::Alnum => is_ascii_alnum(c),
        CharClass::Space => c == ' ' || c == '\t',
        CharClass::LineWs => c == ' ' || c == '\r' || c == '\n',
        CharClass::NotNewline => c != '\n',
        CharClass::NotRBracket => c != ']',
    }
}

/// Where a scan that starts at `i` and takes characters of class `k` stops.
pub open spec fn sp_scan(s: Seq<char>, i: int, k: CharClass) -> int
    decreases s.len() - i,
{
    if i < 0 || i >= s.len() {
        i
    } else if class_member(k, s[i]) {
        sp_scan(s, i + 1, k)
    } else {
        i
    }
}

/// A scan stays within the input, takes only members of its class, and
/// stops at the first non-member.
pub proof fn lemma_scan_bounds(s: Seq<char>, i: int, k: CharClass)
    requires
        0 <= i <= s.len(),
    ensures
        i <= sp_scan(s, i, k) <= s.len(),
        forall|m: int| i <= m < sp_scan(s, i, k) ==> class_member(k, s[m]),
        sp_scan(s, i, k) < s.len() ==> !class_member(k, s[sp_scan(s, i, k)]),
    decreases s.len() - i,
{
    if i < s.len() && class_member(k, s[i]) {
        lemma_scan_bounds(s, i + 1, k);
    }
}

/// The converse: a stretch of members followed by a non-member (or the end
/// of input) is exactly where the scan stops.
pub proof fn lemma_scan_stops_at(s: Seq<char>, i: int, j: int, k: CharClass)
    requires
        0 <= i <= j <= s.len(),
        forall|m: int| i <= m < j ==> class_member(k, s[m]),
        j == s.len() || !class_member(k, s[j]),
    ensures
        sp_scan(s, i, k) == j,
    decreases j - i,
{
    if i < j {
        lemma_scan_stops_at(s, i + 1, j, k);
    }
}

fn char_in_class(c: char, k: CharClass) -> (b: bool)
    ensures
        b == class_member(k, c),
{
    match k {
        CharClass::Alnum => {
            let u = c as u32;
            (48 <= u && u <= 57) || (65 <= u && u <= 90) || (97 <= u && u <= 122)
        },
        CharClass::Space => c == ' ' || c == '\t',
        CharClass::LineWs => c == ' ' || c == '\r' || c == '\n',
        CharClass::NotNewline => c != '\n',
        CharClass::NotRBracket => c != ']',
    }
}

/// Advance over characters of class `k`, starting at `i`.
fn scan(s: &str, i: usize, k: CharClass) -> (j: usize)
    requires
        i <= s@.len(),
    ensures
        j == sp_scan(s@, i as int, k),
        i <= j <= s@.len(),
    {
    let len = s.unicode_len();
    let mut j = i;
    while j < len && char_in_class(s.get_char(j), k)
        invariant
            i <= j <= len,
            len == s@.len(),
            sp_scan(s@, i as int, k) == sp_scan(s@, j as int, k),
        decreases len - j,
    {
        j = j + 1;
    }
    proof {
        lemma_scan_bounds(s@, i as int, k);
    }
    j
}

/// A line as the preprocessor sees it: its content up to the newline, with
/// one trailing carriage return stripped.
pub open spec fn sp_strip_cr(l: Seq<char>) -> Seq<char> {
    if l.len() > 0 && l[l.len() - 1] == '\r' {
        l.drop_last()
    } else {
        l
    }
}

/// The lines of `s` from position `i` on that survive preprocessing:
/// blank lines and lines whose first character is `#` are dropped.
pub open spec fn sp_kept_lines(s: Seq<char>, i: int) -> Seq<Seq<char>>
    decreases s.len() - i,
{
    if i < 0 || i >= s.len() {
        seq![]
    } else {
        let e = sp_scan(s, i, CharClass::NotNewline);
        if i <= e <= s.len() {
            let line = sp_strip_cr(s.subrange(i, e));
            let rest = if e < s.len() {
                sp_kept_lines(s, e + 1)
            } else {
                seq![]
            };
            if line.len() > 0 && line[0] != '#' {
                seq![line] + rest
            } else {
                rest
            }
        } else {
            seq![]
        }
    }
}

/// Kept lines joined back together with single newlines.
pub open spec fn sp_join_lines(ls: Seq<Seq<char>>) -> Seq<char>
    decreases ls.len(),
{
    if ls.len() == 0 {
        seq![]
    } else if ls.len() == 1 {
        ls[0]
    } else {
        ls[0] + seq!['\n'] + sp_join_lines(ls.drop_first())
    }
}

proof fn lemma_join_lines_push(ls: Seq<Seq<char>>, l: Seq<char>)
    ensures
        ls.len() == 0 ==> sp_join_lines(ls.push(l)) == l,
        ls.len() > 0 ==> sp_join_lines(ls.push(l)) == sp_join_lines(ls) + seq!['\n'] + l,
    decreases ls.len(),
{
    if ls.len() == 0 {
        assert(ls.push(l)[0] == l);
        assert(ls.push(l).len() == 1);
    } else {
        lemma_join_lines_push(ls.drop_first(), l);
        assert(ls.push(l).drop_first() =~= ls.drop_first().push(l));
        if ls.len() == 1 {
            assert(sp_join_lines(ls.push(l)) == ls[0] + seq!['\n'] + sp_join_lines(
                ls.drop_first().push(l),
            ));
            assert(sp_join_lines(ls) == ls[0]);
        } else {
            assert(sp_join_lines(ls) + seq!['\n'] + l =~= ls[0] + seq!['\n'] + (sp_join_lines(
                ls.drop_first(),
            ) + seq!['\n'] + l));
        }
    }
}

/// What preprocessing leaves of the raw input, as one model function.
pub open spec fn sp_remove_comments(s: Seq<char>) -> Seq<char> {
    sp_join_lines(sp_kept_lines(s, 0))
}

/// Strip comment lines (first character `#`) and blank lines, rejoining
/// what is left with single newlines; a lone trailing carriage return of a
/// line goes with its newline.
pub fn remove_comments(content: String) -> (r: String)
    ensures
        r@ == sp_remove_comments(content@),
{
    let s = content.as_str();
    let len = s.unicode_len();
    let mut out = String::new();
    let mut any = false;
    let mut i: usize = 0;
    let ghost mut done: Seq<Seq<char>> = seq![];
    proof {
        assert(sp_kept_lines(s@, 0) =~= done + sp_kept_lines(s@, 0));
    }
    while i < len
        invariant
            i <= len,
            len == s@.len(),
            s@ == content@,
            out@ == sp_join_lines(done),
            any == (done.len() > 0),
            sp_kept_lines(s@, 0) == done + sp_kept_lines(s@, i as int),
        decreases len - i,
    {
        let e = scan(s, i, CharClass::NotNewline);
        proof {
            lemma_scan_bounds(s@, i as int, CharClass::NotNewline);
        }
        let line_end = if e > i && s.get_char(e - 1) == '\r' {
            e - 1
        } else {
            e
        };
        proof {
            assert(sp_strip_cr(s@.subrange(i as int, e as int)) =~= s@.subrange(
                i as int,
                line_end as int,
            ));
        }
        let keep = line_end > i && s.get_char(i) != '#';
        if keep {
            if any {
                proof {
                    reveal_strlit("\n");
                }
                out.append("\n");
            }
            let line = s.substring_char(i, line_end);
            out.append(line);
            proof {
                lemma_join_lines_push(done, line@);
                done = done.push(line@);
            }
            any = true;
        }
        proof {
            let ghost next = if e < len {
                e + 1 as int
            } else {
                len as int
            };
            assert(sp_kept_lines(s@, next) == if (e as int) < s@.len() {
                sp_kept_lines(s@, e as int + 1)
            } else {
                Seq::<Seq<char>>::empty()
            });
            if keep {
                assert(sp_kept_lines(s@, i as int) == seq![
                    s@.subrange(i as int, line_end as int),
                ] + sp_kept_lines(s@, next));
                assert(done + sp_kept_lines(s@, next) =~= done.drop_last() + sp_kept_lines(
                    s@,
                    i as int,
                ));
                assert(sp_kept_lines(s@, 0) == done + sp_kept_lines(s@, next));
            } else {
                assert(sp_kept_lines(s@, i as int) == sp_kept_lines(s@, next));
            }
        }
        i = if e < len {
            e + 1
        } else {
            len
        };
    }
    proof {
        assert(sp_kept_lines(s@, i as int) =~= Seq::<Seq<char>>::empty());
        assert(done + sp_kept_lines(s@, i as int) =~= done);
    }
    out
}

/// An assignment line as parsed: the identifier and the raw value text.
/// For a picture identifier the value is the path it names; decoding that
/// path is the image-loading collaborator's part.
#[derive(Debug)]
pub struct RawAssignment {
    pub id: TagId,
    pub val: String,
}

pub struct RawAssignmentView {
    pub id: TagId,
    pub val: Seq<char>,
}

impl View for RawAssignment {
    type V = RawAssignmentView;

    open spec fn view(&self) -> RawAssignmentView {
        RawAssignmentView { id: self.id, val: self.val@ }
    }
}

pub open spec fn raw_entry_seq_view(es: Seq<RawAssignment>) -> Seq<RawAssignmentView> {
    es.map_values(|e: RawAssignment| e@)
}

/// A section as parsed: the header pattern and its assignment lines in
/// order of appearance.
#[derive(Debug)]
pub struct RawSection {
    pub header: String,
    pub entries: Vec<RawAssignment>,
}

pub struct RawSectionView {
    pub header: Seq<char>,
    pub entries: Seq<RawAssignmentView>,
}

impl View for RawSection {
    type V = RawSectionView;

    open spec fn view(&self) -> RawSectionView {
        RawSectionView { header: self.header@, entries: raw_entry_seq_view(self.entries@) }
    }
}

pub open spec fn raw_section_seq_view(ss: Seq<RawSection>) -> Seq<RawSectionView> {
    ss.map_values(|s: RawSection| s@)
}

/// What parsing one assignment line yields: no match (the grammar moves
/// on), an unknown identifier token (parsing aborts), or the assignment
/// with the position after it.
pub enum PairStep {
    NoMatch,
    Unknown { token: Seq<char> },
    Pair { id: TagId, val: Seq<char>, next: int },
}

/// One assignment line: an alphanumeric identifier token, optional spaces,
/// `=`, optional spaces, the value up to the newline, then any run of
/// line-ending padding.
pub open spec fn sp_tag_pair(s: Seq<char>, i: int) -> PairStep {
    let ke = sp_scan(s, i, CharClass::Alnum);
    let se = sp_scan(s, ke, CharClass::Space);
    if 0 <= se < s.len() && s[se] == '=' {
        let vs = sp_scan(s, se + 1, CharClass::Space);
        let ve = sp_scan(s, vs, CharClass::NotNewline);
        let we = sp_scan(s, ve, CharClass::LineWs);
        match sp_token_to_id(s.subrange(i, ke)) {
            Some(id) => PairStep::Pair { id, val: s.subrange(vs, ve), next: we },
            None => PairStep::Unknown { token: s.subrange(i, ke) },
        }
    } else {
        PairStep::NoMatch
    }
}

/// A matched assignment line consumes at least its `=` and stays within
/// the input.
pub proof fn lemma_tag_pair_next(s: Seq<char>, i: int)
    requires
        0 <= i <= s.len(),
    ensures
        match sp_tag_pair(s, i) {
            PairStep::Pair { next, .. } => i < next <= s.len(),
            _ => true,
        },
{
    let ke = sp_scan(s, i, CharClass::Alnum);
    lemma_scan_bounds(s, i, CharClass::Alnum);
    let se = sp_scan(s, ke, CharClass::Space);
    lemma_scan_bounds(s, ke, CharClass::Space);
    if 0 <= se < s.len() && s[se] == '=' {
        let vs = sp_scan(s, se + 1, CharClass::Space);
        lemma_scan_bounds(s, se + 1, CharClass::Space);
        let ve = sp_scan(s, vs, CharClass::NotNewline);
        lemma_scan_bounds(s, vs, CharClass::NotNewline);
        lemma_scan_bounds(s, ve, CharClass::LineWs);
    }
}

/// What a run of assignment lines yields: the assignments with the
/// position after them, or the unknown token that aborted parsing.
pub enum EntriesStep {
    Entries { entries: Seq<RawAssignmentView>, next: int },
    Unknown { token: Seq<char> },
}

pub open spec fn sp_tag_set(s: Seq<char>, i: int) -> EntriesStep
    decreases s.len() - i,
{
    if i < 0 || i > s.len() {
        EntriesStep::Entries { entries: seq![], next: i }
    } else {
        match sp_tag_pair(s, i) {
            PairStep::NoMatch => EntriesStep::Entries { entries: seq![], next: i },
            PairStep::Unknown { token } => EntriesStep::Unknown { token },
            PairStep::Pair { id, val, next } => if i < next <= s.len() {
                match sp_tag_set(s, next) {
                    EntriesStep::Entries { entries, next: after } => EntriesStep::Entries {
                        entries: seq![RawAssignmentView { id, val }] + entries,
                        next: after,
                    },
                    EntriesStep::Unknown { token } => EntriesStep::Unknown { token },
                }
            } else {
                EntriesStep::Entries { entries: seq![], next: i }
            },
        }
    }
}

pub proof fn lemma_tag_set_next(s: Seq<char>, i: int)
    requires
        0 <= i <= s.len(),
    ensures
        match sp_tag_set(s, i) {
            EntriesStep::Entries { next, .. } => i <= next <= s.len(),
            _ => true,
        },
    decreases s.len() - i,
{
    lemma_tag_pair_next(s, i);
    match sp_tag_pair(s, i) {
        PairStep::Pair { next, .. } => {
            if i < next <= s.len() {
                lemma_tag_set_next(s, next);
            }
        },
        _ => {},
    }
}

/// What parsing one section yields.
pub enum SectionStep {
    NoMatch,
    Unknown { token: Seq<char> },
    Sec { header: Seq<char>, entries: Seq<RawAssignmentView>, next: int },
}

/// One section: `[`, the header pattern up to `]`, line-ending padding,
/// then its assignment lines. A missing `[` or an unterminated header is
/// no match.
pub open spec fn sp_section(s: Seq<char>, i: int) -> SectionStep {
    if 0 <= i < s.len() && s[i] == '[' {
        let he = sp_scan(s, i + 1, CharClass::NotRBracket);
        if he < s.len() {
            let ws = sp_scan(s, he + 1, CharClass::LineWs);
            match sp_tag_set(s, ws) {
                EntriesStep::Entries { entries, next } => SectionStep::Sec {
                    header: s.subrange(i + 1, he),
                    entries,
                    next,
                },
                EntriesStep::Unknown { token } => SectionStep::Unknown { token },
            }
        } else {
            SectionStep::NoMatch
        }
    } else {
        SectionStep::NoMatch
    }
}

pub proof fn lemma_section_next(s: Seq<char>, i: int)
    requires
        0 <= i <= s.len(),
    ensures
        match sp_section(s, i) {
            SectionStep::Sec { next, .. } => i < next <= s.len(),
            _ => true,
        },
{
    if 0 <= i < s.len() && s[i] == '[' {
        let he = sp_scan(s, i + 1, CharClass::NotRBracket);
        lemma_scan_bounds(s, i + 1, CharClass::NotRBracket);
        if he < s.len() {
            let ws = sp_scan(s, he + 1, CharClass::LineWs);
            lemma_scan_bounds(s, he + 1, CharClass::LineWs);
            lemma_tag_set_next(s, ws);
        }
    }
}

/// What parsing a whole spec text yields: the sections up to the first
/// position where no further section matches, or the unknown token that
/// aborted parsing.
pub enum SectionsStep {
    Sections { sections: Seq<RawSectionView>, next: int },
    Unknown { token: Seq<char> },
}

pub open spec fn sp_sections(s: Seq<char>, i: int) -> SectionsStep
    decreases s.len() - i,
{
    if i < 0 || i > s.len() {
        SectionsStep::Sections { sections: seq![], next: i }
    } else {
        match sp_section(s, i) {
            SectionStep::NoMatch => SectionsStep::Sections { sections: seq![], next: i },
            SectionStep::Unknown { token } => SectionsStep::Unknown { token },
            SectionStep::Sec { header, entries, next } => if i < next <= s.len() {
                match sp_sections(s, next) {
                    SectionsStep::Sections { sections, next: after } => SectionsStep::Sections {
                        sections: seq![RawSectionView { header, entries }] + sections,
                        next: after,
                    },
                    SectionsStep::Unknown { token } => SectionsStep::Unknown { token },
                }
            } else {
                SectionsStep::Sections { sections: seq![], next: i }
            },
        }
    }
}

/// The whole grammar, applied from the front of the input.
pub open spec fn sp_parse(s: Seq<char>) -> SectionsStep {
    sp_sections(s, 0)
}

enum PairParse {
    NoMatch,
    Unknown(String),
    Pair(RawAssignment, usize),
}

fn parse_tag_pair(s: &str, i: usize) -> (r: PairParse)
    requires
        i <= s@.len(),
    ensures
        match sp_tag_pair(s@, i as int) {
            PairStep::NoMatch => r is NoMatch,
            PairStep::Unknown { token } => r matches PairParse::Unknown(t) && t@ == token,
            PairStep::Pair { id, val, next } => r matches PairParse::Pair(ra, n) && ra.id == id
                && ra.val@ == val && n as int == next,
        },
{
    let ke = scan(s, i, CharClass::Alnum);
    let se = scan(s, ke, CharClass::Space);
    let len = s.unicode_len();
    if se < len && s.get_char(se) == '=' {
        let vs = scan(s, se + 1, CharClass::Space);
        let ve = scan(s, vs, CharClass::NotNewline);
        let we = scan(s, ve, CharClass::LineWs);
        let token = s.substring_char(i, ke);
        match token_to_id(token) {
            Some(id) => {
                let val = s.substring_char(vs, ve).to_owned();
                PairParse::Pair(RawAssignment { id, val }, we)
            },
            None => PairParse::Unknown(token.to_owned()),
        }
    } else {
        PairParse::NoMatch
    }
}

enum SectionParse {
    NoMatch,
    Unknown(String),
    Sec(RawSection, usize),
}

fn parse_section(s: &str, i: usize) -> (r: SectionParse)
    requires
        i <= s@.len(),
    ensures
        match sp_section(s@, i as int) {
            SectionStep::NoMatch => r is NoMatch,
            SectionStep::Unknown { token } => r matches SectionParse::Unknown(t) && t@ == token,
            SectionStep::Sec { header, entries, next } => r matches SectionParse::Sec(sec, n)
                && sec.header@ == header && raw_entry_seq_view(sec.entries@) == entries && n as int
                == next && i < n <= s@.len(),
        },
{
    let len = s.unicode_len();
    if i < len && s.get_char(i) == '[' {
        let he = scan(s, i + 1, CharClass::NotRBracket);
        if he < len {
            let ws = scan(s, he + 1, CharClass::LineWs);
            let header = s.substring_char(i + 1, he).to_owned();
            let mut entries: Vec<RawAssignment> = Vec::new();
            let mut j = ws;
            proof {
                lemma_section_next(s@, i as int);
            }
            loop
                invariant
                    ws <= j <= len,
                    len == s@.len(),
                    i < ws <= len,
                    i < len,
                    s@[i as int] == '[',
                    he as int == sp_scan(s@, i as int + 1, CharClass::NotRBracket),
                    he < len,
                    ws as int == sp_scan(s@, he as int + 1, CharClass::LineWs),
                    match sp_tag_set(s@, j as int) {
                        EntriesStep::Entries { entries: es, next } => sp_tag_set(s@, ws as int)
                            == (EntriesStep::Entries {
                            entries: raw_entry_seq_view(entries@) + es,
                            next,
                        }),
                        EntriesStep::Unknown { token } => sp_tag_set(s@, ws as int)
                            == (EntriesStep::Unknown { token }),
                    },
                ensures
                    ws <= j <= len,
                    sp_tag_set(s@, ws as int) == (EntriesStep::Entries {
                        entries: raw_entry_seq_view(entries@),
                        next: j as int,
                    }),
                decreases len - j,
            {
                match parse_tag_pair(s, j) {
                    PairParse::NoMatch => {
                        proof {
                            assert(sp_tag_set(s@, j as int) == (EntriesStep::Entries {
                                entries: Seq::<RawAssignmentView>::empty(),
                                next: j as int,
                            }));
                            assert(raw_entry_seq_view(entries@) + Seq::<
                                RawAssignmentView,
                            >::empty() =~= raw_entry_seq_view(entries@));
                        }
                        break ;
                    },
                    PairParse::Unknown(t) => {
                        proof {
                            assert(sp_tag_set(s@, j as int) == (EntriesStep::Unknown {
                                token: t@,
                            }));
                            assert(sp_section(s@, i as int) == (SectionStep::Unknown {
                                token: t@,
                            }));
                        }
                        return SectionParse::Unknown(t);
                    },
                    PairParse::Pair(ra, n) => {
                        proof {
                            lemma_tag_pair_next(s@, j as int);
                            let ghost step = sp_tag_pair(s@, j as int);
                            assert(step matches PairStep::Pair { id, val, next } && id == ra.id
                                && val == ra.val@ && next == n as int);
                        }
                        let ghost old_entries = entries@;
                        entries.push(ra);
                        proof {
                            assert(raw_entry_seq_view(entries@) =~= raw_entry_seq_view(
                                old_entries,
                            ).push(ra@));
                            match sp_tag_set(s@, n as int) {
                                EntriesStep::Entries { entries: es2, next: after } => {
                                    assert(sp_tag_set(s@, j as int) == (EntriesStep::Entries {
                                        entries: seq![ra@] + es2,
                                        next: after,
                                    }));
                                    assert(raw_entry_seq_view(old_entries) + (seq![ra@] + es2)
                                        =~= raw_entry_seq_view(entries@) + es2);
                                },
                                EntriesStep::Unknown { token } => {},
                            }
                        }
                        j = n;
                    },
                }
            }
            proof {
                assert(sp_section(s@, i as int) == (SectionStep::Sec {
                    header: s@.subrange(i as int + 1, he as int),
                    entries: raw_entry_seq_view(entries@),
                    next: j as int,
                }));
            }
            SectionParse::Sec(RawSection { header, entries }, j)
        } else {
            SectionParse::NoMatch
        }
    } else {
        SectionParse::NoMatch
    }
}

/// A successful parse: the sections, and whatever trailing input no
/// further section could be read from. The caller decides what to make of
/// a non-empty remainder; the parser does not treat it as fatal.
#[derive(Debug)]
pub struct ParseOutput {
    pub sections: Vec<RawSection>,
    pub remaining: String,
}

/// Parse a whole (comment-stripped) spec text from the front.
///
/// Returns the parsed sections plus the unconsumed remainder, or the
/// unknown-identifier error carrying the offending raw token.
pub fn parse_input_file(content: &str) -> (r: KilnResult<ParseOutput>)
    ensures
        match sp_parse(content@) {
            SectionsStep::Sections { sections, next } => r matches Ok(out)
                && raw_section_seq_view(out.sections@) == sections && out.remaining@
                == content@.subrange(next, content@.len() as int),
            SectionsStep::Unknown { token } => r matches Err(e) && e.kind == KilnErrorKind::ID3
                && e.message@ == token,
        },
{
    let len = content.unicode_len();
    let mut sections: Vec<RawSection> = Vec::new();
    let mut i: usize = 0;
    loop
        invariant
            i <= len,
            len == content@.len(),
            match sp_sections(content@, i as int) {
                SectionsStep::Sections { sections: ss, next } => sp_sections(content@, 0)
                    == (SectionsStep::Sections {
                    sections: raw_section_seq_view(sections@) + ss,
                    next,
                }),
                SectionsStep::Unknown { token } => sp_sections(content@, 0)
                    == (SectionsStep::Unknown { token }),
            },
        ensures
            i <= len,
            sp_sections(content@, 0) == (SectionsStep::Sections {
                sections: raw_section_seq_view(sections@),
                next: i as int,
            }),
        decreases len - i,
    {
        match parse_section(content, i) {
            SectionParse::NoMatch => {
                proof {
                    assert(sp_sections(content@, i as int) == (SectionsStep::Sections {
                        sections: Seq::<RawSectionView>::empty(),
                        next: i as int,
                    }));
                    assert(raw_section_seq_view(sections@) + Seq::<RawSectionView>::empty()
                        =~= raw_section_seq_view(sections@));
                }
                break ;
            },
            SectionParse::Unknown(t) => {
                proof {
                    assert(sp_sections(content@, i as int) == (SectionsStep::Unknown {
                        token: t@,
                    }));
                }
                return Err(KilnError::new(KilnErrorKind::ID3, t));
            },
            SectionParse::Sec(sec, n) => {
                let ghost old_sections = sections@;
                sections.push(sec);
                proof {
                    assert(raw_section_seq_view(sections@) =~= raw_section_seq_view(
                        old_sections,
                    ).push(sec@));
                    match sp_sections(content@, n as int) {
                        SectionsStep::Sections { sections: ss2, next: after } => {
                            assert(sp_sections(content@, i as int) == (SectionsStep::Sections {
                                sections: seq![sec@] + ss2,
                                next: after,
                            }));
                            assert(raw_section_seq_view(old_sections) + (seq![sec@] + ss2)
                                =~= raw_section_seq_view(sections@) + ss2);
                        },
                        SectionsStep::Unknown { token } => {},
                    }
                }
                i = n;
            },
        }
    }
    let remaining = content.substring_char(i, len).to_owned();
    Ok(ParseOutput { sections, remaining })
}


/// The spec-syntax rendering of one assignment: the identifier token, an
/// equals sign set off by single spaces, the value, a newline.
pub open spec fn sp_encode_assignment(id: TagId, val: Seq<char>) -> Seq<char> {
    sp_id_token(id) + seq![' ', '=', ' '] + val + seq!['\n']
}

/// Render one assignment in spec syntax.
pub fn encode_assignment(id: TagId, val: &str) -> (r: String)
    ensures
        r@ == sp_encode_assignment(id, val@),
{
    let tok = id_token(id);
    let mut out = tok.to_owned();
    proof {
        reveal_strlit(" = ");
        assert(" = "@ =~= seq![' ', '=', ' ']);
        reveal_strlit("\n");
        assert("\n"@ =~= seq!['\n']);
    }
    out.append(" = ");
    out.append(val);
    out.append("\n");
    proof {
        assert(out@ =~= sp_encode_assignment(id, val@));
    }
    out
}

/// Every canonical identifier token is four ASCII alphanumerics.
proof fn lemma_token_alnum(id: TagId)
    ensures
        sp_id_token(id).len() == 4,
        forall|k: int| 0 <= k < 4 ==> is_ascii_alnum(sp_id_token(id)[k]),
{
    match id {
        TagId::TPE1 => {
            assert(is_ascii_alnum('T'));
            assert(is_ascii_alnum('P'));
            assert(is_ascii_alnum('E'));
            assert(is_ascii_alnum('1'));
            assert(forall|k: int| 0 <= k < 4 ==> is_ascii_alnum(sp_id_token(TagId::TPE1)[k]));
        },
        TagId::TPE2 => {
            assert(is_ascii_alnum('T'));
            assert(is_ascii_alnum('P'));
            assert(is_ascii_alnum('E'));
            assert(is_ascii_alnum('2'));
            assert(forall|k: int| 0 <= k < 4 ==> is_ascii_alnum(sp_id_token(TagId::TPE2)[k]));
        },
        TagId::TALB => {
            assert(is_ascii_alnum('T'));
            assert(is_ascii_alnum('A'));
            assert(is_ascii_alnum('L'));
            assert(is_ascii_alnum('B'));
            assert(forall|k: int| 0 <= k < 4 ==> is_ascii_alnum(sp_id_token(TagId::TALB)[k]));
        },
        TagId::TIT2 => {
            assert(is_ascii_alnum('T'));
            assert(is_ascii_alnum('I'));
            assert(is_ascii_alnum('T'));
            assert(is_ascii_alnum('2'));
            assert(forall|k: int| 0 <= k < 4 ==> is_ascii_alnum(sp_id_token(TagId::TIT2)[k]));
        },
        TagId::TRCK => {
            assert(is_ascii_alnum('T'));
            assert(is_ascii_alnum('R'));
            assert(is_ascii_alnum('C'));
            assert(is_ascii_alnum('K'));
            assert(forall|k: int| 0 <= k < 4 ==> is_ascii_alnum(sp_id_token(TagId::TRCK)[k]));
        },
        TagId::TYER => {
            assert(is_ascii_alnum('T'));
            assert(is_ascii_alnum('Y'));
            assert(is_ascii_alnum('E'));
            assert(is_ascii_alnum('R'));
            assert(forall|k: int| 0 <= k < 4 ==> is_ascii_alnum(sp_id_token(TagId::TYER)[k]));
        },
        TagId::TDRC => {
            assert(is_ascii_alnum('T'));
            assert(is_ascii_alnum('D'));
            assert(is_ascii_alnum('R'));
            assert(is_ascii_alnum('C'));
            assert(forall|k: int| 0 <= k < 4 ==> is_ascii_alnum(sp_id_token(TagId::TDRC)[k]));
        },
        TagId::TCON => {
            assert(is_ascii_alnum('T'));
            assert(is_ascii_alnum('C'));
            assert(is_ascii_alnum('O'));
            assert(is_ascii_alnum('N'));
            assert(forall|k: int| 0 <= k < 4 ==> is_ascii_alnum(sp_id_token(TagId::TCON)[k]));
        },
        TagId::TSRC => {
            assert(is_ascii_alnum('T'));
            assert(is_ascii_alnum('S'));
            assert(is_ascii_alnum('R'));
            assert(is_ascii_alnum('C'));
            assert(forall|k: int| 0 <= k < 4 ==> is_ascii_alnum(sp_id_token(TagId::TSRC)[k]));
        },
        TagId::COMM => {
            assert(is_ascii_alnum('C'));
            assert(is_ascii_alnum('O'));
            assert(is_ascii_alnum('M'));
            assert(is_ascii_alnum('M'));
            assert(forall|k: int| 0 <= k < 4 ==> is_ascii_alnum(sp_id_token(TagId::COMM)[k]));
        },
        TagId::APIC => {
            assert(is_ascii_alnum('A'));
            assert(is_ascii_alnum('P'));
            assert(is_ascii_alnum('I'));
            assert(is_ascii_alnum('C'));
            assert(forall|k: int| 0 <= k < 4 ==> is_ascii_alnum(sp_id_token(TagId::APIC)[k]));
        },
    }
}

/// Re-parsing an encoded assignment that ends the input at position `i`
/// gives back exactly the identifier and value it was made from, consuming
/// everything, provided the value has no newline and does not begin with
/// the padding the grammar eats around `=`.
proof fn lemma_parse_assignment_at(s: Seq<char>, i: int, id: TagId, val: Seq<char>)
    requires
        0 <= i <= s.len(),
        s.len() == i + 8 + val.len(),
        forall|k: int| 0 <= k < val.len() + 8 ==> s[i + k] == sp_encode_assignment(id, val)[k],
        forall|k: int| 0 <= k < val.len() ==> val[k] != '\n',
        val.len() > 0 ==> val[0] != ' ' && val[0] != '\t',
    ensures
        sp_tag_pair(s, i) == (PairStep::Pair { id, val, next: s.len() as int }),
{
    let e = sp_encode_assignment(id, val);
    let tok = sp_id_token(id);
    lemma_token_alnum(id);
    assert(e.len() == val.len() + 8);
    assert(forall|k: int| 0 <= k < 4 ==> e[k] == tok[k]);
    assert(e[4] == ' ' && e[5] == '=' && e[6] == ' ');
    assert(forall|m: int| 0 <= m < val.len() ==> e[7 + m] == val[m]);
    assert(e[7 + val.len() as int] == '\n');
    // the identifier token
    assert(forall|m: int| i <= m < i + 4 ==> is_ascii_alnum(s[m]));
    assert(s[i + 4] == ' ');
    assert(!is_ascii_alnum(' '));
    lemma_scan_stops_at(s, i, i + 4, CharClass::Alnum);
    // the single space before '='
    assert(s[i + 5] == '=');
    lemma_scan_stops_at(s, i + 4, i + 5, CharClass::Space);
    // the single space after '='
    assert(s[i + 6] == ' ');
    if val.len() > 0 {
        assert(s[i + 7] == val[0]);
    } else {
        assert(s[i + 7] == '\n');
    }
    lemma_scan_stops_at(s, i + 6, i + 7, CharClass::Space);
    // the value runs to its newline
    assert(forall|m: int| i + 7 <= m < i + 7 + val.len() as int ==> s[m] == val[m - (i + 7)]);
    assert(s[i + 7 + val.len() as int] == '\n');
    lemma_scan_stops_at(s, i + 7, i + 7 + val.len() as int, CharClass::NotNewline);
    // the newline is the only trailing padding
    lemma_scan_stops_at(s, i + 7 + val.len() as int, s.len() as int, CharClass::LineWs);
    // the token decodes to the identifier it renders
    assert(s.subrange(i, i + 4) =~= tok);
    crate::tags::lemma_id_token_bijective(id);
    // and the value comes back verbatim
    assert(s.subrange(i + 7, i + 7 + val.len() as int) =~= val);
}

/// Round trip: a section holding one encoded assignment parses back to
/// exactly that header and that assignment, consuming the whole text. The
/// header may not contain `]`; the value may not contain a newline nor
/// start with a space or tab, since the grammar eats that padding.
#[verifier::rlimit(100)]
pub proof fn lemma_encode_parse_round_trip(header: Seq<char>, id: TagId, val: Seq<char>)
    requires
        forall|k: int| 0 <= k < header.len() ==> header[k] != ']',
        forall|k: int| 0 <= k < val.len() ==> val[k] != '\n',
        val.len() > 0 ==> val[0] != ' ' && val[0] != '\t',
    ensures
        ({
            let text = seq!['['] + header + seq![']', '\n'] + sp_encode_assignment(id, val);
            sp_parse(text) == (SectionsStep::Sections {
                sections: seq![
                    RawSectionView {
                        header,
                        entries: seq![RawAssignmentView { id, val }],
                    },
                ],
                next: text.len() as int,
            })
        }),
{
    let e = sp_encode_assignment(id, val);
    let text = seq!['['] + header + seq![']', '\n'] + e;
    let hlen = header.len() as int;
    lemma_token_alnum(id);
    assert(e.len() == val.len() + 8);
    assert(text.len() == hlen + 3 + e.len());
    assert(text[0] == '[');
    assert(forall|k: int| 0 <= k < hlen ==> text[1 + k] == header[k]);
    assert(text[hlen + 1] == ']');
    assert(text[hlen + 2] == '\n');
    assert(forall|k: int| 0 <= k < e.len() ==> text[hlen + 3 + k] == e[k]);
    // the header runs to its bracket
    assert(forall|m: int| 1 <= m < hlen + 1 ==> class_member(CharClass::NotRBracket, text[m]));
    lemma_scan_stops_at(text, 1, hlen + 1, CharClass::NotRBracket);
    // one newline of padding after the bracket: the token's first
    // character is alphanumeric, so the padding scan stops there
    assert(text[hlen + 3] == sp_id_token(id)[0]);
    assert(is_ascii_alnum(text[hlen + 3]));
    assert(!class_member(CharClass::LineWs, text[hlen + 3]));
    lemma_scan_stops_at(text, hlen + 2, hlen + 3, CharClass::LineWs);
    // the assignment consumes the rest
    lemma_parse_assignment_at(text, hlen + 3, id, val);
    assert(sp_tag_pair(text, hlen + 3) == (PairStep::Pair {
        id,
        val,
        next: text.len() as int,
    }));
    // after it, no further assignment and no further section matches
    let fin = text.len() as int;
    assert(sp_scan(text, fin, CharClass::Alnum) == fin);
    assert(sp_scan(text, fin, CharClass::Space) == fin);
    assert(sp_tag_pair(text, fin) is NoMatch);
    assert(sp_tag_set(text, fin) == (EntriesStep::Entries {
        entries: Seq::<RawAssignmentView>::empty(),
        next: fin,
    }));
    assert(sp_tag_set(text, hlen + 3) == (EntriesStep::Entries {
        entries: seq![RawAssignmentView { id, val }] + Seq::<RawAssignmentView>::empty(),
        next: fin,
    }));
    assert(seq![RawAssignmentView { id, val }] + Seq::<RawAssignmentView>::empty()
        =~= seq![RawAssignmentView { id, val }]);
    assert(text.subrange(1, hlen + 1) =~= header);
    assert(sp_section(text, 0) == (SectionStep::Sec {
        header,
        entries: seq![RawAssignmentView { id, val }],
        next: fin,
    }));
    assert(sp_section(text, fin) is NoMatch);
    assert(sp_sections(text, fin) == (SectionsStep::Sections {
        sections: Seq::<RawSectionView>::empty(),
        next: fin,
    }));
    assert(sp_sections(text, 0) == (SectionsStep::Sections {
        sections: seq![
            RawSectionView { header, entries: seq![RawAssignmentView { id, val }] },
        ] + Seq::<RawSectionView>::empty(),
        next: fin,
    }));
    assert(seq![RawSectionView { header, entries: seq![RawAssignmentView { id, val }] }]
        + Seq::<RawSectionView>::empty() =~= seq![
        RawSectionView { header, entries: seq![RawAssignmentView { id, val }] },
    ]);
}

} // verus!
