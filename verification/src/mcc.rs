//! The MCC document model and its parser: a six-field header in fixed line
//! order (with blank and comment lines tolerated before the UUID field),
//! followed by caption lines, each a timecode literal, one tab, and a
//! payload decoded by the payload micro-language.

use crate::payload::{decode_payload_range, spec_decode_payload};
use crate::scan::{
    digit_run_end, find_line_content_end, has_tag, is_line_break, lemma_digit_run_end,
    lemma_line_content_end, lemma_line_content_end_at, line_content_end, line_ending_after,
    match_tag, parse_number,
    spec_parse_number, take_line_ending,
};
use crate::tc::{spec_format_token, spec_parse_format, TimeCode, TimeCodeFormat};
use vstd::prelude::*;

verus! {

/// The six header fields. The five text fields hold the remainder of their
/// line verbatim; the last field is the resolved frame-rate tag.
#[derive(Debug, PartialEq, Eq, Clone)]
pub struct Header {
    pub format: String,
    pub uuid: String,
    pub creation_program: String,
    pub creation_date: String,
    pub creation_time: String,
    pub timecode_format: TimeCodeFormat,
}

/// The mathematical content of a `Header`.
pub ghost struct HeaderView {
    pub format: Seq<char>,
    pub uuid: Seq<char>,
    pub creation_program: Seq<char>,
    pub creation_date: Seq<char>,
    pub creation_time: Seq<char>,
    pub timecode_format: TimeCodeFormat,
}

impl View for Header {
    type V = HeaderView;

    open spec fn view(&self) -> HeaderView {
        HeaderView {
            format: self.format@,
            uuid: self.uuid@,
            creation_program: self.creation_program@,
            creation_date: self.creation_date@,
            creation_time: self.creation_time@,
            timecode_format: self.timecode_format,
        }
    }
}

/// One decoded caption event: a timecode and the raw bytes of its payload.
#[derive(Debug, PartialEq, Eq, Clone)]
pub struct Line {
    pub timecode: TimeCode,
    pub data: Vec<u8>,
}

/// The mathematical content of a `Line`.
pub ghost struct LineView {
    pub timecode: TimeCode,
    pub data: Seq<u8>,
}

impl View for Line {
    type V = LineView;

    open spec fn view(&self) -> LineView {
        LineView { timecode: self.timecode, data: self.data@ }
    }
}

impl DeepView for Line {
    type V = LineView;

    open spec fn deep_view(&self) -> LineView {
        self.view()
    }
}

/// A decoded MCC document: the header plus the caption lines in file order.
#[derive(Debug, PartialEq, Eq, Clone)]
pub struct MCC {
    header: Header,
    lines: Vec<Line>,
}

/// The mathematical content of an `MCC` document.
pub ghost struct MccView {
    pub header: HeaderView,
    pub lines: Seq<LineView>,
}

impl View for MCC {
    type V = MccView;

    closed spec fn view(&self) -> MccView {
        MccView { header: self.header@, lines: self.lines.deep_view() }
    }
}

impl Default for Header {
    /// A placeholder header: empty text fields and the placeholder rate.
    fn default() -> (r: Self)
        ensures
            r@.format == Seq::<char>::empty(),
            r@.uuid == Seq::<char>::empty(),
            r@.creation_program == Seq::<char>::empty(),
            r@.creation_date == Seq::<char>::empty(),
            r@.creation_time == Seq::<char>::empty(),
            r@.timecode_format == TimeCodeFormat::Fps30,
    {
        Header {
            format: String::new(),
            uuid: String::new(),
            creation_program: String::new(),
            creation_date: String::new(),
            creation_time: String::new(),
            timecode_format: TimeCodeFormat::Fps30,
        }
    }
}

impl Default for MCC {
    /// A placeholder document: a default header and no caption lines.
    fn default() -> (r: Self)
        ensures
            r@.header == Header::default_spec_view(),
            r@.lines == Seq::<LineView>::empty(),
    {
        let lines: Vec<Line> = Vec::new();
        proof {
            assert(lines.deep_view() =~= Seq::<LineView>::empty());
        }
        MCC { header: Header::default(), lines }
    }
}

impl Header {
    /// The view of the placeholder header.
    pub open spec fn default_spec_view() -> HeaderView {
        HeaderView {
            format: Seq::empty(),
            uuid: Seq::empty(),
            creation_program: Seq::empty(),
            creation_date: Seq::empty(),
            creation_time: Seq::empty(),
            timecode_format: TimeCodeFormat::Fps30,
        }
    }
}

/// Decoding errors: the file could not be read, or the text violates the
/// grammar. Every grammar violation is fatal to the whole decode.
#[derive(Debug, PartialEq, Eq, Clone)]
pub enum Error {
    Disconnect(String),
    ParseError(String),
}

/// A line of the form `<tag><field><line ending>` standing at `pos`: the
/// field runs verbatim from the end of the tag to the line break, and a line
/// ending is required. `None` if the tag does not match exactly or the line
/// is unterminated.
pub open spec fn spec_parse_tagged_line(s: Seq<char>, pos: int, tag: Seq<char>) -> Option<
    (Seq<char>, int),
> {
    if has_tag(s, pos, tag) {
        let start = pos + tag.len();
        let end = line_content_end(s, start);
        match line_ending_after(s, end) {
            Some(next) => Some((s.subrange(start, end), next)),
            None => None,
        }
    } else {
        None
    }
}

/// A comment line starts with two consecutive `/` characters.
pub open spec fn is_comment_start(s: Seq<char>, pos: int) -> bool {
    0 <= pos && pos + 1 < s.len() && s[pos] == '/' && s[pos + 1] == '/'
}

/// The position after all blank lines and comment lines starting at `pos`:
/// line endings are consumed one at a time, and a comment start consumes the
/// rest of its line's content (its ending is consumed on the next round).
pub open spec fn skip_blank_comment(s: Seq<char>, pos: int) -> int
    decreases s.len() - pos
    when 0 <= pos <= s.len()
{
    if line_ending_after(s, pos) is Some {
        skip_blank_comment(s, line_ending_after(s, pos)->0)
    } else if is_comment_start(s, pos) {
        proof {
            lemma_line_content_end(s, pos);
        }
        skip_blank_comment(s, line_content_end(s, pos))
    } else {
        pos
    }
}

/// The rate line `Time Code Rate=<token><line ending>`: the whole field must
/// be one of the seven canonical frame-rate tokens.
pub open spec fn spec_parse_rate_line(s: Seq<char>, pos: int) -> Option<(TimeCodeFormat, int)> {
    match spec_parse_tagged_line(s, pos, "Time Code Rate="@) {
        Some((token, next)) => match spec_parse_format(token) {
            Some(v) => Some((v, next)),
            None => None,
        },
        None => None,
    }
}

/// The header: six tagged fields in fixed order, with blank and comment
/// lines tolerated only between the first field and the UUID field.
pub open spec fn spec_parse_header(s: Seq<char>, pos: int) -> Option<(HeaderView, int)> {
    match spec_parse_tagged_line(s, pos, "File Format="@) {
        Some((format, p1)) => {
            let p2 = skip_blank_comment(s, p1);
            match spec_parse_tagged_line(s, p2, "UUID="@) {
                Some((uuid, p3)) => match spec_parse_tagged_line(s, p3, "Creation Program="@) {
                    Some((creation_program, p4)) => match spec_parse_tagged_line(
                        s,
                        p4,
                        "Creation Date="@,
                    ) {
                        Some((creation_date, p5)) => match spec_parse_tagged_line(
                            s,
                            p5,
                            "Creation Time="@,
                        ) {
                            Some((creation_time, p6)) => match spec_parse_rate_line(s, p6) {
                                Some((timecode_format, p7)) => Some(
                                    (
                                        HeaderView {
                                            format,
                                            uuid,
                                            creation_program,
                                            creation_date,
                                            creation_time,
                                            timecode_format,
                                        },
                                        p7,
                                    ),
                                ),
                                None => None,
                            },
                            None => None,
                        },
                        None => None,
                    },
                    None => None,
                },
                None => None,
            }
        },
        None => None,
    }
}

/// A timecode literal `H:M:S:F`: four decimal numbers separated by `:`.
pub open spec fn spec_parse_timecode(s: Seq<char>, pos: int) -> Option<(TimeCode, int)> {
    match spec_parse_number(s, pos) {
        Some((hour, p1)) => if p1 < s.len() && s[p1] == ':' {
            match spec_parse_number(s, p1 + 1) {
                Some((minute, p2)) => if p2 < s.len() && s[p2] == ':' {
                    match spec_parse_number(s, p2 + 1) {
                        Some((second, p3)) => if p3 < s.len() && s[p3] == ':' {
                            match spec_parse_number(s, p3 + 1) {
                                Some((frame, p4)) => Some(
                                    (TimeCode { hour, minute, second, frame }, p4),
                                ),
                                None => None,
                            }
                        } else {
                            None
                        },
                        None => None,
                    }
                } else {
                    None
                },
                None => None,
            }
        } else {
            None
        },
        None => None,
    }
}

pub proof fn lemma_parse_timecode_advances(s: Seq<char>, pos: int)
    requires
        0 <= pos <= s.len(),
        spec_parse_timecode(s, pos) is Some,
    ensures
        pos < (spec_parse_timecode(s, pos)->0).1 <= s.len(),
{
    lemma_digit_run_end(s, pos);
    let p1 = digit_run_end(s, pos);
    lemma_digit_run_end(s, p1 + 1);
    let p2 = digit_run_end(s, p1 + 1);
    lemma_digit_run_end(s, p2 + 1);
    let p3 = digit_run_end(s, p2 + 1);
    lemma_digit_run_end(s, p3 + 1);
}

/// One caption line at `pos`: a timecode literal, a single tab, and a
/// payload running to the line break; the whole payload must decode, and the
/// line is terminated by a line ending or by the end of the input.
pub open spec fn spec_parse_line(s: Seq<char>, pos: int) -> Option<(LineView, int)> {
    match spec_parse_timecode(s, pos) {
        Some((timecode, p)) => if p < s.len() && s[p] == '\t' {
            let end = line_content_end(s, p + 1);
            match spec_decode_payload(s.subrange(p + 1, end)) {
                Some(data) => if end == s.len() {
                    Some((LineView { timecode, data }, end))
                } else {
                    match line_ending_after(s, end) {
                        Some(next) => Some((LineView { timecode, data }, next)),
                        None => None,
                    }
                },
                None => None,
            }
        } else {
            None
        },
        None => None,
    }
}

pub proof fn lemma_parse_line_advances(s: Seq<char>, pos: int)
    requires
        0 <= pos <= s.len(),
        spec_parse_line(s, pos) is Some,
    ensures
        pos < (spec_parse_line(s, pos)->0).1 <= s.len(),
{
    lemma_parse_timecode_advances(s, pos);
    let p = (spec_parse_timecode(s, pos)->0).1;
    lemma_line_content_end(s, p + 1);
}

/// All caption lines from `pos` to the end of the input, in order, with
/// blank lines between them skipped; `None` as soon as one line fails.
pub open spec fn spec_parse_lines(s: Seq<char>, pos: int) -> Option<Seq<LineView>>
    decreases s.len() - pos
    when 0 <= pos <= s.len()
{
    if pos >= s.len() {
        Some(Seq::empty())
    } else if line_ending_after(s, pos) is Some {
        spec_parse_lines(s, line_ending_after(s, pos)->0)
    } else {
        match spec_parse_line(s, pos) {
            Some((l, next)) => {
                proof {
                    lemma_parse_line_advances(s, pos);
                }
                match spec_parse_lines(s, next) {
                    Some(rest) => Some(seq![l] + rest),
                    None => None,
                }
            },
            None => None,
        }
    }
}

/// The whole document: the header, then the caption lines to the end of the
/// input.
pub open spec fn spec_parse_document(s: Seq<char>) -> Option<MccView> {
    match spec_parse_header(s, 0) {
        Some((header, pos)) => match spec_parse_lines(s, pos) {
            Some(lines) => Some(MccView { header, lines }),
            None => None,
        },
        None => None,
    }
}

pub proof fn lemma_tagged_line_at(s: Seq<char>, pos: int, tag: Seq<char>, field: Seq<char>)
    requires
        0 <= pos,
        pos + tag.len() + field.len() < s.len(),
        s.subrange(pos, pos + tag.len()) == tag,
        s.subrange(pos + tag.len(), pos + tag.len() + field.len()) == field,
        forall|k: int| 0 <= k < field.len() ==> !is_line_break(field[k]),
        s[pos + tag.len() + field.len()] == '\n',
    ensures
        spec_parse_tagged_line(s, pos, tag) == Some((field, pos + tag.len() + field.len() + 1)),
{
    let start = pos + tag.len();
    let e = start + field.len();
    assert forall|k: int| start <= k < e implies !is_line_break(s[k]) by {
        assert(s[k] == s.subrange(start, e)[k - start]);
    }
    lemma_line_content_end_at(s, start, e);
}

/// One skipped unit before the UUID field: a blank line (with either line
/// ending) or a comment line, whose content holds no line break.
pub ghost enum SkipUnit {
    Blank,
    CrBlank,
    Comment(Seq<char>),
}

/// The text of one skipped unit.
pub open spec fn skip_unit_text(u: SkipUnit) -> Seq<char> {
    match u {
        SkipUnit::Blank => seq!['\n'],
        SkipUnit::CrBlank => seq!['\r', '\n'],
        SkipUnit::Comment(c) => seq!['/', '/'] + c + seq!['\n'],
    }
}

/// A comment unit's content may hold anything but a line break.
pub open spec fn skip_unit_valid(u: SkipUnit) -> bool {
    match u {
        SkipUnit::Comment(c) => forall|k: int| 0 <= k < c.len() ==> !is_line_break(c[k]),
        _ => true,
    }
}

/// The text of a run of skipped units.
pub open spec fn skip_block_text(us: Seq<SkipUnit>) -> Seq<char>
    decreases us.len(),
{
    if us.len() == 0 {
        Seq::empty()
    } else {
        skip_unit_text(us[0]) + skip_block_text(us.skip(1))
    }
}

pub open spec fn skip_block_valid(us: Seq<SkipUnit>) -> bool {
    forall|i: int| 0 <= i < us.len() ==> skip_unit_valid(us[i])
}

/// Skipping consumes exactly a run of blank and comment units.
pub proof fn lemma_skip_block(s: Seq<char>, pos: int, us: Seq<SkipUnit>)
    requires
        0 <= pos,
        skip_block_valid(us),
        pos + skip_block_text(us).len() <= s.len(),
        s.subrange(pos, pos + skip_block_text(us).len()) == skip_block_text(us),
    ensures
        skip_blank_comment(s, pos) == skip_blank_comment(s, pos + skip_block_text(us).len()),
    decreases us.len(),
{
    if us.len() > 0 {
        let u = us[0];
        let t = skip_unit_text(u);
        let restus = us.skip(1);
        let whole = skip_block_text(us);
        let restlen = skip_block_text(restus).len();
        assert forall|k: int| 0 <= k < whole.len() implies s[pos + k] == whole[k] by {
            assert(s.subrange(pos, pos + whole.len())[k] == s[pos + k]);
        }
        let tl = t.len() as int;
        assert(whole == t + skip_block_text(restus));
        assert forall|k: int| 0 <= k < restlen implies #[trigger] skip_block_text(restus)[k] == s[
            pos + tl + k
        ] by {
            assert(s[pos + (tl + k)] == whole[tl + k]);
        }
        assert(s.subrange(pos + tl, pos + tl + restlen) =~= skip_block_text(restus));
        match u {
            SkipUnit::Blank => {
                assert(s[pos + 0] == whole[0]);
                assert(s[pos] == '\n');
                assert(line_ending_after(s, pos) == Some(pos + 1));
                lemma_skip_block(s, pos + 1, restus);
            },
            SkipUnit::CrBlank => {
                assert(s[pos + 0] == whole[0]);
                assert(s[pos + 1] == whole[1]);
                assert(s[pos] == '\r');
                assert(s[pos + 1] == '\n');
                assert(line_ending_after(s, pos) == Some(pos + 2));
                lemma_skip_block(s, pos + 2, restus);
            },
            SkipUnit::Comment(c) => {
                assert(s[pos + 0] == whole[0]);
                assert(s[pos + 1] == whole[1]);
                assert(s[pos] == '/');
                assert(s[pos + 1] == '/');
                assert(line_ending_after(s, pos) is None);
                assert(is_comment_start(s, pos));
                let e = pos + 2 + c.len();
                assert forall|k: int| pos <= k < e implies !is_line_break(s[k]) by {
                    assert(s[pos + (k - pos)] == whole[k - pos]);
                    if k >= pos + 2 {
                        assert(whole[k - pos] == c[k - pos - 2]);
                    }
                }
                assert(s[pos + (e - pos)] == whole[e - pos]);
                assert(s[e] == '\n');
                lemma_line_content_end_at(s, pos, e);
                assert(skip_blank_comment(s, pos) == skip_blank_comment(s, e));
                assert(line_ending_after(s, e) == Some(e + 1));
                assert(skip_blank_comment(s, e) == skip_blank_comment(s, e + 1));
                assert(e + 1 == pos + tl);
                lemma_skip_block(s, pos + tl, restus);
            },
        }
    }
}

/// No canonical frame-rate token holds a line break.
proof fn lemma_format_token_no_breaks(v: TimeCodeFormat)
    ensures
        forall|k: int|
            0 <= k < spec_format_token(v).len() ==> !is_line_break(spec_format_token(v)[k]),
{
    reveal_strlit("24");
    reveal_strlit("25");
    reveal_strlit("30");
    reveal_strlit("30DF");
    reveal_strlit("50");
    reveal_strlit("60");
    reveal_strlit("60DF");
    let t = spec_format_token(v);
    assert forall|k: int| 0 <= k < t.len() implies !is_line_break(t[k]) by {
        if k == 0 {
            assert(!is_line_break(t[0]));
        } else if k == 1 {
            assert(!is_line_break(t[1]));
        } else if k == 2 {
            assert(!is_line_break(t[2]));
        } else {
            assert(!is_line_break(t[3]));
        }
    }
}

/// The text of a well-formed header block: the six tagged lines in their
/// fixed order, with a run of blank and comment lines after the first.
pub open spec fn spec_header_text(
    f: Seq<char>,
    blk: Seq<SkipUnit>,
    u: Seq<char>,
    cp: Seq<char>,
    cd: Seq<char>,
    ct: Seq<char>,
    v: TimeCodeFormat,
) -> Seq<char> {
    "File Format="@ + f + seq!['\n'] + skip_block_text(blk) + "UUID="@ + u + seq!['\n']
        + "Creation Program="@ + cp + seq!['\n'] + "Creation Date="@ + cd + seq!['\n']
        + "Creation Time="@ + ct + seq!['\n'] + "Time Code Rate="@ + spec_format_token(v)
        + seq!['\n']
}

/// Law: a well-formed six-field header block — with any run of blank and
/// comment lines between the `File Format=` line and the `UUID=` line, and
/// any remaining text after it — decodes to exactly the header whose text
/// fields are the literal strings after each `=` and whose rate is the
/// variant of the written token, consuming exactly the block.
#[verifier::rlimit(100)]
pub proof fn lemma_header_well_formed(
    f: Seq<char>,
    blk: Seq<SkipUnit>,
    u: Seq<char>,
    cp: Seq<char>,
    cd: Seq<char>,
    ct: Seq<char>,
    v: TimeCodeFormat,
    rest: Seq<char>,
)
    requires
        forall|k: int| 0 <= k < f.len() ==> !is_line_break(f[k]),
        forall|k: int| 0 <= k < u.len() ==> !is_line_break(u[k]),
        forall|k: int| 0 <= k < cp.len() ==> !is_line_break(cp[k]),
        forall|k: int| 0 <= k < cd.len() ==> !is_line_break(cd[k]),
        forall|k: int| 0 <= k < ct.len() ==> !is_line_break(ct[k]),
        skip_block_valid(blk),
    ensures
        ({
            let s = spec_header_text(f, blk, u, cp, cd, ct, v) + rest;
            spec_parse_header(s, 0) == Some(
                (
                    HeaderView {
                        format: f,
                        uuid: u,
                        creation_program: cp,
                        creation_date: cd,
                        creation_time: ct,
                        timecode_format: v,
                    },
                    spec_header_text(f, blk, u, cp, cd, ct, v).len() as int,
                ),
            )
        }),
{
    reveal_strlit("File Format=");
    reveal_strlit("UUID=");
    reveal_strlit("Creation Program=");
    reveal_strlit("Creation Date=");
    reveal_strlit("Creation Time=");
    reveal_strlit("Time Code Rate=");
    let s = spec_header_text(f, blk, u, cp, cd, ct, v) + rest;
    let tok = spec_format_token(v);
    let blklen = skip_block_text(blk).len() as int;
    let q1 = 12 + f.len() as int;
    let p1 = q1 + 1;
    let p2 = p1 + blklen;
    let q2 = p2 + 5 + u.len() as int;
    let p3 = q2 + 1;
    let q3 = p3 + 17 + cp.len() as int;
    let p4 = q3 + 1;
    let q4 = p4 + 14 + cd.len() as int;
    let p5 = q4 + 1;
    let q5 = p5 + 14 + ct.len() as int;
    let p6 = q5 + 1;
    let q6 = p6 + 15 + tok.len() as int;
    let p7 = q6 + 1;
    assert(p7 == spec_header_text(f, blk, u, cp, cd, ct, v).len() as int);
    assert(s.subrange(0, 12) =~= "File Format="@);
    assert(s.subrange(12, q1) =~= f);
    assert(s[q1] == '\n');
    lemma_tagged_line_at(s, 0, "File Format="@, f);
    assert(s.subrange(p1, p2) =~= skip_block_text(blk));
    lemma_skip_block(s, p1, blk);
    assert(s.subrange(p2, p2 + 5) =~= "UUID="@);
    assert(s[p2 + 0] == 'U');
    assert(line_ending_after(s, p2) is None);
    assert(!is_comment_start(s, p2));
    assert(skip_blank_comment(s, p2) == p2);
    assert(skip_blank_comment(s, p1) == p2);
    assert(s.subrange(p2 + 5, q2) =~= u);
    assert(s[q2] == '\n');
    lemma_tagged_line_at(s, p2, "UUID="@, u);
    assert(s.subrange(p3, p3 + 17) =~= "Creation Program="@);
    assert(s.subrange(p3 + 17, q3) =~= cp);
    assert(s[q3] == '\n');
    lemma_tagged_line_at(s, p3, "Creation Program="@, cp);
    assert(s.subrange(p4, p4 + 14) =~= "Creation Date="@);
    assert(s.subrange(p4 + 14, q4) =~= cd);
    assert(s[q4] == '\n');
    lemma_tagged_line_at(s, p4, "Creation Date="@, cd);
    assert(s.subrange(p5, p5 + 14) =~= "Creation Time="@);
    assert(s.subrange(p5 + 14, q5) =~= ct);
    assert(s[q5] == '\n');
    lemma_tagged_line_at(s, p5, "Creation Time="@, ct);
    assert(s.subrange(p6, p6 + 15) =~= "Time Code Rate="@);
    assert(s.subrange(p6 + 15, q6) =~= tok);
    assert(s[q6] == '\n');
    lemma_format_token_no_breaks(v);
    lemma_tagged_line_at(s, p6, "Time Code Rate="@, tok);
    crate::tc::lemma_format_round_trip(v);
    assert(spec_parse_rate_line(s, p6) == Some((v, p7)));
}

/// Law: a successful header decode finds each of the six field tags, in
/// their fixed order, each at the position where the previous field ended
/// (with only blank and comment lines skipped before the UUID tag) — a
/// header missing a field, or with fields out of order, never decodes.
pub proof fn lemma_header_fields_in_order(s: Seq<char>)
    requires
        spec_parse_header(s, 0) is Some,
    ensures
        has_tag(s, 0, "File Format="@),
        ({
            let p1 = (spec_parse_tagged_line(s, 0, "File Format="@)->0).1;
            let p2 = skip_blank_comment(s, p1);
            &&& has_tag(s, p2, "UUID="@)
            &&& {
                let p3 = (spec_parse_tagged_line(s, p2, "UUID="@)->0).1;
                &&& has_tag(s, p3, "Creation Program="@)
                &&& {
                    let p4 = (spec_parse_tagged_line(s, p3, "Creation Program="@)->0).1;
                    &&& has_tag(s, p4, "Creation Date="@)
                    &&& {
                        let p5 = (spec_parse_tagged_line(s, p4, "Creation Date="@)->0).1;
                        &&& has_tag(s, p5, "Creation Time="@)
                        &&& has_tag(
                            s,
                            (spec_parse_tagged_line(s, p5, "Creation Time="@)->0).1,
                            "Time Code Rate="@,
                        )
                    }
                }
            }
        }),
{
}

/// Parses one tagged header line, returning the field verbatim.
fn parse_tagged_line_exec(s: &str, n: usize, pos: usize, tag: &str) -> (r: Option<(String, usize)>)
    requires
        n == s@.len(),
        pos <= n,
    ensures
        match r {
            Some(p) => spec_parse_tagged_line(s@, pos as int, tag@) == Some((p.0@, p.1 as int))
                && pos < p.1 <= n,
            None => spec_parse_tagged_line(s@, pos as int, tag@) is None,
        },
{
    if !match_tag(s, n, pos, tag) {
        return None;
    }
    let tn: usize = tag.unicode_len();
    let start: usize = pos + tn;
    let end: usize = find_line_content_end(s, n, start);
    match take_line_ending(s, n, end) {
        Some(next) => {
            let field = s.substring_char(start, end);
            Some((field.to_owned(), next))
        },
        None => None,
    }
}

/// Skips blank lines and comment lines.
fn skip_comments(s: &str, n: usize, pos: usize) -> (r: usize)
    requires
        n == s@.len(),
        pos <= n,
    ensures
        r == skip_blank_comment(s@, pos as int),
        pos <= r <= n,
    decreases n - pos,
{
    match take_line_ending(s, n, pos) {
        Some(e) => skip_comments(s, n, e),
        None => {
            if n - pos > 1 {
                if s.get_char(pos) == '/' && s.get_char(pos + 1) == '/' {
                    let e = find_line_content_end(s, n, pos);
                    proof {
                        lemma_line_content_end(s@, pos as int);
                        assert(e > pos);
                    }
                    return skip_comments(s, n, e);
                }
            }
            pos
        },
    }
}

/// Parses the rate line and resolves its token.
fn parse_rate_line_exec(s: &str, n: usize, pos: usize) -> (r: Option<(TimeCodeFormat, usize)>)
    requires
        n == s@.len(),
        pos <= n,
    ensures
        match r {
            Some(p) => spec_parse_rate_line(s@, pos as int) == Some((p.0, p.1 as int)) && pos < p.1
                <= n,
            None => spec_parse_rate_line(s@, pos as int) is None,
        },
{
    match parse_tagged_line_exec(s, n, pos, "Time Code Rate=") {
        Some(p) => {
            let (token, next) = p;
            match TimeCodeFormat::from_str(token.as_str()) {
                Some(v) => Some((v, next)),
                None => None,
            }
        },
        None => None,
    }
}

/// Parses the six header fields in their fixed order.
fn parse_header_exec(s: &str, n: usize, pos: usize) -> (r: Option<(Header, usize)>)
    requires
        n == s@.len(),
        pos <= n,
    ensures
        match r {
            Some(p) => spec_parse_header(s@, pos as int) == Some((p.0@, p.1 as int)) && pos < p.1
                <= n,
            None => spec_parse_header(s@, pos as int) is None,
        },
{
    let (format, p1) = match parse_tagged_line_exec(s, n, pos, "File Format=") {
        Some(x) => x,
        None => {
            return None;
        },
    };
    let p2 = skip_comments(s, n, p1);
    let (uuid, p3) = match parse_tagged_line_exec(s, n, p2, "UUID=") {
        Some(x) => x,
        None => {
            return None;
        },
    };
    let (creation_program, p4) = match parse_tagged_line_exec(s, n, p3, "Creation Program=") {
        Some(x) => x,
        None => {
            return None;
        },
    };
    let (creation_date, p5) = match parse_tagged_line_exec(s, n, p4, "Creation Date=") {
        Some(x) => x,
        None => {
            return None;
        },
    };
    let (creation_time, p6) = match parse_tagged_line_exec(s, n, p5, "Creation Time=") {
        Some(x) => x,
        None => {
            return None;
        },
    };
    let (timecode_format, p7) = match parse_rate_line_exec(s, n, p6) {
        Some(x) => x,
        None => {
            return None;
        },
    };
    Some(
        (
            Header {
                format,
                uuid,
                creation_program,
                creation_date,
                creation_time,
                timecode_format,
            },
            p7,
        ),
    )
}

/// Parses a timecode literal `H:M:S:F`.
fn parse_timecode_exec(s: &str, n: usize, pos: usize) -> (r: Option<(TimeCode, usize)>)
    requires
        n == s@.len(),
        pos <= n,
    ensures
        match r {
            Some(p) => spec_parse_timecode(s@, pos as int) == Some((p.0, p.1 as int)) && pos < p.1
                <= n,
            None => spec_parse_timecode(s@, pos as int) is None,
        },
{
    let (hour, p1) = match parse_number(s, n, pos) {
        Some(x) => x,
        None => {
            return None;
        },
    };
    if p1 >= n {
        return None;
    }
    if s.get_char(p1) != ':' {
        return None;
    }
    let (minute, p2) = match parse_number(s, n, p1 + 1) {
        Some(x) => x,
        None => {
            return None;
        },
    };
    if p2 >= n {
        return None;
    }
    if s.get_char(p2) != ':' {
        return None;
    }
    let (second, p3) = match parse_number(s, n, p2 + 1) {
        Some(x) => x,
        None => {
            return None;
        },
    };
    if p3 >= n {
        return None;
    }
    if s.get_char(p3) != ':' {
        return None;
    }
    let (frame, p4) = match parse_number(s, n, p3 + 1) {
        Some(x) => x,
        None => {
            return None;
        },
    };
    Some((TimeCode { hour, minute, second, frame }, p4))
}

/// Parses one caption line.
fn parse_line_exec(s: &str, n: usize, pos: usize) -> (r: Option<(Line, usize)>)
    requires
        n == s@.len(),
        pos <= n,
    ensures
        match r {
            Some(p) => spec_parse_line(s@, pos as int) == Some((p.0@, p.1 as int)) && pos < p.1
                <= n,
            None => spec_parse_line(s@, pos as int) is None,
        },
{
    let (timecode, p) = match parse_timecode_exec(s, n, pos) {
        Some(x) => x,
        None => {
            return None;
        },
    };
    if p >= n {
        return None;
    }
    if s.get_char(p) != '\t' {
        return None;
    }
    let end = find_line_content_end(s, n, p + 1);
    let data = match decode_payload_range(s, n, p + 1, end) {
        Some(v) => v,
        None => {
            return None;
        },
    };
    if end == n {
        return Some((Line { timecode, data }, end));
    }
    match take_line_ending(s, n, end) {
        Some(next) => Some((Line { timecode, data }, next)),
        None => None,
    }
}

/// Parses all caption lines from `pos0` to the end of the input; on failure
/// the error carries the character offset where parsing stopped.
fn parse_lines_exec(s: &str, n: usize, pos0: usize) -> (r: Result<Vec<Line>, usize>)
    requires
        n == s@.len(),
        pos0 <= n,
    ensures
        match r {
            Ok(v) => spec_parse_lines(s@, pos0 as int) == Some(v.deep_view()),
            Err(_) => spec_parse_lines(s@, pos0 as int) is None,
        },
{
    let mut acc: Vec<Line> = Vec::new();
    let mut pos: usize = pos0;
    proof {
        assert(acc.deep_view() =~= Seq::<LineView>::empty());
    }
    while pos < n
        invariant
            pos0 <= pos <= n,
            n == s@.len(),
            spec_parse_lines(s@, pos as int) is Some <==> spec_parse_lines(s@, pos0 as int)
                is Some,
            spec_parse_lines(s@, pos as int) is Some ==> spec_parse_lines(s@, pos0 as int)->0
                == acc.deep_view() + spec_parse_lines(s@, pos as int)->0,
        decreases n - pos,
    {
        match take_line_ending(s, n, pos) {
            Some(e) => {
                pos = e;
            },
            None => {
                match parse_line_exec(s, n, pos) {
                    Some(lp) => {
                        let (l, next) = lp;
                        proof {
                            let acc0 = acc.deep_view();
                            if spec_parse_lines(s@, next as int) is Some {
                                let rest = spec_parse_lines(s@, next as int)->0;
                                assert(spec_parse_lines(s@, pos as int)->0 == seq![l@] + rest);
                                assert(acc0 + (seq![l@] + rest) =~= (acc0 + seq![l@]) + rest);
                            }
                        }
                        let ghost acc_old = acc;
                        acc.push(l);
                        proof {
                            assert(acc.deep_view() =~= acc_old.deep_view() + seq![l@]);
                        }
                        pos = next;
                    },
                    None => {
                        return Err(pos);
                    },
                }
            },
        }
    }
    proof {
        if spec_parse_lines(s@, pos0 as int) is Some {
            assert(spec_parse_lines(s@, pos0 as int)->0 =~= acc.deep_view());
        }
    }
    Ok(acc)
}

impl MCC {
    /// Decodes a whole MCC document from its full text: the header first,
    /// then every remaining non-blank line as a caption line. The first
    /// grammar violation anywhere aborts the decode with a parse error.
    pub fn from_str(input: &str) -> (r: Result<MCC, Error>)
        ensures
            match spec_parse_document(input@) {
                Some(doc) => r is Ok && r->Ok_0@ == doc,
                None => r is Err && r->Err_0 is ParseError,
            },
    {
        let n: usize = input.unicode_len();
        let (header, pos) = match parse_header_exec(input, n, 0) {
            Some(x) => x,
            None => {
                return Err(
                    Error::ParseError(
                        "expected the six-field MCC header at the start of the input".to_owned(),
                    ),
                );
            },
        };
        match parse_lines_exec(input, n, pos) {
            Ok(lines) => Ok(MCC { header, lines }),
            Err(off) => {
                let msg = String::from_str("expected a caption line at character offset ");
                Err(Error::ParseError(msg.concat(crate::tc::usize_dec_string(off).as_str())))
            },
        }
    }

    /// The decoded header (read-only).
    pub fn header(&self) -> (h: &Header)
        ensures
            h@ == self@.header,
    {
        &self.header
    }

    /// The decoded caption lines in file order (read-only).
    pub fn lines(&self) -> (l: &Vec<Line>)
        ensures
            l.deep_view() == self@.lines,
    {
        &self.lines
    }
}

} // verus!
