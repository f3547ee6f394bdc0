//! Classification of lines as code, comment or blank.
use vstd::prelude::*;
use vstd::slice::slice_subrange;
use vstd::utf8::valid_utf8;
use vstd::string::StringSliceAdditionalSpecFns;
use crate::count::{Count, zero_count, is_consistent};
use crate::language::{
    Language, LineConfig, delimiter_bytes, get_language, get_language_config, language_of_path,
    marker_bytes, profile_delimiters, profile_marker,
};
use crate::lines::{ByteLines, lines_of};
use crate::text::{
    trim_hi, trim_lo,
    contains, contains_bytes, is_boundary, occurs_at, matches_at, space_at, space_len_at,
    starts_with, starts_with_bytes, trim_range, trimmed, boundary,
};

verus! {

/// What a single line counts as.
#[derive(PartialEq, Eq, Structural, Clone, Copy, Debug)]
pub enum LineKind {
    Blank,
    Comment,
    Code,
}

/// Walks a trimmed line from `pos` with the block-comment state `inside`,
/// entering a block at its opening delimiter and leaving it at its closing
/// one; `found` records whether a non-whitespace byte was seen outside any
/// block. A character counts from its first byte: whitespace is judged by
/// the whole character, and the bytes inside a multi-byte character are
/// passed over. Returns the state at the end of the line and that flag.
pub open spec fn scan(
    s: Seq<u8>,
    st: Seq<u8>,
    en: Seq<u8>,
    pos: int,
    inside: bool,
    found: bool,
) -> (bool, bool)
    decreases s.len() - pos,
{
    if pos < 0 || pos >= s.len() {
        (inside, found)
    } else if !inside && st.len() > 0 && occurs_at(s, st, pos) {
        scan(s, st, en, pos + st.len(), true, found)
    } else if inside && en.len() > 0 && occurs_at(s, en, pos) {
        scan(s, st, en, pos + en.len(), false, found)
    } else if !inside && is_boundary(s, pos) && space_at(s, pos) == 0 {
        scan(s, st, en, pos + 1, inside, true)
    } else {
        scan(s, st, en, pos + 1, inside, found)
    }
}

/// What a line counts as, and the block-comment state after it, for a
/// language with the line marker `single` and the block delimiters `multi`.
pub open spec fn classify_line(
    raw: Seq<u8>,
    single: Option<Seq<u8>>,
    multi: Option<(Seq<u8>, Seq<u8>)>,
    inside: bool,
) -> (LineKind, bool) {
    let l = trimmed(raw);
    let line_comment = match single {
        Some(m) => !inside && starts_with(l, m) && match multi {
            Some(d) => !starts_with(l, d.0),
            None => true,
        },
        None => false,
    };
    if l.len() == 0 {
        (LineKind::Blank, inside)
    } else if line_comment {
        (LineKind::Comment, inside)
    } else {
        match multi {
            None => (LineKind::Code, inside),
            Some(d) => if !contains(l, d.0) && !contains(l, d.1) {
                (
                    if inside {
                        LineKind::Comment
                    } else {
                        LineKind::Code
                    },
                    inside,
                )
            } else {
                let r = scan(l, d.0, d.1, 0, inside, false);
                (
                    if r.1 {
                        LineKind::Code
                    } else {
                        LineKind::Comment
                    },
                    r.0,
                )
            },
        }
    }
}

/// The kinds of a sequence of lines read in order, starting in the state
/// `inside`.
pub open spec fn classify_all(
    lines: Seq<Seq<u8>>,
    single: Option<Seq<u8>>,
    multi: Option<(Seq<u8>, Seq<u8>)>,
    inside: bool,
) -> Seq<LineKind>
    decreases lines.len(),
{
    if lines.len() == 0 {
        seq![]
    } else {
        let r = classify_line(lines[0], single, multi, inside);
        seq![r.0] + classify_all(lines.drop_first(), single, multi, r.1)
    }
}

/// The block-comment state after a sequence of lines.
pub open spec fn state_after(
    lines: Seq<Seq<u8>>,
    single: Option<Seq<u8>>,
    multi: Option<(Seq<u8>, Seq<u8>)>,
    inside: bool,
) -> bool
    decreases lines.len(),
{
    if lines.len() == 0 {
        inside
    } else {
        state_after(lines.drop_first(), single, multi, classify_line(lines[0], single, multi, inside).1)
    }
}

/// How many of `ks` are `k`.
pub open spec fn tally(ks: Seq<LineKind>, k: LineKind) -> nat
    decreases ks.len(),
{
    if ks.len() == 0 {
        0
    } else {
        tally(ks.drop_last(), k) + if ks.last() == k {
            1nat
        } else {
            0nat
        }
    }
}

/// Every line is valid UTF-8.
pub open spec fn all_utf8(lines: Seq<Seq<u8>>) -> bool {
    forall|i: int| 0 <= i < lines.len() ==> valid_utf8(#[trigger] lines[i])
}

/// The tally of a sequence of kinds.
pub open spec fn count_kinds(ks: Seq<LineKind>) -> Count {
    Count {
        code: tally(ks, LineKind::Code) as u32,
        blank: tally(ks, LineKind::Blank) as u32,
        comments: tally(ks, LineKind::Comment) as u32,
        total: ks.len() as u32,
    }
}

/// The tally of a file's bytes: every line classified in order, starting
/// outside any block comment; all zero when some line is not UTF-8.
pub open spec fn count_of(
    buf: Seq<u8>,
    single: Option<Seq<u8>>,
    multi: Option<(Seq<u8>, Seq<u8>)>,
) -> Count {
    if all_utf8(lines_of(buf)) {
        count_kinds(classify_all(lines_of(buf), single, multi, false))
    } else {
        zero_count()
    }
}

/// Relies on std::str::from_utf8: it succeeds exactly on valid UTF-8.
#[verifier::external_body]
fn is_utf8(b: &[u8]) -> (r: bool)
    ensures
        r == valid_utf8(b@),
{
    std::str::from_utf8(b).is_ok()
}

proof fn lemma_tally_bound(ks: Seq<LineKind>, k: LineKind)
    ensures
        tally(ks, k) <= ks.len(),
    decreases ks.len(),
{
    if ks.len() > 0 {
        lemma_tally_bound(ks.drop_last(), k);
    }
}

/// The three kinds together account for every line.
pub proof fn lemma_tally_sum(ks: Seq<LineKind>)
    ensures
        tally(ks, LineKind::Code) + tally(ks, LineKind::Blank) + tally(ks, LineKind::Comment)
            == ks.len(),
    decreases ks.len(),
{
    if ks.len() > 0 {
        lemma_tally_sum(ks.drop_last());
    }
}

/// A line marker held as a byte slice, as a sequence.
pub open spec fn marker_view(single: Option<&[u8]>) -> Option<Seq<u8>> {
    match single {
        Some(m) => Some(m@),
        None => None,
    }
}

/// Block delimiters held as byte slices, as sequences.
pub open spec fn delimiter_view(multi: Option<(&[u8], &[u8])>) -> Option<(Seq<u8>, Seq<u8>)> {
    match multi {
        Some(d) => Some((d.0@, d.1@)),
        None => None,
    }
}

/// Walks a trimmed line through its block delimiters `st` and `en`.
pub fn scan_line(s: &[u8], st: &[u8], en: &[u8], inside: bool) -> (r: (bool, bool))
    ensures
        r == scan(s@, st@, en@, 0, inside, false),
{
    let len = s.len();
    let mut pos: usize = 0;
    let mut ins = inside;
    let mut found = false;
    while pos < len
        invariant
            pos <= len,
            len == s@.len(),
            scan(s@, st@, en@, pos as int, ins, found) == scan(s@, st@, en@, 0, inside, false),
        decreases len - pos,
    {
        if !ins && st.len() > 0 && matches_at(s, st, pos) {
            pos = pos + st.len();
            ins = true;
        } else if ins && en.len() > 0 && matches_at(s, en, pos) {
            pos = pos + en.len();
            ins = false;
        } else if !ins && boundary(s, pos) && space_len_at(s, pos) == 0 {
            pos = pos + 1;
            found = true;
        } else {
            pos = pos + 1;
        }
    }
    (ins, found)
}

/// What one raw line counts as, and the block-comment state after it.
pub fn line_kind(
    raw: &[u8],
    single: Option<&[u8]>,
    multi: Option<(&[u8], &[u8])>,
    inside: bool,
) -> (r: (LineKind, bool))
    ensures
        r == classify_line(raw@, marker_view(single), delimiter_view(multi), inside),
{
    let (lo, hi) = trim_range(raw);
    let line = slice_subrange(raw, lo, hi);
    assert(line@ == trimmed(raw@));
    if line.len() == 0 {
        return (LineKind::Blank, inside);
    }
    if let Some(m) = single {
        if !inside && starts_with_bytes(line, m) {
            match multi {
                Some((multi_start, _)) => {
                    if !starts_with_bytes(line, multi_start) {
                        return (LineKind::Comment, inside);
                    }
                },
                None => {
                    return (LineKind::Comment, inside);
                },
            }
        }
    }
    let (multi_start, multi_end) = match multi {
        Some(d) => d,
        None => {
            return (LineKind::Code, inside);
        },
    };
    if !(contains_bytes(line, multi_start) || contains_bytes(line, multi_end)) {
        if inside {
            return (LineKind::Comment, inside);
        } else {
            return (LineKind::Code, inside);
        }
    }
    let (ins, found_code) = scan_line(line, multi_start, multi_end, inside);
    if found_code {
        (LineKind::Code, ins)
    } else {
        (LineKind::Comment, ins)
    }
}

/// Counts the code, comment and blank lines of a file's bytes for a language
/// with the line marker `single` and the block delimiters `multi`. A file
/// with a line that is not UTF-8 counts as all zero.
pub fn count_normal(bytes: &[u8], single: Option<&str>, multi: Option<(&str, &str)>) -> (r: Count)
    requires
        lines_of(bytes@).len() <= u32::MAX,
    ensures
        r == count_of(bytes@, marker_bytes(single), delimiter_bytes(multi)),
        is_consistent(r),
{
    let single_b: Option<&[u8]> = match single {
        Some(m) => Some(m.as_bytes()),
        None => None,
    };
    let multi_b: Option<(&[u8], &[u8])> = match multi {
        Some((a, b)) => Some((a.as_bytes(), b.as_bytes())),
        None => None,
    };
    let ghost sm = marker_bytes(single);
    let ghost mm = delimiter_bytes(multi);
    assert(marker_view(single_b) == sm);
    assert(delimiter_view(multi_b) == mm);
    let ghost all = lines_of(bytes@);
    let mut it = ByteLines(bytes).lines();
    let mut count = Count::default();
    let mut in_comment = false;
    let ghost mut done: Seq<Seq<u8>> = seq![];
    let ghost mut kinds: Seq<LineKind> = seq![];
    assert(done + it.remaining() =~= all);
    assert(kinds + classify_all(it.remaining(), sm, mm, in_comment) =~= classify_all(all, sm, mm, false));
    loop
        invariant
            it.buf == bytes,
            it.pos <= bytes@.len(),
            all == lines_of(bytes@),
            all.len() <= u32::MAX,
            marker_view(single_b) == sm,
            delimiter_view(multi_b) == mm,
            done + it.remaining() == all,
            all_utf8(done),
            kinds.len() == done.len(),
            kinds + classify_all(it.remaining(), sm, mm, in_comment) == classify_all(all, sm, mm, false),
            count.code == tally(kinds, LineKind::Code),
            count.blank == tally(kinds, LineKind::Blank),
            count.comments == tally(kinds, LineKind::Comment),
            count.total == kinds.len(),
        ensures
            done == all,
            all_utf8(done),
            kinds == classify_all(all, sm, mm, false),
            count.code == tally(kinds, LineKind::Code),
            count.blank == tally(kinds, LineKind::Blank),
            count.comments == tally(kinds, LineKind::Comment),
            count.total == kinds.len(),
        decreases bytes@.len() - it.pos,
    {
        let ghost rem = it.remaining();
        match it.next() {
            None => {
                assert(done =~= all);
                assert(kinds =~= classify_all(all, sm, mm, false));
                break;
            },
            Some(line) => {
                assert(all[done.len() as int] == line@) by {
                    assert((done + rem)[done.len() as int] == rem[0]);
                }
                if !is_utf8(line) {
                    assert(!all_utf8(all));
                    return Count::default();
                }
                let (k, ins) = line_kind(line, single_b, multi_b, in_comment);
                proof {
                    assert(rem.drop_first() =~= it.remaining());
                    assert(done.len() + 1 + it.remaining().len() == all.len()) by {
                        assert((done + rem).len() == all.len());
                    }
                    lemma_tally_bound(kinds, LineKind::Code);
                    lemma_tally_bound(kinds, LineKind::Blank);
                    lemma_tally_bound(kinds, LineKind::Comment);
                    assert(kinds.push(k).drop_last() =~= kinds);
                }
                count.total = count.total + 1;
                match k {
                    LineKind::Blank => count.blank = count.blank + 1,
                    LineKind::Comment => count.comments = count.comments + 1,
                    LineKind::Code => count.code = count.code + 1,
                }
                proof {
                    assert((kinds.push(k)) + classify_all(it.remaining(), sm, mm, ins) =~= kinds
                        + classify_all(rem, sm, mm, in_comment));
                    assert(done.push(line@) + it.remaining() =~= done + rem);
                    done = done.push(line@);
                    kinds = kinds.push(k);
                }
                in_comment = ins;
            },
        }
    }
    proof {
        lemma_tally_sum(kinds);
    }
    count
}

/// The tally of a file's bytes in the comment syntax of `l`.
pub open spec fn count_for(buf: Seq<u8>, l: Language) -> Count {
    count_of(buf, profile_marker(l), profile_delimiters(l))
}

/// Counts a file's bytes in the comment syntax of `language`.
pub fn count_in(bytes: &[u8], language: Language) -> (r: Count)
    requires
        lines_of(bytes@).len() <= u32::MAX,
    ensures
        r == count_for(bytes@, language),
        is_consistent(r),
{
    match get_language_config(&language) {
        LineConfig::Normal { single, multi } => count_normal(bytes, single, multi),
        LineConfig::Everything { singles, multis } => count_everything(
            bytes,
            singles.as_slice(),
            multis.as_slice(),
        ),
    }
}

/// Counts a file in the language that its path names; `None` when the path
/// has no file name.
pub fn count(filepath: &str, bytes: &[u8]) -> (r: Option<Count>)
    requires
        lines_of(bytes@).len() <= u32::MAX,
    ensures
        match language_of_path(filepath@) {
            None => r == Option::<Count>::None,
            Some(l) => r == Some(count_for(bytes@, l)),
        },
        match r {
            Some(c) => is_consistent(c),
            None => true,
        },
{
    match get_language(filepath) {
        Some(language) => Some(count_in(bytes, language)),
        None => None,
    }
}

/// Comment lines found by one run per line marker in `ms`, summed.
pub open spec fn comments_by_markers(buf: Seq<u8>, ms: Seq<&str>) -> nat
    decreases ms.len(),
{
    if ms.len() == 0 {
        0
    } else {
        comments_by_markers(buf, ms.drop_last()) + count_of(
            buf,
            Some(ms.last().spec_bytes()),
            None,
        ).comments as nat
    }
}

/// Comment lines found by one run per pair of block delimiters in `ds`,
/// summed.
pub open spec fn comments_by_delimiters(buf: Seq<u8>, ds: Seq<(&str, &str)>) -> nat
    decreases ds.len(),
{
    if ds.len() == 0 {
        0
    } else {
        comments_by_delimiters(buf, ds.drop_last()) + count_of(
            buf,
            None,
            Some((ds.last().0.spec_bytes(), ds.last().1.spec_bytes())),
        ).comments as nat
    }
}

/// The tally for a language with several line markers and block delimiter
/// pairs: lines and blank lines as counted without comment syntax; the
/// comment lines that each marker and each pair finds on its own, summed,
/// and at most the non-blank lines; code the non-blank lines left.
pub open spec fn count_everything_of(
    buf: Seq<u8>,
    singles: Seq<&str>,
    multis: Seq<(&str, &str)>,
) -> Count {
    let base = count_of(buf, None, None);
    let room = base.total - base.blank;
    let found: int = (comments_by_markers(buf, singles) + comments_by_delimiters(buf, multis)) as int;
    let comments: int = if found <= room {
        found
    } else {
        room
    };
    Count {
        code: (room - comments) as u32,
        blank: base.blank,
        comments: comments as u32,
        total: base.total,
    }
}

/// Counts a file's bytes for a language with several line markers and block
/// delimiter pairs, without counting a line twice.
pub fn count_everything(bytes: &[u8], singles: &[&str], multis: &[(&str, &str)]) -> (r: Count)
    requires
        lines_of(bytes@).len() <= u32::MAX,
    ensures
        r == count_everything_of(bytes@, singles@, multis@),
        is_consistent(r),
{
    let base = count_normal(bytes, None, None);
    let room: u32 = base.total - base.blank;
    let mut found: u32 = 0;
    let mut i: usize = 0;
    while i < singles.len()
        invariant
            i <= singles@.len(),
            lines_of(bytes@).len() <= u32::MAX,
            found == if comments_by_markers(bytes@, singles@.take(i as int)) <= room {
                comments_by_markers(bytes@, singles@.take(i as int))
            } else {
                room as nat
            },
        decreases singles@.len() - i,
    {
        let c = count_normal(bytes, Some(singles[i]), None);
        assert(singles@.take(i + 1).drop_last() =~= singles@.take(i as int));
        let sum: u64 = found as u64 + c.comments as u64;
        found = if sum <= room as u64 {
            sum as u32
        } else {
            room
        };
        i = i + 1;
    }
    assert(singles@.take(i as int) =~= singles@);
    let mut j: usize = 0;
    while j < multis.len()
        invariant
            j <= multis@.len(),
            lines_of(bytes@).len() <= u32::MAX,
            found == if comments_by_markers(bytes@, singles@) + comments_by_delimiters(
                bytes@,
                multis@.take(j as int),
            ) <= room {
                comments_by_markers(bytes@, singles@) + comments_by_delimiters(
                    bytes@,
                    multis@.take(j as int),
                )
            } else {
                room as nat
            },
        decreases multis@.len() - j,
    {
        let c = count_normal(bytes, None, Some(multis[j]));
        assert(multis@.take(j + 1).drop_last() =~= multis@.take(j as int));
        let sum: u64 = found as u64 + c.comments as u64;
        found = if sum <= room as u64 {
            sum as u32
        } else {
            room
        };
        j = j + 1;
    }
    assert(multis@.take(j as int) =~= multis@);
    Count { code: room - found, blank: base.blank, comments: found, total: base.total }
}

proof fn lemma_spaces_trim_away(s: Seq<u8>, i: int)
    requires
        0 <= i <= s.len(),
        forall|m: int| 0 <= m < s.len() ==> s[m] == 32u8 || s[m] == 9u8,
    ensures
        trim_lo(s, i) == s.len(),
    decreases s.len() - i,
{
    if i < s.len() {
        lemma_spaces_trim_away(s, i + 1);
    }
}

/// A line of nothing but spaces and tabs is blank, whatever the comment
/// syntax and the block-comment state, and leaves that state as it was.
pub proof fn lemma_space_line_is_blank(
    line: Seq<u8>,
    single: Option<Seq<u8>>,
    multi: Option<(Seq<u8>, Seq<u8>)>,
    inside: bool,
)
    requires
        forall|m: int| 0 <= m < line.len() ==> line[m] == 32u8 || line[m] == 9u8,
    ensures
        classify_line(line, single, multi, inside) == (LineKind::Blank, inside),
{
    lemma_spaces_trim_away(line, 0);
    assert(trimmed(line).len() == 0);
}

proof fn lemma_state_kept(lines: Seq<Seq<u8>>, single: Option<Seq<u8>>, inside: bool)
    ensures
        state_after(lines, single, None, inside) == inside,
    decreases lines.len(),
{
    if lines.len() > 0 {
        lemma_state_kept(lines.drop_first(), single, inside);
    }
}

/// In a language without block delimiters no line is ever read inside a
/// block comment: after every prefix of a file the state is still outside.
pub proof fn lemma_no_delimiters_never_inside(l: Language, lines: Seq<Seq<u8>>)
    requires
        profile_delimiters(l) == Option::<(Seq<u8>, Seq<u8>)>::None,
    ensures
        forall|i: int|
            0 <= i <= lines.len() ==> !#[trigger] state_after(
                lines.take(i),
                profile_marker(l),
                None,
                false,
            ),
{
    assert forall|i: int| 0 <= i <= lines.len() implies !#[trigger] state_after(
        lines.take(i),
        profile_marker(l),
        None,
        false,
    ) by {
        lemma_state_kept(lines.take(i), profile_marker(l), false);
    }
}

proof fn lemma_classify_len(
    lines: Seq<Seq<u8>>,
    single: Option<Seq<u8>>,
    multi: Option<(Seq<u8>, Seq<u8>)>,
    inside: bool,
)
    ensures
        classify_all(lines, single, multi, inside).len() == lines.len(),
    decreases lines.len(),
{
    if lines.len() > 0 {
        let r = classify_line(lines[0], single, multi, inside);
        lemma_classify_len(lines.drop_first(), single, multi, r.1);
    }
}

/// Every tally of a file's bytes with fewer than 2^32 lines gives each line
/// exactly one kind:
/// `total == code + blank + comments`.
pub proof fn lemma_count_consistent(
    buf: Seq<u8>,
    single: Option<Seq<u8>>,
    multi: Option<(Seq<u8>, Seq<u8>)>,
)
    requires
        lines_of(buf).len() <= u32::MAX,
    ensures
        is_consistent(count_of(buf, single, multi)),
{
    let ks = classify_all(lines_of(buf), single, multi, false);
    lemma_classify_len(lines_of(buf), single, multi, false);
    lemma_tally_sum(ks);
}

proof fn lemma_tally_prepend(k: LineKind, rest: Seq<LineKind>, kind: LineKind)
    ensures
        tally(seq![k] + rest, kind) == tally(rest, kind) + if k == kind {
            1nat
        } else {
            0nat
        },
    decreases rest.len(),
{
    if rest.len() > 0 {
        assert((seq![k] + rest).drop_last() =~= seq![k] + rest.drop_last());
        assert((seq![k] + rest).last() == rest.last());
        lemma_tally_prepend(k, rest.drop_last(), kind);
    } else {
        assert((seq![k] + rest).drop_last() =~= Seq::<LineKind>::empty());
        assert((seq![k] + rest).last() == k);
        assert(tally(Seq::<LineKind>::empty(), kind) == 0);
    }
}

/// How many of `lines` are nothing but whitespace.
pub open spec fn blank_lines(lines: Seq<Seq<u8>>) -> nat
    decreases lines.len(),
{
    if lines.len() == 0 {
        0
    } else {
        blank_lines(lines.drop_first()) + if trimmed(lines[0]).len() == 0 {
            1nat
        } else {
            0nat
        }
    }
}

proof fn lemma_blank_tally(
    lines: Seq<Seq<u8>>,
    single: Option<Seq<u8>>,
    multi: Option<(Seq<u8>, Seq<u8>)>,
    inside: bool,
)
    ensures
        tally(classify_all(lines, single, multi, inside), LineKind::Blank) == blank_lines(lines),
    decreases lines.len(),
{
    if lines.len() > 0 {
        let r = classify_line(lines[0], single, multi, inside);
        lemma_blank_tally(lines.drop_first(), single, multi, r.1);
        lemma_tally_prepend(r.0, classify_all(lines.drop_first(), single, multi, r.1), LineKind::Blank);
    }
}

/// The blank lines of a readable file are exactly its whitespace-only lines,
/// whatever the comment syntax and wherever block comments stand.
pub proof fn lemma_blank_lines_counted(
    buf: Seq<u8>,
    single: Option<Seq<u8>>,
    multi: Option<(Seq<u8>, Seq<u8>)>,
)
    requires
        all_utf8(lines_of(buf)),
        lines_of(buf).len() <= u32::MAX,
    ensures
        count_of(buf, single, multi).blank == blank_lines(lines_of(buf)),
{
    let ks = classify_all(lines_of(buf), single, multi, false);
    lemma_blank_tally(lines_of(buf), single, multi, false);
    lemma_classify_len(lines_of(buf), single, multi, false);
    lemma_tally_bound(ks, LineKind::Blank);
}

/// What a line counts as when there are no block delimiters: blank if only
/// whitespace, a comment if it starts with the marker once trimmed, code
/// otherwise.
pub open spec fn plain_kind(line: Seq<u8>, single: Option<Seq<u8>>) -> LineKind {
    if trimmed(line).len() == 0 {
        LineKind::Blank
    } else if single is Some && starts_with(trimmed(line), single->0) {
        LineKind::Comment
    } else {
        LineKind::Code
    }
}

/// How many of `lines` count as `kind` on their own, with no block
/// delimiters.
pub open spec fn plain_lines(lines: Seq<Seq<u8>>, single: Option<Seq<u8>>, kind: LineKind) -> nat
    decreases lines.len(),
{
    if lines.len() == 0 {
        0
    } else {
        plain_lines(lines.drop_first(), single, kind) + if plain_kind(lines[0], single) == kind {
            1nat
        } else {
            0nat
        }
    }
}

proof fn lemma_plain_tally(lines: Seq<Seq<u8>>, single: Option<Seq<u8>>, kind: LineKind)
    ensures
        tally(classify_all(lines, single, None, false), kind) == plain_lines(lines, single, kind),
    decreases lines.len(),
{
    if lines.len() > 0 {
        let r = classify_line(lines[0], single, None, false);
        assert(r == (plain_kind(lines[0], single), false));
        lemma_plain_tally(lines.drop_first(), single, kind);
        lemma_tally_prepend(r.0, classify_all(lines.drop_first(), single, None, false), kind);
    }
}

/// Without block delimiters each line of a readable file is classified on
/// its own: the comment lines are those that start with the marker once
/// trimmed, the code lines the other non-blank ones.
pub proof fn lemma_no_delimiters_counted(buf: Seq<u8>, single: Option<Seq<u8>>)
    requires
        all_utf8(lines_of(buf)),
        lines_of(buf).len() <= u32::MAX,
    ensures
        count_of(buf, single, None).comments == plain_lines(lines_of(buf), single, LineKind::Comment),
        count_of(buf, single, None).code == plain_lines(lines_of(buf), single, LineKind::Code),
        count_of(buf, single, None).blank == plain_lines(lines_of(buf), single, LineKind::Blank),
{
    let ks = classify_all(lines_of(buf), single, None, false);
    lemma_classify_len(lines_of(buf), single, None, false);
    lemma_plain_tally(lines_of(buf), single, LineKind::Comment);
    lemma_plain_tally(lines_of(buf), single, LineKind::Code);
    lemma_plain_tally(lines_of(buf), single, LineKind::Blank);
    lemma_tally_bound(ks, LineKind::Comment);
    lemma_tally_bound(ks, LineKind::Code);
    lemma_tally_bound(ks, LineKind::Blank);
}

} // verus!
