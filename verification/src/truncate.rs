//! Width-bounded truncation of matched lines.
//!
//! A matched line whose last matched position lies beyond the display window
//! would be shown with its matches invisible.  Truncation cuts a prefix of the
//! line, replaces it with an ellipsis marker, and shifts the matched positions
//! so that they keep pointing at the same logical characters inside the
//! shortened text.  All positions and cuts are in characters, never raw bytes,
//! so multi-byte text is never sliced apart.

use vstd::prelude::*;

use crate::truncmap::LinesTruncatedMap;

verus! {

/// The ellipsis marker put where the line was cut.
pub open spec fn dots() -> Seq<char> {
    seq!['.', '.', '.']
}

/// Matched positions are strictly increasing character offsets inside the text.
pub open spec fn indices_valid(text: Seq<char>, indices: Seq<usize>) -> bool {
    &&& forall|i: int, j: int| 0 <= i < j < indices.len() ==> indices[i] < indices[j]
    &&& forall|i: int| 0 <= i < indices.len() ==> indices[i] < text.len()
}

/// A line needs truncation when its last matched position falls beyond the
/// display window.
pub open spec fn trunc_needed(indices: Seq<usize>, winwidth: usize) -> bool {
    indices.len() > 0 && indices.last() > winwidth
}

/// First guess for the cut position: the smallest start that brings the last
/// match into the window, unless that would cut into the matched span, in
/// which case the window is anchored at the first match instead.
pub open spec fn start_guess(indices: Seq<usize>, winwidth: usize) -> int {
    let last = indices.last() as int;
    let first = indices[0] as int;
    let s0 = last - winwidth;
    if s0 >= first || (indices.len() > 1 && last - s0 > winwidth) {
        first
    } else {
        s0
    }
}

/// One rightward nudge of the cut, making room for the ellipsis marker while
/// there is slack before the first match and the remaining text still fills
/// the window.
pub open spec fn dots_nudge(s: int, first: int, len: int, winwidth: usize) -> int {
    if first - s >= dots().len() && len - s >= winwidth {
        s + dots().len()
    } else {
        s
    }
}

/// The character offset at which the line is cut: the anchored guess, nudged
/// up to three times for the ellipsis marker, then moved right by the length
/// of the text after the last match when that trailing part is shorter than
/// the slack left before the first match.
pub open spec fn trunc_start(text: Seq<char>, indices: Seq<usize>, winwidth: usize) -> int {
    let len = text.len() as int;
    let last = indices.last() as int;
    let first = indices[0] as int;
    let s1 = start_guess(indices, winwidth);
    let s2 = dots_nudge(dots_nudge(dots_nudge(s1, first, len, winwidth), first, len, winwidth),
        first, len, winwidth);
    if len - last < first - s2 {
        s2 + (len - last)
    } else {
        s2
    }
}

/// The width of the fixed leading prefix that is kept verbatim, zero when none
/// was asked for.
pub open spec fn sp_of(starting_point: Option<usize>) -> int {
    match starting_point {
        Some(n) => n as int,
        None => 0,
    }
}

/// Whether the line is actually cut.  Besides needing truncation, the cut must
/// shrink the line (the cut prefix must be at least as long as the ellipsis
/// marker) and the kept tail must start inside the text even after skipping
/// the fixed leading prefix.
pub open spec fn line_truncates(
    text: Seq<char>,
    indices: Seq<usize>,
    winwidth: usize,
    sp: int,
) -> bool {
    &&& trunc_needed(indices, winwidth)
    &&& trunc_start(text, indices, winwidth) >= dots().len()
    &&& trunc_start(text, indices, winwidth) + sp <= text.len()
}

/// The shortened text: the fixed leading prefix verbatim, the ellipsis
/// marker, then everything from the cut to the end of the line.
pub open spec fn truncated_text(
    text: Seq<char>,
    indices: Seq<usize>,
    winwidth: usize,
    sp: int,
) -> Seq<char> {
    let s = trunc_start(text, indices, winwidth);
    text.subrange(0, sp) + dots() + text.subrange(s + sp, text.len() as int)
}

/// How far every matched position moves left: the number of characters the
/// line shrank by.
pub open spec fn trunc_offset(text: Seq<char>, indices: Seq<usize>, winwidth: usize) -> int {
    trunc_start(text, indices, winwidth) - dots().len()
}

/// The matched positions relative to the shortened text.
pub open spec fn truncated_indices(
    text: Seq<char>,
    indices: Seq<usize>,
    winwidth: usize,
) -> Seq<usize> {
    let off = trunc_offset(text, indices, winwidth);
    indices.map_values(|x: usize| (x - off) as usize)
}

/// What one line becomes: either the line untouched, or its shortened text
/// with the shifted matched positions.
pub open spec fn line_output(
    text: Seq<char>,
    indices: Seq<usize>,
    winwidth: usize,
    sp: int,
) -> (Seq<char>, Seq<usize>) {
    if line_truncates(text, indices, winwidth, sp) {
        (truncated_text(text, indices, winwidth, sp), truncated_indices(text, indices, winwidth))
    } else {
        (text, indices)
    }
}

/// The text and matched positions of each line, dropping the payloads.
pub open spec fn lines_views<T>(lines: Seq<(String, T, Vec<usize>)>) -> Seq<
    (Seq<char>, Seq<usize>),
> {
    lines.map_values(|l: (String, T, Vec<usize>)| (l.0@, l.2@))
}

/// The reverse mapping the whole batch records: one entry per line that was
/// cut, from its shortened text to its original text, later lines overwriting
/// earlier ones whose cut text collides.
pub open spec fn truncated_map_of(
    lines: Seq<(Seq<char>, Seq<usize>)>,
    winwidth: usize,
    sp: int,
) -> Map<Seq<char>, Seq<char>>
    decreases lines.len(),
{
    if lines.len() == 0 {
        Map::empty()
    } else {
        let prev = truncated_map_of(lines.drop_last(), winwidth, sp);
        let l = lines.last();
        if line_truncates(l.0, l.1, winwidth, sp) {
            prev.insert(truncated_text(l.0, l.1, winwidth, sp), l.0)
        } else {
            prev
        }
    }
}

/// The cut never reaches past the first matched position.
proof fn lemma_trunc_start_le_first(text: Seq<char>, indices: Seq<usize>, winwidth: usize)
    requires
        indices_valid(text, indices),
        trunc_needed(indices, winwidth),
    ensures
        trunc_start(text, indices, winwidth) <= indices[0],
{
    let len = text.len() as int;
    let last = indices.last() as int;
    let first = indices[0] as int;
    assert(last < len);
    let s1 = start_guess(indices, winwidth);
    assert(s1 <= first);
    let s2 = dots_nudge(dots_nudge(dots_nudge(s1, first, len, winwidth), first, len, winwidth),
        first, len, winwidth);
    assert(s2 <= first);
}

/// A line with no matched positions is passed through untouched and records
/// no reverse-mapping entry.
pub proof fn lemma_no_indices_line_unchanged(
    text: Seq<char>,
    indices: Seq<usize>,
    winwidth: usize,
    sp: int,
)
    requires
        indices.len() == 0,
    ensures
        !line_truncates(text, indices, winwidth, sp),
        line_output(text, indices, winwidth, sp) == (text, indices),
{
}

/// A line whose matched positions all lie inside the window is passed
/// through untouched.
pub proof fn lemma_fitting_line_unchanged(
    text: Seq<char>,
    indices: Seq<usize>,
    winwidth: usize,
    sp: int,
)
    requires
        forall|i: int| 0 <= i < indices.len() ==> indices[i] <= winwidth,
    ensures
        !line_truncates(text, indices, winwidth, sp),
        line_output(text, indices, winwidth, sp) == (text, indices),
{
    if indices.len() > 0 {
        assert(indices[indices.len() - 1] <= winwidth);
    }
}

/// Truncation never lengthens a line: the output text is at most as long as
/// the original, and so in particular never longer than the larger of the
/// original length and the window budget plus the marker and prefix overhead.
pub proof fn lemma_output_no_longer(text: Seq<char>, indices: Seq<usize>, winwidth: usize, sp: int)
    requires
        indices_valid(text, indices),
        sp >= 0,
    ensures
        line_output(text, indices, winwidth, sp).0.len() <= text.len(),
        line_output(text, indices, winwidth, sp).0.len() <= vstd::math::max(
            winwidth + dots().len() + sp,
            text.len() as int,
        ),
{
    if line_truncates(text, indices, winwidth, sp) {
        lemma_trunc_start_le_first(text, indices, winwidth);
        let s = trunc_start(text, indices, winwidth);
        assert(truncated_text(text, indices, winwidth, sp).len() == sp + 3 + (text.len() - s
            - sp));
    }
}

/// Round trip: every key in the reverse mapping is the shortened text of some
/// input line, and looking it up yields exactly that line's original text.
pub proof fn lemma_truncated_map_round_trip(
    lines: Seq<(Seq<char>, Seq<usize>)>,
    winwidth: usize,
    sp: int,
)
    ensures
        forall|t: Seq<char>| #[trigger]
            truncated_map_of(lines, winwidth, sp).dom().contains(t) ==> exists|i: int|
                0 <= i < lines.len() && #[trigger] line_truncates(
                    lines[i].0,
                    lines[i].1,
                    winwidth,
                    sp,
                ) && truncated_text(lines[i].0, lines[i].1, winwidth, sp) == t
                    && truncated_map_of(lines, winwidth, sp)[t] == lines[i].0,
    decreases lines.len(),
{
    if lines.len() > 0 {
        lemma_truncated_map_round_trip(lines.drop_last(), winwidth, sp);
        let m = truncated_map_of(lines, winwidth, sp);
        let prev = truncated_map_of(lines.drop_last(), winwidth, sp);
        let l = lines.last();
        let n = lines.len() - 1;
        assert forall|t: Seq<char>| #[trigger] m.dom().contains(t) implies exists|i: int|
            0 <= i < lines.len() && #[trigger] line_truncates(
                lines[i].0,
                lines[i].1,
                winwidth,
                sp,
            ) && truncated_text(lines[i].0, lines[i].1, winwidth, sp) == t && m[t]
                == lines[i].0 by {
            if line_truncates(l.0, l.1, winwidth, sp) && t == truncated_text(
                l.0,
                l.1,
                winwidth,
                sp,
            ) {
                assert(lines[n] == l);
                assert(0 <= n < lines.len() && line_truncates(lines[n].0, lines[n].1, winwidth, sp)
                    && truncated_text(lines[n].0, lines[n].1, winwidth, sp) == t && m[t]
                    == lines[n].0);
            } else {
                assert(prev.dom().contains(t));
                let w = choose|i: int|
                    0 <= i < lines.drop_last().len() && #[trigger] line_truncates(
                        lines.drop_last()[i].0,
                        lines.drop_last()[i].1,
                        winwidth,
                        sp,
                    ) && truncated_text(
                        lines.drop_last()[i].0,
                        lines.drop_last()[i].1,
                        winwidth,
                        sp,
                    ) == t && prev[t] == lines.drop_last()[i].0;
                assert(lines.drop_last()[w] == lines[w]);
                assert(m[t] == prev[t]);
                assert(0 <= w < lines.len() && line_truncates(lines[w].0, lines[w].1, winwidth, sp)
                    && truncated_text(lines[w].0, lines[w].1, winwidth, sp) == t && m[t]
                    == lines[w].0);
            }
        }
    }
}

/// When no line of the batch is cut, the reverse mapping is empty.
pub proof fn lemma_no_cuts_empty_map(lines: Seq<(Seq<char>, Seq<usize>)>, winwidth: usize, sp: int)
    requires
        forall|i: int|
            0 <= i < lines.len() ==> !line_truncates(lines[i].0, lines[i].1, winwidth, sp),
    ensures
        truncated_map_of(lines, winwidth, sp) == Map::<Seq<char>, Seq<char>>::empty(),
    decreases lines.len(),
{
    if lines.len() > 0 {
        assert forall|i: int| 0 <= i < lines.drop_last().len() implies !line_truncates(
            lines.drop_last()[i].0,
            lines.drop_last()[i].1,
            winwidth,
            sp,
        ) by {
            assert(lines.drop_last()[i] == lines[i]);
        }
        lemma_no_cuts_empty_map(lines.drop_last(), winwidth, sp);
        assert(!line_truncates(lines[lines.len() - 1].0, lines[lines.len() - 1].1, winwidth, sp));
    }
}

/// A shifted matched position points at the very character the original
/// position pointed at, for every match at or past the cut (with no fixed
/// prefix that is every match, since the cut never passes the first one).
pub proof fn lemma_matches_stay_visible(
    text: Seq<char>,
    indices: Seq<usize>,
    winwidth: usize,
    sp: int,
)
    requires
        indices_valid(text, indices),
        line_truncates(text, indices, winwidth, sp),
        sp >= 0,
    ensures
        forall|j: int|
            0 <= j < indices.len() && indices[j] >= trunc_start(text, indices, winwidth) + sp
                ==> truncated_text(text, indices, winwidth, sp)[#[trigger] truncated_indices(
                text,
                indices,
                winwidth,
            )[j] as int] == text[indices[j] as int],
        sp == 0 ==> forall|j: int|
            0 <= j < indices.len() ==> truncated_text(text, indices, winwidth, sp)[
            #[trigger] truncated_indices(text, indices, winwidth)[j] as int] == text[
            indices[j] as int],
{
    lemma_trunc_start_le_first(text, indices, winwidth);
    let s = trunc_start(text, indices, winwidth);
    let off = trunc_offset(text, indices, winwidth);
    let t = truncated_text(text, indices, winwidth, sp);
    let ti = truncated_indices(text, indices, winwidth);
    assert forall|j: int|
        0 <= j < indices.len() && indices[j] >= s + sp implies t[
        #[trigger] ti[j] as int] == text[indices[j] as int] by {
        let idx = indices[j] as int;
        assert(indices[0] <= indices[j]) by {
            if j > 0 {
                assert(indices[0] < indices[j]);
            }
        }
        assert(ti[j] == idx - off);
        assert(idx - off >= sp + 3);
        assert(idx - off < t.len());
        assert(t[idx - off] == text.subrange(s + sp, text.len() as int)[idx - off - sp - 3]);
        assert(t[idx - off] == text[idx]);
    }
    if sp == 0 {
        assert forall|j: int| 0 <= j < indices.len() implies indices[j] >= s + sp by {
            assert(indices[0] <= indices[j]) by {
                if j > 0 {
                    assert(indices[0] < indices[j]);
                }
            }
        }
    }
}

/// Idempotence for one line: truncating an already-truncated line again,
/// with the same window and prefix width, changes nothing.
pub proof fn lemma_line_output_idempotent(
    text: Seq<char>,
    indices: Seq<usize>,
    winwidth: usize,
    sp: int,
)
    requires
        indices_valid(text, indices),
        sp >= 0,
    ensures
        ({
            let o = line_output(text, indices, winwidth, sp);
            line_output(o.0, o.1, winwidth, sp) == o
        }),
{
    if line_truncates(text, indices, winwidth, sp) {
        lemma_trunc_start_le_first(text, indices, winwidth);
        let len = text.len() as int;
        let last = indices.last() as int;
        let first = indices[0] as int;
        let s = trunc_start(text, indices, winwidth);
        let off = s - 3;
        let pre = text.subrange(0, sp);
        let tail = text.subrange(s + sp, len);
        let t1 = truncated_text(text, indices, winwidth, sp);
        let i1 = truncated_indices(text, indices, winwidth);
        assert(t1.len() == len - off);
        assert(i1.len() == indices.len());
        assert(i1.last() == last - off);
        assert(i1[0] == first - off);
        assert(indices_valid(t1, i1));
        if i1.last() > winwidth {
            // The matched span itself overflows the window: the second pass
            // cuts again, at exactly the marker's length, rebuilding the same
            // line.
            let s0 = last - winwidth;
            let a = s - s0;
            assert(last - off - winwidth == 3 - a);
            // The second pass never falls back to the first match unless the
            // first did, and then both anchor the same way.
            if s0 >= first {
                // First pass anchored at the first match; no nudge applied.
                assert(s == first);
                assert(i1[0] == 3);
            } else {
                assert(dots_nudge(s0, first, len, winwidth) == s0 || dots_nudge(
                    s0,
                    first,
                    len,
                    winwidth,
                ) == s0 + 3);
                assert(0 <= a < 3);
                assert(s == s0 || (len - last < first - s0 && s == s0 + (len - last)));
            }
            let g = 3 - a;
            assert(start_guess(i1, winwidth) == g || (s0 >= first && start_guess(i1, winwidth)
                == 3));
            let s2 = trunc_start(t1, i1, winwidth);
            assert(s2 == 3) by {
                if s0 >= first {
                    assert(start_guess(i1, winwidth) == 3);
                    assert(dots_nudge(3, first - off, len - off, winwidth) == 3);
                    assert(!(len - off - (last - off) < first - off - 3));
                } else {
                    assert(start_guess(i1, winwidth) == g);
                    assert(first - off - g == first - s0);
                    assert(len - off - g == len - s0);
                    assert(dots_nudge(g, first - off, len - off, winwidth) == g);
                    if len - last < first - s0 {
                        assert(a == len - last);
                        assert(s2 == g + (len - last));
                    } else {
                        assert(a == 0);
                        assert(s2 == g);
                    }
                }
            }
            assert(line_truncates(t1, i1, winwidth, sp));
            assert(t1.subrange(0, sp) =~= pre);
            assert(t1.subrange(3 + sp, t1.len() as int) =~= tail);
            assert(truncated_text(t1, i1, winwidth, sp) =~= t1);
            assert(truncated_indices(t1, i1, winwidth) =~= i1);
        }
    }
}

/// The text and positions a second run would produce for each line.
pub open spec fn outputs_of(
    lines: Seq<(Seq<char>, Seq<usize>)>,
    winwidth: usize,
    sp: int,
) -> Seq<(Seq<char>, Seq<usize>)> {
    lines.map_values(|l: (Seq<char>, Seq<usize>)| line_output(l.0, l.1, winwidth, sp))
}

/// Idempotence for a whole batch: feeding truncated output back in with the
/// same window and prefix width returns every line unchanged.
pub proof fn lemma_truncate_idempotent(
    lines: Seq<(Seq<char>, Seq<usize>)>,
    winwidth: usize,
    sp: int,
)
    requires
        sp >= 0,
        forall|i: int| 0 <= i < lines.len() ==> indices_valid(lines[i].0, lines[i].1),
    ensures
        outputs_of(outputs_of(lines, winwidth, sp), winwidth, sp) == outputs_of(
            lines,
            winwidth,
            sp,
        ),
{
    let once = outputs_of(lines, winwidth, sp);
    assert forall|i: int| 0 <= i < once.len() implies #[trigger] line_output(
        once[i].0,
        once[i].1,
        winwidth,
        sp,
    ) == once[i] by {
        lemma_line_output_idempotent(lines[i].0, lines[i].1, winwidth, sp);
    }
    assert(outputs_of(once, winwidth, sp) =~= once);
}

/// Cuts one line if its last match lies beyond the window, returning the
/// (possibly shortened) text, the matched positions relative to it, and
/// whether a cut was made.
#[verifier::rlimit(50)]
fn truncate_line(line: String, indices: Vec<usize>, winwidth: usize, starting_point: Option<usize>)
    -> (r: (String, Vec<usize>, bool))
    requires
        indices_valid(line@, indices@),
    ensures
        r.2 == line_truncates(line@, indices@, winwidth, sp_of(starting_point)),
        r.0@ == line_output(line@, indices@, winwidth, sp_of(starting_point)).0,
        r.1@ == line_output(line@, indices@, winwidth, sp_of(starting_point)).1,
        indices_valid(r.0@, r.1@),
{
    let n = indices.len();
    if n == 0 {
        return (line, indices, false);
    }
    let last = indices[n - 1];
    proof {
        assert(indices@[n - 1] == indices@.last());
    }
    if last <= winwidth {
        return (line, indices, false);
    }
    let len = line.as_str().unicode_len();
    let first = indices[0];
    proof {
        assert(last < len);
        lemma_trunc_start_le_first(line@, indices@, winwidth);
    }
    let mut start: usize = last - winwidth;
    if start >= first || (n > 1 && last - start > winwidth) {
        start = first;
    }
    proof {
        assert(start == start_guess(indices@, winwidth));
        assert(start <= first);
    }
    if first - start >= 3 && len - start >= winwidth {
        start = start + 3;
    }
    if first - start >= 3 && len - start >= winwidth {
        start = start + 3;
    }
    if first - start >= 3 && len - start >= winwidth {
        start = start + 3;
    }
    let trailing = len - last;
    if trailing < first - start {
        start = start + trailing;
    }
    proof {
        assert(start == trunc_start(line@, indices@, winwidth));
        assert(start <= first);
    }
    if start < 3 {
        // The cut prefix would be shorter than the marker replacing it:
        // cutting would not shrink the line.  Keep it whole.
        return (line, indices, false);
    }
    let sp: usize = match starting_point {
        Some(p) => p,
        None => 0,
    };
    if sp > len - start {
        // The fixed leading prefix would reach past the cut tail.
        return (line, indices, false);
    }
    proof {
        assert(line_truncates(line@, indices@, winwidth, sp_of(starting_point)));
    }
    let prefix = line.as_str().substring_char(0, sp);
    let tail = line.as_str().substring_char(start + sp, len);
    let mut truncated = String::from_str(prefix);
    truncated.append("...");
    truncated.append(tail);
    proof {
        reveal_strlit("...");
        assert("..."@ =~= dots());
        assert(truncated@ =~= truncated_text(line@, indices@, winwidth, sp_of(starting_point)));
        assert(truncated@.len() == line@.len() - start + 3);
    }
    let offset = start - 3;
    let mut shifted: Vec<usize> = Vec::new();
    let mut i: usize = 0;
    while i < n
        invariant
            n == indices@.len(),
            i <= n,
            shifted@.len() == i,
            offset <= first,
            first == indices@[0],
            indices_valid(line@, indices@),
            forall|j: int| 0 <= j < i ==> shifted@[j] == indices@[j] - offset,
        decreases n - i,
    {
        proof {
            if i > 0 {
                assert(indices@[0] < indices@[i as int]);
            }
        }
        shifted.push(indices[i] - offset);
        i = i + 1;
    }
    proof {
        assert(shifted@ =~= truncated_indices(line@, indices@, winwidth));
    }
    (truncated, shifted, true)
}

/// Shortens every matched line whose matches would fall outside the display
/// window, leaving all other lines untouched.
///
/// Returns the lines, in order and with their payloads unchanged, plus the
/// reverse mapping from each shortened text to the original it came from.
pub fn truncate_long_matched_lines<T>(
    lines: Vec<(String, T, Vec<usize>)>,
    winwidth: usize,
    starting_point: Option<usize>,
) -> (r: (Vec<(String, T, Vec<usize>)>, LinesTruncatedMap))
    requires
        forall|i: int| 0 <= i < lines@.len() ==> indices_valid(lines@[i].0@, lines@[i].2@),
    ensures
        r.0@.len() == lines@.len(),
        forall|i: int|
            0 <= i < lines@.len() ==> {
                &&& r.0@[i].0@ == line_output(
                    lines@[i].0@,
                    lines@[i].2@,
                    winwidth,
                    sp_of(starting_point),
                ).0
                &&& r.0@[i].1 == lines@[i].1
                &&& r.0@[i].2@ == line_output(
                    lines@[i].0@,
                    lines@[i].2@,
                    winwidth,
                    sp_of(starting_point),
                ).1
                &&& indices_valid(r.0@[i].0@, r.0@[i].2@)
            },
        r.1.wf(),
        r.1@ == truncated_map_of(lines_views(lines@), winwidth, sp_of(starting_point)),
{
    let ghost orig = lines@;
    let mut rest = lines;
    let total: usize = rest.len();
    let mut out: Vec<(String, T, Vec<usize>)> = Vec::new();
    let mut tmap = LinesTruncatedMap::new();
    let mut k: usize = 0;
    proof {
        assert(orig.subrange(0, 0) =~= Seq::<(String, T, Vec<usize>)>::empty());
        assert(lines_views(orig.subrange(0, 0)) =~= Seq::<(Seq<char>, Seq<usize>)>::empty());
        assert(rest@ =~= orig.subrange(0, orig.len() as int));
    }
    while rest.len() > 0
        invariant
            orig.len() == total,
            k + rest@.len() == orig.len(),
            rest@ == orig.subrange(k as int, orig.len() as int),
            out@.len() == k,
            forall|i: int|
                0 <= i < k ==> {
                    &&& out@[i].0@ == line_output(
                        orig[i].0@,
                        orig[i].2@,
                        winwidth,
                        sp_of(starting_point),
                    ).0
                    &&& out@[i].1 == orig[i].1
                    &&& out@[i].2@ == line_output(
                        orig[i].0@,
                        orig[i].2@,
                        winwidth,
                        sp_of(starting_point),
                    ).1
                    &&& indices_valid(out@[i].0@, out@[i].2@)
                },
            tmap.wf(),
            tmap@ == truncated_map_of(
                lines_views(orig.subrange(0, k as int)),
                winwidth,
                sp_of(starting_point),
            ),
            forall|i: int| 0 <= i < orig.len() ==> indices_valid(orig[i].0@, orig[i].2@),
        decreases rest@.len(),
    {
        let l = rest.remove(0);
        proof {
            assert(l == orig[k as int]);
            assert(rest@ =~= orig.subrange(k + 1, orig.len() as int));
            assert(indices_valid(orig[k as int].0@, orig[k as int].2@));
        }
        let (text, payload, idxs) = l;
        let original = text.clone();
        let (t, shifted, cut) = truncate_line(text, idxs, winwidth, starting_point);
        if cut {
            tmap.insert(t.clone(), original);
        }
        out.push((t, payload, shifted));
        proof {
            let ghost prefix = orig.subrange(0, k as int);
            let ghost prefix1 = orig.subrange(0, k + 1);
            assert(prefix1.drop_last() =~= prefix);
            assert(lines_views(prefix1).drop_last() =~= lines_views(prefix));
            assert(lines_views(prefix1).last() == (orig[k as int].0@, orig[k as int].2@));
            assert(tmap@ == truncated_map_of(
                lines_views(prefix1),
                winwidth,
                sp_of(starting_point),
            ));
        }
        k = k + 1;
    }
    proof {
        assert(orig.subrange(0, orig.len() as int) =~= orig);
    }
    (out, tmap)
}

} // verus!
