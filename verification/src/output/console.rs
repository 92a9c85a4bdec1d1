//! The console output: the display window around the first match, the highlighted segments
//! of the displayed text, and the lines of the structured form.
use vstd::prelude::*;
use crate::text::{
    byte_len, byte_offset, byte_offsets, str_byte_len, to_chars, from_char_range, copy_str,
    char_boundary, lemma_byte_len_mono, clamp, on_boundaries, ranges_on_boundaries,
    ordered_ranges,
};
use crate::types::{
    Config, MatchResult, MatchSpec, LoraInfo, LoraSpec, StructuredPromptRecord, StructuredSpec,
    generator_name, structured_of,
};
use crate::extract::comfyui::{join, join_strings, strs};
use crate::output::{results_view, results_fit};

verus! {


// ---------------------------------------------------------------------------------------------
// Character boundaries.
// ---------------------------------------------------------------------------------------------
/// Byte offsets strictly grow with the character position.
pub proof fn lemma_offset_strict(p: Seq<char>, i: int, j: int)
    requires
        0 <= i <= p.len(),
        0 <= j <= p.len(),
    ensures
        i < j <==> byte_offset(p, i) < byte_offset(p, j),
        i == j <==> byte_offset(p, i) == byte_offset(p, j),
{
    if i <= j {
        lemma_byte_len_mono(p, i, j);
    } else {
        lemma_byte_len_mono(p, j, i);
    }
}

/// The byte offset of the end of `p` is its byte length.
pub proof fn lemma_offset_end(p: Seq<char>)
    ensures
        byte_offset(p, p.len() as int) == byte_len(p),
{
    assert(p.take(p.len() as int) =~= p);
}

/// The largest character position at or below `k` whose byte offset is at most `b` (0 when
/// none is): `floor_char_boundary` counted in characters.
pub open spec fn floor_pos(p: Seq<char>, b: int, k: int) -> int
    decreases k,
{
    if k <= 0 {
        0
    } else if byte_offset(p, k) <= b {
        k
    } else {
        floor_pos(p, b, k - 1)
    }
}

/// The smallest character position at or above `k` whose byte offset is at least `b` (the end
/// of `p` when none is): `ceil_char_boundary` counted in characters.
pub open spec fn ceil_pos(p: Seq<char>, b: int, k: int) -> int
    decreases p.len() - k,
{
    if k >= p.len() {
        p.len() as int
    } else if byte_offset(p, k) >= b {
        k
    } else {
        ceil_pos(p, b, k + 1)
    }
}

proof fn lemma_floor_pos(p: Seq<char>, b: int, k: int)
    requires
        0 <= k <= p.len(),
        b >= 0,
    ensures
        0 <= floor_pos(p, b, k) <= k,
        byte_offset(p, floor_pos(p, b, k)) <= b,
        forall|j: int|
            floor_pos(p, b, k) < j <= k ==> byte_offset(p, j) > b,
    decreases k,
{
    assert(p.take(0) =~= Seq::<char>::empty());
    if k > 0 && byte_offset(p, k) > b {
        lemma_floor_pos(p, b, k - 1);
    }
}

proof fn lemma_ceil_pos(p: Seq<char>, b: int, k: int)
    requires
        0 <= k <= p.len(),
    ensures
        k <= ceil_pos(p, b, k) <= p.len(),
        ceil_pos(p, b, k) < p.len() ==> byte_offset(p, ceil_pos(p, b, k)) >= b,
        forall|j: int| k <= j < ceil_pos(p, b, k) ==> byte_offset(p, j) < b,
    decreases p.len() - k,
{
    if k < p.len() && byte_offset(p, k) < b {
        lemma_ceil_pos(p, b, k + 1);
    }
}

// ---------------------------------------------------------------------------------------------
// The display window.
// ---------------------------------------------------------------------------------------------
/// Characters of context shown before the first match.
pub const CONTEXT: usize = 80;

/// Prompts of at most this many characters are shown whole.
pub const MAX_PLAIN: usize = 500;

/// The ranges that lie within bytes `ws..we` (both ends at or after `ws` and at or before
/// `we`), moved to count from `ws`.
pub open spec fn shift_ranges(rs: Seq<(usize, usize)>, ws: int, we: int) -> Seq<(usize, usize)>
    decreases rs.len(),
{
    if rs.len() == 0 {
        Seq::empty()
    } else {
        let rest = shift_ranges(rs.drop_last(), ws, we);
        let x = rs.last();
        if x.0 >= ws && x.1 >= ws && x.1 <= we {
            rest.push(((x.0 - ws) as usize, (x.1 - ws) as usize))
        } else {
            rest
        }
    }
}

/// The byte offset of the first match (0 without matches).
pub open spec fn first_start(rs: Seq<(usize, usize)>) -> int {
    if rs.len() > 0 {
        rs[0].0 as int
    } else {
        0
    }
}

/// The character position of the first match: that of the character its start falls in.
pub open spec fn first_char(p: Seq<char>, rs: Seq<(usize, usize)>) -> int {
    floor_pos(p, first_start(rs), p.len() as int)
}

/// The window's first character position: `CONTEXT` characters before the first match, or
/// the start of the prompt.
pub open spec fn window_start(p: Seq<char>, rs: Seq<(usize, usize)>) -> int {
    let c = first_char(p, rs);
    if c >= CONTEXT {
        c - CONTEXT
    } else {
        0
    }
}

/// The window's end character position: `2 * CONTEXT` characters after the first match's
/// start, or the end of the prompt.
pub open spec fn window_end(p: Seq<char>, rs: Seq<(usize, usize)>) -> int {
    let c = first_char(p, rs);
    if c + 2 * CONTEXT <= p.len() {
        c + 2 * CONTEXT
    } else {
        p.len() as int
    }
}

/// What the console shows of prompt `p` with match ranges `rs`: the text, its ranges, and
/// whether text was cut before and after it. A prompt is shown whole under `full` or when it
/// has at most `MAX_PLAIN` characters; else the window of characters around the first match,
/// with the ranges that lie inside it.
pub open spec fn display_window(p: Seq<char>, rs: Seq<(usize, usize)>, full: bool) -> (
    Seq<char>,
    Seq<(usize, usize)>,
    bool,
    bool,
) {
    if full || p.len() <= MAX_PLAIN {
        (p, rs, false, false)
    } else {
        let ks = window_start(p, rs);
        let ke = window_end(p, rs);
        let ws = byte_offset(p, ks) as int;
        let we = byte_offset(p, ke) as int;
        (p.subrange(ks, ke), shift_ranges(rs, ws, we), ks > 0, ke < p.len())
    }
}

/// A copy of a list of ranges.
fn copy_ranges(rs: &[(usize, usize)]) -> (r: Vec<(usize, usize)>)
    ensures
        r@ == rs@,
{
    let mut r: Vec<(usize, usize)> = Vec::new();
    let mut i: usize = 0;
    while i < rs.len()
        invariant
            i <= rs@.len(),
            r@ == rs@.take(i as int),
        decreases rs@.len() - i,
    {
        r.push(rs[i]);
        assert(rs@.take(i + 1) =~= rs@.take(i as int).push(rs@[i as int]));
        i += 1;
    }
    assert(rs@.take(rs@.len() as int) =~= rs@);
    r
}

/// The last character boundary of `s` at or before byte `idx` (`str::floor_char_boundary`).
pub fn floor_char_boundary(s: &str, idx: usize) -> (r: usize)
    ensures
        r == byte_offset(s@, floor_pos(s@, idx as int, s@.len() as int)),
{
    let p = to_chars(s);
    let _ = str_byte_len(s);
    let offsets = byte_offsets(&p);
    let n = p.len();
    let mut k: usize = n;
    while k > 0 && offsets[k] > idx
        invariant
            p@ == s@,
            n == p@.len(),
            offsets@.len() == n + 1,
            forall|i: int| 0 <= i <= n ==> offsets@[i] == byte_offset(p@, i),
            k <= n,
            floor_pos(p@, idx as int, n as int) == floor_pos(p@, idx as int, k as int),
        decreases k,
    {
        k -= 1;
    }
    offsets[k]
}

/// The first character boundary of `s` at or after byte `idx`, or the end of `s`
/// (`str::ceil_char_boundary`).
pub fn ceil_char_boundary(s: &str, idx: usize) -> (r: usize)
    ensures
        r == byte_offset(s@, ceil_pos(s@, idx as int, 0)),
{
    let p = to_chars(s);
    let _ = str_byte_len(s);
    let offsets = byte_offsets(&p);
    let n = p.len();
    let mut k: usize = 0;
    while k < n && offsets[k] < idx
        invariant
            p@ == s@,
            n == p@.len(),
            offsets@.len() == n + 1,
            forall|i: int| 0 <= i <= n ==> offsets@[i] == byte_offset(p@, i),
            k <= n,
            ceil_pos(p@, idx as int, 0) == ceil_pos(p@, idx as int, k as int),
        decreases n - k,
    {
        k += 1;
    }
    offsets[k]
}

/// `floor_char_boundary` gives the last character boundary at or before `idx`, and
/// `ceil_char_boundary` the first one at or after it when there is one (else the end).
pub proof fn char_boundary_rounding(s: Seq<char>, idx: int)
    requires
        idx >= 0,
    ensures
        ({
            let f = byte_offset(s, floor_pos(s, idx, s.len() as int)) as int;
            &&& char_boundary(s, f)
            &&& f <= idx
            &&& forall|b: int| f < b <= idx ==> !char_boundary(s, b)
        }),
        ({
            let c = byte_offset(s, ceil_pos(s, idx, 0)) as int;
            &&& char_boundary(s, c)
            &&& (idx <= byte_len(s) ==> c >= idx && forall|b: int| idx <= b < c ==> !char_boundary(s, b))
            &&& (idx > byte_len(s) ==> c == byte_len(s))
        }),
{
    let kf = floor_pos(s, idx, s.len() as int);
    let kc = ceil_pos(s, idx, 0);
    lemma_floor_pos(s, idx, s.len() as int);
    lemma_ceil_pos(s, idx, 0);
    lemma_offset_end(s);
    let f = byte_offset(s, kf) as int;
    let c = byte_offset(s, kc) as int;
    assert(char_boundary(s, f));
    assert(char_boundary(s, c));
    assert forall|b: int| f < b <= idx implies !char_boundary(s, b) by {
        if char_boundary(s, b) {
            let k = choose|k: int| 0 <= k <= s.len() && #[trigger] byte_offset(s, k) == b;
            lemma_offset_strict(s, kf, k);
        }
    }
    if idx <= byte_len(s) {
        if kc == s.len() {
            lemma_offset_end(s);
        }
        assert forall|b: int| idx <= b < c implies !char_boundary(s, b) by {
            if char_boundary(s, b) {
                let k = choose|k: int| 0 <= k <= s.len() && #[trigger] byte_offset(s, k) == b;
                lemma_offset_strict(s, k, kc);
            }
        }
    } else {
        if kc < s.len() {
            lemma_offset_strict(s, kc, s.len() as int);
        }
    }
}

/// The part of the prompt that the console shows, with the match ranges moved into it, and
/// whether text was cut before and after it.
pub fn compute_display_window(prompt: &str, ranges: &[(usize, usize)], config: &Config) -> (r: (
    String,
    Vec<(usize, usize)>,
    bool,
    bool,
))
    ensures
        (r.0@, r.1@, r.2, r.3) == display_window(prompt@, ranges@, config.full),
{
    let p = to_chars(prompt);
    let n = p.len();
    if config.full || n <= MAX_PLAIN {
        return (copy_str(prompt), copy_ranges(ranges), false, false);
    }
    let _ = str_byte_len(prompt);
    let offsets = byte_offsets(&p);
    let ghost ps = p@;
    let first = if ranges.len() > 0 {
        ranges[0].0
    } else {
        0
    };
    let mut c: usize = n;
    while c > 0 && offsets[c] > first
        invariant
            n == ps.len(),
            offsets@.len() == n + 1,
            forall|i: int| 0 <= i <= n ==> offsets@[i] == byte_offset(ps, i),
            c <= n,
            floor_pos(ps, first as int, n as int) == floor_pos(ps, first as int, c as int),
        decreases c,
    {
        c -= 1;
    }
    proof {
        lemma_floor_pos(ps, first as int, n as int);
    }
    let ks = if c >= CONTEXT {
        c - CONTEXT
    } else {
        0
    };
    let ke = if n - c >= 2 * CONTEXT {
        c + 2 * CONTEXT
    } else {
        n
    };
    let ws = offsets[ks];
    let we = offsets[ke];
    let text = from_char_range(&p, ks, ke);
    let mut adj: Vec<(usize, usize)> = Vec::new();
    let mut i: usize = 0;
    assert(ranges@.take(0) =~= Seq::<(usize, usize)>::empty());
    while i < ranges.len()
        invariant
            i <= ranges@.len(),
            adj@ == shift_ranges(ranges@.take(i as int), ws as int, we as int),
        decreases ranges@.len() - i,
    {
        let (s, e) = ranges[i];
        assert(ranges@.take(i + 1).drop_last() =~= ranges@.take(i as int));
        if s >= ws && e >= ws && e <= we {
            adj.push((s - ws, e - ws));
        }
        i += 1;
    }
    assert(ranges@.take(ranges@.len() as int) =~= ranges@);
    (text, adj, ks > 0, ke < n)
}

// ---------------------------------------------------------------------------------------------
// Ranges of the window.
// ---------------------------------------------------------------------------------------------
/// Byte offsets inside a run of characters count from the run's start.
pub proof fn lemma_offset_sub(p: Seq<char>, ks: int, ke: int, j: int)
    requires
        0 <= ks <= ke <= p.len(),
        0 <= j <= ke - ks,
    ensures
        byte_offset(p.subrange(ks, ke), j) == byte_offset(p, ks + j) - byte_offset(p, ks),
    decreases j,
{
    let w = p.subrange(ks, ke);
    if j == 0 {
        assert(w.take(0) =~= Seq::<char>::empty());
    } else {
        lemma_offset_sub(p, ks, ke, j - 1);
        assert(w.take(j).drop_last() =~= w.take(j - 1));
        assert(p.take(ks + j).drop_last() =~= p.take(ks + j - 1));
    }
}

proof fn lemma_shift_ranges(p: Seq<char>, rs: Seq<(usize, usize)>, ks: int, ke: int)
    requires
        0 <= ks <= ke <= p.len(),
        byte_len(p) <= usize::MAX,
        ranges_on_boundaries(p, rs),
    ensures
        ranges_on_boundaries(
            p.subrange(ks, ke),
            shift_ranges(rs, byte_offset(p, ks) as int, byte_offset(p, ke) as int),
        ),
        ordered_ranges(rs) ==> ordered_ranges(
            shift_ranges(rs, byte_offset(p, ks) as int, byte_offset(p, ke) as int),
        ),
    decreases rs.len(),
{
    let ws = byte_offset(p, ks) as int;
    let we = byte_offset(p, ke) as int;
    let w = p.subrange(ks, ke);
    if rs.len() > 0 {
        assert(ordered_ranges(rs) ==> ordered_ranges(rs.drop_last()));
        assert forall|i: int| 0 <= i < rs.drop_last().len() implies on_boundaries(
            p,
            #[trigger] rs.drop_last()[i],
        ) by {
            assert(rs.drop_last()[i] == rs[i]);
        }
        lemma_shift_ranges(p, rs.drop_last(), ks, ke);
        let x = rs.last();
        if x.0 >= ws && x.1 >= ws && x.1 <= we {
            let rest = shift_ranges(rs.drop_last(), ws, we);
            let y = ((x.0 - ws) as usize, (x.1 - ws) as usize);
            assert(shift_ranges(rs, ws, we) == rest.push(y));
            assert(on_boundaries(p, rs[rs.len() - 1]));
            lemma_offset_end(p);
            lemma_offset_strict(p, ke, p.len() as int);
            lemma_offset_end(w);
            lemma_offset_sub(p, ks, ke, ke - ks);
            assert(byte_len(w) == we - ws);
            let b = choose|k: int| 0 <= k <= p.len() && #[trigger] byte_offset(p, k) == x.1;
            lemma_offset_strict(p, ks, b);
            lemma_offset_strict(p, b, ke);
            lemma_offset_sub(p, ks, ke, b - ks);
            assert(byte_offset(w, b - ks) == y.1);
            if x.0 <= we {
                let a = choose|k: int| 0 <= k <= p.len() && #[trigger] byte_offset(p, k) == x.0;
                lemma_offset_strict(p, ks, a);
                lemma_offset_strict(p, a, ke);
                lemma_offset_sub(p, ks, ke, a - ks);
                assert(byte_offset(w, a - ks) == y.0);
            } else {
                assert(byte_offset(w, w.len() as int) == byte_len(w));
            }
            assert(on_boundaries(w, y));
            assert forall|i: int| 0 <= i < rest.push(y).len() implies on_boundaries(
                w,
                #[trigger] rest.push(y)[i],
            ) by {
                if i < rest.len() {
                    assert(rest.push(y)[i] == rest[i]);
                }
            }
            if ordered_ranges(rs) {
                assert(x.0 <= x.1);
                assert forall|i: int| 0 <= i < rest.push(y).len() implies (#[trigger] rest.push(
                    y,
                )[i]).0 <= rest.push(y)[i].1 by {
                    if i < rest.len() {
                        assert(rest.push(y)[i] == rest[i]);
                    }
                }
            }
        }
    }
}

proof fn lemma_window_bounds(p: Seq<char>, rs: Seq<(usize, usize)>)
    ensures
        0 <= first_char(p, rs) <= p.len(),
        0 <= window_start(p, rs) <= window_end(p, rs) <= p.len(),
{
    if first_start(rs) >= 0 {
        lemma_floor_pos(p, first_start(rs), p.len() as int);
    } else {
        lemma_floor_pos_any(p, first_start(rs), p.len() as int);
    }
}

proof fn lemma_floor_pos_any(p: Seq<char>, b: int, k: int)
    requires
        0 <= k <= p.len(),
    ensures
        0 <= floor_pos(p, b, k) <= k,
    decreases k,
{
    if k > 0 && byte_offset(p, k) > b {
        lemma_floor_pos_any(p, b, k - 1);
    }
}

/// The window keeps the match ranges usable: when the prompt's ranges fall on its character
/// boundaries, so do the window's ranges on the window's text; ranges that start no later
/// than they end stay so.
pub proof fn display_window_keeps_boundaries(p: Seq<char>, rs: Seq<(usize, usize)>, full: bool)
    requires
        byte_len(p) <= usize::MAX,
        ranges_on_boundaries(p, rs),
    ensures
        ranges_on_boundaries(display_window(p, rs, full).0, display_window(p, rs, full).1),
        ordered_ranges(rs) ==> ordered_ranges(display_window(p, rs, full).1),
{
    if !(full || p.len() <= MAX_PLAIN) {
        lemma_window_bounds(p, rs);
        lemma_shift_ranges(p, rs, window_start(p, rs), window_end(p, rs));
    }
}

/// The window is the whole prompt, uncut, under `full` or for a prompt of at most
/// `MAX_PLAIN` characters. Else it is the run of the prompt's characters from `CONTEXT`
/// characters before the first match to `2 * CONTEXT` characters after its start (cut at the
/// ends of the prompt), and an ellipsis marks each side where text was cut.
pub proof fn display_window_is_run(p: Seq<char>, rs: Seq<(usize, usize)>, full: bool)
    ensures
        (full || p.len() <= MAX_PLAIN) ==> display_window(p, rs, full) == (p, rs, false, false),
        !(full || p.len() <= MAX_PLAIN) ==> {
            let c = first_char(p, rs);
            let ks = window_start(p, rs);
            let ke = window_end(p, rs);
            &&& 0 <= ks <= c <= ke <= p.len()
            &&& ks == (if c >= CONTEXT { c - CONTEXT } else { 0 })
            &&& ke == (if c + 2 * CONTEXT <= p.len() { c + 2 * CONTEXT } else { p.len() as int })
            &&& display_window(p, rs, full).0 == p.subrange(ks, ke)
            &&& display_window(p, rs, full).2 == (ks > 0)
            &&& display_window(p, rs, full).3 == (ke < p.len())
        },
{
    lemma_window_bounds(p, rs);
}

proof fn lemma_shift_first(rs: Seq<(usize, usize)>, ws: int, we: int)
    requires
        rs.len() > 0,
        rs[0].0 >= ws,
        rs[0].1 >= ws,
        rs[0].1 <= we,
    ensures
        shift_ranges(rs, ws, we).len() > 0,
        shift_ranges(rs, ws, we)[0] == ((rs[0].0 - ws) as usize, (rs[0].1 - ws) as usize),
    decreases rs.len(),
{
    if rs.len() > 1 {
        assert(rs.drop_last()[0] == rs[0]);
        lemma_shift_first(rs.drop_last(), ws, we);
        let rest = shift_ranges(rs.drop_last(), ws, we);
        assert(rest.len() > 0);
        let x = rs.last();
        if x.0 >= ws && x.1 >= ws && x.1 <= we {
            assert(rest.push(((x.0 - ws) as usize, (x.1 - ws) as usize))[0] == rest[0]);
        }
    } else {
        assert(rs.drop_last() =~= Seq::<(usize, usize)>::empty());
        assert(shift_ranges(rs.drop_last(), ws, we) =~= Seq::<(usize, usize)>::empty());
        assert(rs.last() == rs[0]);
    }
}

/// The console always shows the first match: when it runs from character `a` to character
/// `b` of the prompt, at most `2 * CONTEXT` characters, it is the first range of the window,
/// moved to count from the window's start.
pub proof fn display_window_shows_first_match(
    p: Seq<char>,
    rs: Seq<(usize, usize)>,
    full: bool,
    a: int,
    b: int,
)
    requires
        rs.len() > 0,
        0 <= a <= b <= p.len(),
        b - a <= 2 * CONTEXT,
        rs[0].0 == byte_offset(p, a),
        rs[0].1 == byte_offset(p, b),
    ensures
        ({
            let w = display_window(p, rs, full);
            let ws = if full || p.len() <= MAX_PLAIN {
                0
            } else {
                byte_offset(p, window_start(p, rs)) as int
            };
            &&& w.1.len() > 0
            &&& w.1[0] == ((rs[0].0 - ws) as usize, (rs[0].1 - ws) as usize)
        }),
{
    if !(full || p.len() <= MAX_PLAIN) {
        lemma_window_bounds(p, rs);
        lemma_floor_pos(p, first_start(rs), p.len() as int);
        let c = first_char(p, rs);
        lemma_offset_strict(p, a, c);
        if a < p.len() {
            lemma_offset_strict(p, a, a + 1);
            if c > a {
                assert(byte_offset(p, c) > rs[0].0);
            }
        }
        assert(c == a);
        let ks = window_start(p, rs);
        let ke = window_end(p, rs);
        lemma_offset_strict(p, ks, a);
        lemma_offset_strict(p, b, ke);
        lemma_offset_strict(p, ks, b);
        lemma_shift_first(rs, byte_offset(p, ks) as int, byte_offset(p, ke) as int);
    }
}

// ---------------------------------------------------------------------------------------------
// Highlighting.
// ---------------------------------------------------------------------------------------------
/// Model of a piece of text, highlighted or not.
pub struct SegmentSpec {
    pub text: Seq<char>,
    pub highlighted: bool,
}

/// A piece of the displayed text, highlighted when it lies in a match.
#[derive(Debug)]
pub struct Segment {
    pub text: String,
    pub highlighted: bool,
}

impl View for Segment {
    type V = SegmentSpec;

    open spec fn view(&self) -> SegmentSpec {
        SegmentSpec { text: self.text@, highlighted: self.highlighted }
    }
}

/// Model of a list of segments.
pub open spec fn segments_view(v: Seq<Segment>) -> Seq<SegmentSpec> {
    Seq::new(v.len(), |i: int| v[i]@)
}

/// Where `x` goes in `s` when it is put after every range that starts no later than it.
pub open spec fn insert_pos(s: Seq<(usize, usize)>, x: (usize, usize)) -> int
    decreases s.len(),
{
    if s.len() == 0 {
        0
    } else if s.last().0 <= x.0 {
        s.len() as int
    } else {
        insert_pos(s.drop_last(), x)
    }
}

/// `s` with `x` put after every range that starts no later than it.
pub open spec fn insert_by_start(s: Seq<(usize, usize)>, x: (usize, usize)) -> Seq<(usize, usize)>
    decreases s.len(),
{
    if s.len() == 0 {
        seq![x]
    } else if s.last().0 <= x.0 {
        s.push(x)
    } else {
        insert_by_start(s.drop_last(), x).push(s.last())
    }
}

/// The ranges in order of their start; ranges with equal starts keep their order (a stable
/// sort by start).
pub open spec fn sort_by_start(rs: Seq<(usize, usize)>) -> Seq<(usize, usize)>
    decreases rs.len(),
{
    if rs.len() == 0 {
        Seq::empty()
    } else {
        insert_by_start(sort_by_start(rs.drop_last()), rs.last())
    }
}

proof fn lemma_insert_by_start(s: Seq<(usize, usize)>, x: (usize, usize))
    ensures
        0 <= insert_pos(s, x) <= s.len(),
        insert_by_start(s, x) == s.insert(insert_pos(s, x), x),
        forall|m: int| insert_pos(s, x) <= m < s.len() ==> (#[trigger] s[m]).0 > x.0,
        insert_pos(s, x) > 0 ==> s[insert_pos(s, x) - 1].0 <= x.0,
    decreases s.len(),
{
    if s.len() == 0 {
        assert(seq![x] =~= s.insert(0, x));
    } else if s.last().0 <= x.0 {
        assert(s.push(x) =~= s.insert(s.len() as int, x));
    } else {
        lemma_insert_by_start(s.drop_last(), x);
        let j = insert_pos(s.drop_last(), x);
        assert(s.drop_last().insert(j, x).push(s.last()) =~= s.insert(j, x));
        assert forall|m: int| j <= m < s.len() implies (#[trigger] s[m]).0 > x.0 by {
            if m < s.len() - 1 {
                assert(s.drop_last()[m] == s[m]);
            }
        }
    }
}

/// The position that the scan from the back finds is `insert_pos`.
proof fn lemma_insert_pos_unique(s: Seq<(usize, usize)>, x: (usize, usize), j: int)
    requires
        0 <= j <= s.len(),
        forall|m: int| j <= m < s.len() ==> (#[trigger] s[m]).0 > x.0,
        j > 0 ==> s[j - 1].0 <= x.0,
    ensures
        insert_pos(s, x) == j,
{
    lemma_insert_by_start(s, x);
    let p = insert_pos(s, x);
    if p < j {
        assert(s[j - 1].0 > x.0);
    } else if p > j {
        assert(s[p - 1].0 > x.0);
    }
}

/// Whether the ranges are in order of their start.
pub open spec fn sorted_by_start(s: Seq<(usize, usize)>) -> bool {
    forall|i: int, j: int| 0 <= i < j < s.len() ==> (#[trigger] s[i]).0 <= (#[trigger] s[j]).0
}

/// Sorting the ranges by start orders them by start and keeps every range, each as often as
/// it occurs.
pub proof fn sort_by_start_sorts(rs: Seq<(usize, usize)>)
    ensures
        sorted_by_start(sort_by_start(rs)),
        sort_by_start(rs).to_multiset() == rs.to_multiset(),
    decreases rs.len(),
{
    broadcast use vstd::seq_lib::group_to_multiset_ensures;

    if rs.len() > 0 {
        let s = sort_by_start(rs.drop_last());
        let x = rs.last();
        sort_by_start_sorts(rs.drop_last());
        lemma_insert_by_start(s, x);
        let p = insert_pos(s, x);
        let t = s.insert(p, x);
        vstd::seq_lib::to_multiset_insert(s, p, x);
        assert(rs.drop_last().push(x) =~= rs);
        assert forall|i: int, j: int| 0 <= i < j < t.len() implies (#[trigger] t[i]).0 <= (
        #[trigger] t[j]).0 by {
            if j < p {
            } else if j == p {
                if i < p {
                    if p > 0 {
                        assert(s[i].0 <= s[p - 1].0);
                    }
                }
            } else if i < p {
                assert(s[j - 1].0 > x.0 || s[i].0 <= s[j - 1].0);
            } else if i == p {
                assert(s[j - 1].0 > x.0);
            } else {
                assert(s[i - 1].0 <= s[j - 1].0);
            }
        }
    } else {
        assert(sort_by_start(rs) =~= rs);
    }
}

/// A stable sort of the ranges by their start.
pub fn sort_ranges(rs: &[(usize, usize)]) -> (r: Vec<(usize, usize)>)
    ensures
        r@ == sort_by_start(rs@),
{
    let mut sorted: Vec<(usize, usize)> = Vec::new();
    let mut i: usize = 0;
    assert(rs@.take(0) =~= Seq::<(usize, usize)>::empty());
    while i < rs.len()
        invariant
            i <= rs@.len(),
            sorted@ == sort_by_start(rs@.take(i as int)),
        decreases rs@.len() - i,
    {
        let x = rs[i];
        let mut j: usize = sorted.len();
        while j > 0 && sorted[j - 1].0 > x.0
            invariant
                j <= sorted@.len(),
                forall|m: int| j <= m < sorted@.len() ==> (#[trigger] sorted@[m]).0 > x.0,
            decreases j,
        {
            j -= 1;
        }
        proof {
            lemma_insert_pos_unique(sorted@, x, j as int);
            lemma_insert_by_start(sorted@, x);
            assert(rs@.take(i + 1).drop_last() =~= rs@.take(i as int));
        }
        sorted.insert(j, x);
        i += 1;
    }
    assert(rs@.take(rs@.len() as int) =~= rs@);
    sorted
}

/// The character position whose byte offset in `t` is `b`.
pub open spec fn char_pos(t: Seq<char>, b: int) -> int {
    choose|k: int| 0 <= k <= t.len() && byte_offset(t, k) == b
}

proof fn lemma_char_pos(t: Seq<char>, b: int, k: int)
    requires
        0 <= k <= t.len(),
        byte_offset(t, k) == b,
    ensures
        char_pos(t, b) == k,
{
    let c = char_pos(t, b);
    lemma_offset_strict(t, c, k);
}

/// The piece of `t` between byte offsets `a` and `b`.
pub open spec fn piece(t: Seq<char>, a: int, b: int, highlighted: bool) -> SegmentSpec {
    SegmentSpec { text: t.subrange(char_pos(t, a), char_pos(t, b)), highlighted }
}


/// The segments of `t` from range `i` of the sorted ranges `rs` on, the text before `cursor`
/// being written already: each range writes the text between the cursor and its start, when
/// it starts later, then its own text highlighted, when it is not empty, and moves the cursor
/// to its end; the text after the last cursor follows.
pub open spec fn walk_segments(t: Seq<char>, rs: Seq<(usize, usize)>, i: int, cursor: int) -> Seq<
    SegmentSpec,
>
    decreases rs.len() - i,
{
    let len = byte_len(t) as int;
    if i < 0 || i >= rs.len() {
        if cursor < len {
            seq![piece(t, cursor, len, false)]
        } else {
            Seq::empty()
        }
    } else {
        let s = clamp(rs[i].0, len);
        let e = clamp(rs[i].1, len);
        let before = if s > cursor {
            seq![piece(t, cursor, s, false)]
        } else {
            Seq::empty()
        };
        let inside = if s < e {
            seq![piece(t, s, e, true)]
        } else {
            Seq::empty()
        };
        before + inside + walk_segments(t, rs, i + 1, e)
    }
}

/// How text `t` is written with the ranges `rs` highlighted: plain when there are none, else
/// range by range in order of their start, ranges clamped to the end of the text.
pub open spec fn highlight(t: Seq<char>, rs: Seq<(usize, usize)>) -> Seq<SegmentSpec> {
    if rs.len() == 0 {
        seq![SegmentSpec { text: t, highlighted: false }]
    } else {
        walk_segments(t, sort_by_start(rs), 0, 0)
    }
}



fn pos_of(offsets: &Vec<usize>, b: usize) -> (k: usize)
    requires
        exists|k: int| 0 <= k < offsets@.len() && #[trigger] offsets@[k] == b,
    ensures
        k < offsets@.len(),
        offsets@[k as int] == b,
{
    let mut k: usize = 0;
    while k < offsets.len()
        invariant
            k <= offsets@.len(),
            forall|m: int| 0 <= m < k ==> #[trigger] offsets@[m] != b,
            exists|k: int| 0 <= k < offsets@.len() && #[trigger] offsets@[k] == b,
        decreases offsets@.len() - k,
    {
        if offsets[k] == b {
            return k;
        }
        k += 1;
    }
    proof {
        let w = choose|w: int| 0 <= w < offsets@.len() && #[trigger] offsets@[w] == b;
        assert(offsets@[w] != b);
    }
    0
}

/// Whether every range, clamped to the end of `text`, has both ends on character boundaries,
/// as `highlight_segments` needs.
pub fn ranges_fit(text: &str, ranges: &[(usize, usize)]) -> (r: bool)
    ensures
        r == ranges_on_boundaries(text@, ranges@),
{
    let t = to_chars(text);
    let len = str_byte_len(text);
    let offsets = byte_offsets(&t);
    let mut i: usize = 0;
    while i < ranges.len()
        invariant
            t@ == text@,
            len == byte_len(t@),
            offsets@.len() == t@.len() + 1,
            forall|k: int| 0 <= k <= t@.len() ==> offsets@[k] == byte_offset(t@, k),
            i <= ranges@.len(),
            forall|j: int| 0 <= j < i ==> on_boundaries(text@, #[trigger] ranges@[j]),
        decreases ranges@.len() - i,
    {
        let (s0, e0) = ranges[i];
        let s = if s0 <= len {
            s0
        } else {
            len
        };
        let e = if e0 <= len {
            e0
        } else {
            len
        };
        if !has_offset(&offsets, s) || !has_offset(&offsets, e) {
            proof {
                assert(!on_boundaries(text@, ranges@[i as int])) by {
                    if char_boundary(t@, s as int) {
                        let k = choose|k: int| 0 <= k <= t@.len() && #[trigger] byte_offset(t@, k) == s;
                        assert(offsets@[k] == s);
                    }
                    if char_boundary(t@, e as int) {
                        let k = choose|k: int| 0 <= k <= t@.len() && #[trigger] byte_offset(t@, k) == e;
                        assert(offsets@[k] == e);
                    }
                }
            }
            return false;
        }
        proof {
            let ks = choose|k: int| 0 <= k < offsets@.len() && #[trigger] offsets@[k] == s;
            let ke = choose|k: int| 0 <= k < offsets@.len() && #[trigger] offsets@[k] == e;
            assert(byte_offset(t@, ks) == s);
            assert(byte_offset(t@, ke) == e);
        }
        i += 1;
    }
    true
}

fn has_offset(offsets: &Vec<usize>, b: usize) -> (r: bool)
    ensures
        r == exists|k: int| 0 <= k < offsets@.len() && #[trigger] offsets@[k] == b,
{
    let mut k: usize = 0;
    while k < offsets.len()
        invariant
            k <= offsets@.len(),
            forall|m: int| 0 <= m < k ==> #[trigger] offsets@[m] != b,
        decreases offsets@.len() - k,
    {
        if offsets[k] == b {
            return true;
        }
        k += 1;
    }
    false
}

/// The text that the segments spell out, one after the other.
pub open spec fn flatten(segs: Seq<SegmentSpec>) -> Seq<char>
    decreases segs.len(),
{
    if segs.len() == 0 {
        Seq::empty()
    } else {
        flatten(segs.drop_last()) + segs.last().text
    }
}

proof fn lemma_flatten_append(a: Seq<SegmentSpec>, b: Seq<SegmentSpec>)
    ensures
        flatten(a + b) == flatten(a) + flatten(b),
    decreases b.len(),
{
    if b.len() == 0 {
        assert(a + b =~= a);
        assert(flatten(a) + Seq::<char>::empty() =~= flatten(a));
    } else {
        lemma_flatten_append(a, b.drop_last());
        assert((a + b).drop_last() =~= a + b.drop_last());
        assert(flatten(b.drop_last()) + b.last().text =~= flatten(b));
        assert(flatten(a) + flatten(b.drop_last()) + b.last().text =~= flatten(a) + (flatten(
            b.drop_last(),
        ) + b.last().text));
    }
}

proof fn lemma_flatten_one(x: SegmentSpec)
    ensures
        flatten(seq![x]) == x.text,
{
    assert(seq![x].drop_last() =~= Seq::<SegmentSpec>::empty());
    assert(flatten(seq![x].drop_last()) == Seq::<char>::empty());
    assert(seq![x].last() == x);
    assert(Seq::<char>::empty() + x.text =~= x.text);
}

/// Whether, taken in order, each range ends no later than every later range starts.
pub open spec fn non_overlapping(rs: Seq<(usize, usize)>) -> bool {
    forall|i: int, j: int| 0 <= i < j < rs.len() ==> (#[trigger] rs[i]).1 <= (#[trigger] rs[j]).0
}

proof fn lemma_walk_spells(t: Seq<char>, rs: Seq<(usize, usize)>, i: int, cursor: int, kc: int)
    requires
        0 <= i <= rs.len(),
        0 <= kc <= t.len(),
        byte_offset(t, kc) == cursor,
        ordered_ranges(rs),
        non_overlapping(rs),
        ranges_on_boundaries(t, rs),
        forall|k: int| i <= k < rs.len() ==> clamp((#[trigger] rs[k]).0, byte_len(t) as int) >= cursor,
    ensures
        flatten(walk_segments(t, rs, i, cursor)) == t.subrange(kc, t.len() as int),
    decreases rs.len() - i,
{
    let len = byte_len(t) as int;
    lemma_offset_end(t);
    lemma_char_pos(t, cursor, kc);
    lemma_offset_strict(t, kc, t.len() as int);
    if i >= rs.len() {
        if cursor < len {
            lemma_char_pos(t, len, t.len() as int);
            lemma_flatten_one(piece(t, cursor, len, false));
        } else {
            assert(t.subrange(kc, t.len() as int) =~= Seq::<char>::empty());
        }
    } else {
        let x = rs[i];
        let s = clamp(x.0, len);
        let e = clamp(x.1, len);
        assert(on_boundaries(t, x));
        let ks = choose|k: int| 0 <= k <= t.len() && #[trigger] byte_offset(t, k) == s;
        let ke = choose|k: int| 0 <= k <= t.len() && #[trigger] byte_offset(t, k) == e;
        lemma_char_pos(t, s, ks);
        lemma_char_pos(t, e, ke);
        lemma_offset_strict(t, kc, ks);
        lemma_offset_strict(t, ks, ke);
        assert(x.0 <= x.1);
        assert forall|k: int| i + 1 <= k < rs.len() implies clamp((#[trigger] rs[k]).0, len) >= e by {
            assert(rs[i].1 <= rs[k].0);
        }
        lemma_walk_spells(t, rs, i + 1, e, ke);
        let before: Seq<SegmentSpec> = if s > cursor {
            seq![piece(t, cursor, s, false)]
        } else {
            Seq::empty()
        };
        let inside: Seq<SegmentSpec> = if s < e {
            seq![piece(t, s, e, true)]
        } else {
            Seq::empty()
        };
        let rest = walk_segments(t, rs, i + 1, e);
        lemma_flatten_append(before, inside);
        lemma_flatten_append(before + inside, rest);
        if s > cursor {
            lemma_flatten_one(piece(t, cursor, s, false));
        } else {
            assert(flatten(before) =~= t.subrange(kc, ks));
        }
        if s < e {
            lemma_flatten_one(piece(t, s, e, true));
        } else {
            assert(flatten(inside) =~= t.subrange(ks, ke));
        }
        assert(t.subrange(kc, ks) + t.subrange(ks, ke) + t.subrange(ke, t.len() as int) =~= t.subrange(
            kc,
            t.len() as int,
        ));
    }
}

/// Highlighting keeps the text: when the ranges, in order of their start, do not overlap, the
/// segments spell out the text exactly, each character once.
pub proof fn highlight_keeps_text(t: Seq<char>, rs: Seq<(usize, usize)>)
    requires
        ordered_ranges(rs),
        ranges_on_boundaries(t, rs),
        non_overlapping(sort_by_start(rs)),
    ensures
        flatten(highlight(t, rs)) == t,
{
    if rs.len() == 0 {
        lemma_flatten_one(SegmentSpec { text: t, highlighted: false });
    } else {
        let sorted = sort_by_start(rs);
        sort_by_start_sorts(rs);
        assert forall|i: int| 0 <= i < sorted.len() implies on_boundaries(t, #[trigger] sorted[i])
            && sorted[i].0 <= sorted[i].1 by {
            broadcast use vstd::seq_lib::group_to_multiset_ensures;

            assert(sorted.to_multiset().count(sorted[i]) > 0);
            assert(rs.contains(sorted[i]));
        }
        assert(t.take(0) =~= Seq::<char>::empty());
        lemma_walk_spells(t, sorted, 0, 0, 0);
        assert(t.subrange(0, t.len() as int) =~= t);
    }
}

/// The segments in which the console writes `text` with the byte ranges `ranges` highlighted.
#[verifier::spinoff_prover]
#[verifier::rlimit(40)]
pub fn highlight_segments(text: &str, ranges: &[(usize, usize)]) -> (r: Vec<Segment>)
    requires
        ranges_on_boundaries(text@, ranges@),
    ensures
        segments_view(r@) == highlight(text@, ranges@),
{
    let mut segs: Vec<Segment> = Vec::new();
    if ranges.len() == 0 {
        segs.push(Segment { text: copy_str(text), highlighted: false });
        assert(segments_view(segs@) =~= highlight(text@, ranges@));
        return segs;
    }
    let sorted = sort_ranges(ranges);
    proof {
        sort_by_start_sorts(ranges@);
        assert forall|i: int| 0 <= i < sorted@.len() implies on_boundaries(
            text@,
            #[trigger] sorted@[i],
        ) by {
            broadcast use vstd::seq_lib::group_to_multiset_ensures;

            assert(sorted@.to_multiset().count(sorted@[i]) > 0);
            assert(ranges@.contains(sorted@[i]));
        }
    }
    let t = to_chars(text);
    let len = str_byte_len(text);
    let n = t.len();
    let offsets = byte_offsets(&t);
    let ghost ts = t@;
    proof {
        lemma_offset_end(ts);
        assert(ts.take(0) =~= Seq::<char>::empty());
    }
    let mut cursor: usize = 0;
    let mut ck: usize = 0;
    let mut i: usize = 0;
    while i < sorted.len()
        invariant
            ts == text@,
            ts == t@,
            n == ts.len(),
            len == byte_len(ts),
            offsets@.len() == n + 1,
            forall|k: int| 0 <= k <= n ==> offsets@[k] == byte_offset(ts, k),
            forall|j: int| 0 <= j < sorted@.len() ==> on_boundaries(ts, #[trigger] sorted@[j]),
            i <= sorted@.len(),
            ck <= n,
            offsets@[ck as int] == cursor,
            segments_view(segs@) + walk_segments(ts, sorted@, i as int, cursor as int)
                == walk_segments(ts, sorted@, 0, 0),
        decreases sorted@.len() - i,
    {
        let (s0, e0) = sorted[i];
        let s = if s0 <= len {
            s0
        } else {
            len
        };
        let e = if e0 <= len {
            e0
        } else {
            len
        };
        proof {
            assert(on_boundaries(ts, sorted@[i as int]));
            let a = choose|k: int| 0 <= k <= ts.len() && #[trigger] byte_offset(ts, k) == s;
            let b = choose|k: int| 0 <= k <= ts.len() && #[trigger] byte_offset(ts, k) == e;
            assert(offsets@[a] == s);
            assert(offsets@[b] == e);
        }
        let sk = pos_of(&offsets, s);
        let ek = pos_of(&offsets, e);
        let ghost before = segments_view(segs@);
        let ghost part1: Seq<SegmentSpec> = if s > cursor {
            seq![piece(ts, cursor as int, s as int, false)]
        } else {
            Seq::empty()
        };
        let ghost part2: Seq<SegmentSpec> = if s < e {
            seq![piece(ts, s as int, e as int, true)]
        } else {
            Seq::empty()
        };
        proof {
            lemma_char_pos(ts, cursor as int, ck as int);
            lemma_char_pos(ts, s as int, sk as int);
            lemma_char_pos(ts, e as int, ek as int);
            lemma_offset_strict(ts, ck as int, sk as int);
            lemma_offset_strict(ts, sk as int, ek as int);
        }
        if s > cursor {
            segs.push(Segment { text: from_char_range(&t, ck, sk), highlighted: false });
        }
        assert(segments_view(segs@) =~= before + part1);
        if s < e {
            segs.push(Segment { text: from_char_range(&t, sk, ek), highlighted: true });
        }
        assert(segments_view(segs@) =~= before + part1 + part2);
        assert(walk_segments(ts, sorted@, i as int, cursor as int) == part1 + part2
            + walk_segments(ts, sorted@, i + 1, e as int));
        assert(before + (part1 + part2 + walk_segments(ts, sorted@, i + 1, e as int))
            =~= before + part1 + part2 + walk_segments(ts, sorted@, i + 1, e as int));
        cursor = e;
        ck = ek;
        i += 1;
    }
    let ghost before = segments_view(segs@);
    proof {
        lemma_char_pos(ts, cursor as int, ck as int);
        lemma_char_pos(ts, len as int, n as int);
        lemma_offset_strict(ts, ck as int, n as int);
    }
    if cursor < len {
        segs.push(Segment { text: from_char_range(&t, ck, n), highlighted: false });
        assert(segments_view(segs@) =~= before + seq![piece(ts, cursor as int, len as int, false)]);
    } else {
        assert(segments_view(segs@) =~= before + Seq::<SegmentSpec>::empty());
    }
    segs
}

// ---------------------------------------------------------------------------------------------
// Console entries.
// ---------------------------------------------------------------------------------------------
/// Model of a console entry.
pub struct ConsoleSpec {
    pub path: Seq<char>,
    pub generator: Seq<char>,
    pub prefix_dots: bool,
    pub segments: Seq<SegmentSpec>,
    pub suffix_dots: bool,
}

/// One match as the console writes it: the path, the generator tag, then the displayed text
/// in segments, with an ellipsis before and after where the text was cut.
#[derive(Debug)]
pub struct ConsoleEntry {
    pub path: String,
    pub generator: String,
    pub prefix_dots: bool,
    pub segments: Vec<Segment>,
    pub suffix_dots: bool,
}

impl View for ConsoleEntry {
    type V = ConsoleSpec;

    open spec fn view(&self) -> ConsoleSpec {
        ConsoleSpec {
            path: self.path@,
            generator: self.generator@,
            prefix_dots: self.prefix_dots,
            segments: segments_view(self.segments@),
            suffix_dots: self.suffix_dots,
        }
    }
}

/// What the console writes for the match `m`.
pub open spec fn console_spec(m: MatchSpec, full: bool) -> ConsoleSpec {
    let w = display_window(m.record.prompt, m.match_ranges, full);
    ConsoleSpec {
        path: m.record.path,
        generator: generator_name(m.record.generator),
        prefix_dots: w.2,
        segments: highlight(w.0, w.1),
        suffix_dots: w.3,
    }
}

/// The console entry of one match.
pub fn console_entry(result: &MatchResult, config: &Config) -> (e: ConsoleEntry)
    requires
        ranges_on_boundaries(result.record.prompt@, result.match_ranges@),
    ensures
        e@ == console_spec(result@, config.full),
{
    let _ = str_byte_len(result.record.prompt.as_str());
    let (text, ranges, prefix_dots, suffix_dots) = compute_display_window(
        result.record.prompt.as_str(),
        result.match_ranges.as_slice(),
        config,
    );
    proof {
        display_window_keeps_boundaries(
            result.record.prompt@,
            result.match_ranges@,
            config.full,
        );
    }
    let segments = highlight_segments(text.as_str(), ranges.as_slice());
    ConsoleEntry {
        path: result.record.path.clone(),
        generator: result.record.generator.to_string(),
        prefix_dots,
        segments,
        suffix_dots,
    }
}

// ---------------------------------------------------------------------------------------------
// Structured console lines.
// ---------------------------------------------------------------------------------------------
/// The tag of a LoRA reference, `lora:name:weight`.
pub open spec fn lora_tag(l: LoraSpec) -> Seq<char> {
    seq!['l', 'o', 'r', 'a', ':'] + l.name + seq![':'] + l.weight
}

/// The tags of LoRA references.
pub open spec fn lora_tags(ls: Seq<LoraSpec>) -> Seq<Seq<char>> {
    Seq::new(ls.len(), |i: int| lora_tag(ls[i]))
}

/// The field lines of the structured console form of a record: its model, LoRAs, positive and
/// negative prompt, each when it has one.
pub open spec fn structured_fields_spec(s: StructuredSpec) -> Seq<Seq<char>> {
    let model = match s.model {
        Some(m) => seq!["Model: "@ + m],
        None => Seq::empty(),
    };
    let loras = if s.loras.len() > 0 {
        seq!["LoRAs: "@ + join(lora_tags(s.loras), ", "@)]
    } else {
        Seq::empty()
    };
    let positive = match s.positive {
        Some(p) => seq!["Positive: "@ + p],
        None => Seq::empty(),
    };
    let negative = match s.negative {
        Some(n) => seq!["Negative: "@ + n],
        None => Seq::empty(),
    };
    model + loras + positive + negative
}

fn concat(a: &str, b: &str) -> (r: String)
    ensures
        r@ == a@ + b@,
{
    let mut r = copy_str(a);
    r.append(b);
    r
}

fn lora_tag_string(l: &LoraInfo) -> (r: String)
    ensures
        r@ == lora_tag(l@),
{
    let mut r = copy_str("lora:");
    r.append(l.name.as_str());
    r.append(":");
    r.append(l.weight.as_str());
    proof {
        reveal_strlit("lora:");
        reveal_strlit(":");
    }
    assert(r@ =~= lora_tag(l@));
    r
}

/// The field lines that the structured console form writes for a record.
pub fn structured_lines(s: &StructuredPromptRecord) -> (lines: Vec<String>)
    ensures
        strs(lines@) == structured_fields_spec(s@),
{
    let mut lines: Vec<String> = Vec::new();
    assert(strs(lines@) =~= Seq::<Seq<char>>::empty());
    let ghost spec_model: Seq<Seq<char>> = match s@.model {
        Some(m) => seq!["Model: "@ + m],
        None => Seq::empty(),
    };
    match &s.model {
        Some(m) => lines.push(concat("Model: ", m.as_str())),
        None => {},
    }
    assert(strs(lines@) =~= spec_model);
    let ghost spec_loras: Seq<Seq<char>> = if s@.loras.len() > 0 {
        seq!["LoRAs: "@ + join(lora_tags(s@.loras), ", "@)]
    } else {
        Seq::empty()
    };
    if s.loras.len() > 0 {
        let mut tags: Vec<String> = Vec::new();
        let mut i: usize = 0;
        while i < s.loras.len()
            invariant
                i <= s.loras@.len(),
                strs(tags@) == lora_tags(s@.loras).take(i as int),
            decreases s.loras@.len() - i,
        {
            let t = lora_tag_string(&s.loras[i]);
            assert(s@.loras[i as int] == s.loras@[i as int]@);
            assert(lora_tags(s@.loras)[i as int] == t@);
            let ghost prev = strs(tags@);
            let ghost tv = t@;
            tags.push(t);
            assert(strs(tags@) =~= prev.push(tv));
            assert(lora_tags(s@.loras).take(i + 1) =~= lora_tags(s@.loras).take(i as int).push(
                lora_tags(s@.loras)[i as int],
            ));
            i += 1;
        }
        assert(lora_tags(s@.loras).take(s.loras@.len() as int) =~= lora_tags(s@.loras));
        let joined = join_strings(&tags, ", ");
        lines.push(concat("LoRAs: ", joined.as_str()));
    }
    assert(strs(lines@) =~= spec_model + spec_loras);
    let ghost spec_positive: Seq<Seq<char>> = match s@.positive {
        Some(p) => seq!["Positive: "@ + p],
        None => Seq::empty(),
    };
    match &s.positive {
        Some(p) => lines.push(concat("Positive: ", p.as_str())),
        None => {},
    }
    assert(strs(lines@) =~= spec_model + spec_loras + spec_positive);
    let ghost spec_negative: Seq<Seq<char>> = match s@.negative {
        Some(n) => seq!["Negative: "@ + n],
        None => Seq::empty(),
    };
    match &s.negative {
        Some(n) => lines.push(concat("Negative: ", n.as_str())),
        None => {},
    }
    assert(strs(lines@) =~= spec_model + spec_loras + spec_positive + spec_negative);
    lines
}

/// Model of a structured console entry.
pub struct StructuredSpecEntry {
    pub fields: Seq<Seq<char>>,
    pub entry: ConsoleSpec,
}

/// One match in the structured console form: the console entry (path, generator tag and the
/// window around the match) with the record's field lines written between its header and its
/// window.
#[derive(Debug)]
pub struct StructuredEntry {
    pub fields: Vec<String>,
    pub entry: ConsoleEntry,
}

impl View for StructuredEntry {
    type V = StructuredSpecEntry;

    open spec fn view(&self) -> StructuredSpecEntry {
        StructuredSpecEntry { fields: strs(self.fields@), entry: self.entry@ }
    }
}

/// What the structured console form writes for the match `m`.
pub open spec fn structured_spec(m: MatchSpec, full: bool) -> StructuredSpecEntry {
    StructuredSpecEntry {
        fields: structured_fields_spec(structured_of(m.record)),
        entry: console_spec(m, full),
    }
}

// ---------------------------------------------------------------------------------------------
// Writing all matches.
// ---------------------------------------------------------------------------------------------
/// The console entries of the matches, in order.
pub fn output(results: &[MatchResult], config: &Config) -> (entries: Vec<ConsoleEntry>)
    requires
        results_fit(results@),
    ensures
        Seq::new(entries@.len(), |i: int| entries@[i]@) == Seq::new(
            results@.len(),
            |i: int| console_spec(results_view(results@)[i], config.full),
        ),
{
    let ghost ms = results_view(results@);
    let n = results.len();
    let mut entries: Vec<ConsoleEntry> = Vec::new();
    let mut i: usize = 0;
    while i < n
        invariant
            n == results@.len(),
            ms == results_view(results@),
            results_fit(results@),
            i <= n,
            entries@.len() == i,
            forall|k: int| 0 <= k < i ==> (#[trigger] entries@[k])@ == console_spec(ms[k], config.full),
        decreases n - i,
    {
        assert(ranges_on_boundaries(results@[i as int].record.prompt@, results@[i as int].match_ranges@));
        entries.push(console_entry(&results[i], config));
        i += 1;
    }
    assert(Seq::new(entries@.len(), |k: int| entries@[k]@) =~= Seq::new(
        results@.len(),
        |k: int| console_spec(ms[k], config.full),
    ));
    entries
}

/// The structured console entries of the matches, in order.
pub fn output_structured(results: &[MatchResult], config: &Config) -> (entries: Vec<
    StructuredEntry,
>)
    requires
        results_fit(results@),
    ensures
        Seq::new(entries@.len(), |i: int| entries@[i]@) == Seq::new(
            results@.len(),
            |i: int| structured_spec(results_view(results@)[i], config.full),
        ),
{
    let ghost ms = results_view(results@);
    let n = results.len();
    let mut entries: Vec<StructuredEntry> = Vec::new();
    let mut i: usize = 0;
    while i < n
        invariant
            n == results@.len(),
            ms == results_view(results@),
            results_fit(results@),
            i <= n,
            entries@.len() == i,
            forall|k: int|
                0 <= k < i ==> (#[trigger] entries@[k])@ == structured_spec(ms[k], config.full),
        decreases n - i,
    {
        assert(ranges_on_boundaries(results@[i as int].record.prompt@, results@[i as int].match_ranges@));
        let s = results[i].record.to_structured();
        let fields = structured_lines(&s);
        let entry = console_entry(&results[i], config);
        entries.push(StructuredEntry { fields, entry });
        i += 1;
    }
    assert(Seq::new(entries@.len(), |k: int| entries@[k]@) =~= Seq::new(
        results@.len(),
        |k: int| structured_spec(ms[k], config.full),
    ));
    entries
}

} // verus!
