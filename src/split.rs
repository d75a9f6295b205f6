//! The delimiter splitter: cuts a text on every occurrence of a delimiter,
//! scanning left to right, and classifies the pieces in turn as literal text
//! and math expression.
use vstd::prelude::*;
use crate::text::{chars_of, string_of};

verus! {

/// `d` occurs in `s` starting at index `i`.
pub open spec fn matches_at(s: Seq<char>, d: Seq<char>, i: int) -> bool {
    0 <= i && i + d.len() <= s.len() && s.subrange(i, i + d.len()) == d
}

/// `d` occurs somewhere in `s`.
pub open spec fn contains(s: Seq<char>, d: Seq<char>) -> bool {
    exists|i: int| matches_at(s, d, i)
}

/// The pieces of `s` from `start` on, scanning for `d` from `pos`: the current
/// piece runs from `start` to the next occurrence of `d` at or after `pos`,
/// which is consumed; the scan then goes on after it.
pub open spec fn split_from(s: Seq<char>, d: Seq<char>, start: int, pos: int) -> Seq<Seq<char>>
    decreases s.len() - pos,
{
    if d.len() == 0 || pos < 0 || pos + d.len() > s.len() {
        seq![s.subrange(start, s.len() as int)]
    } else if matches_at(s, d, pos) {
        seq![s.subrange(start, pos)] + split_from(s, d, pos + d.len(), pos + d.len())
    } else {
        split_from(s, d, start, pos + 1)
    }
}

/// The pieces of `s` between the non-overlapping occurrences of `d`, found
/// left to right (what `str::split` yields).
pub open spec fn split_on(s: Seq<char>, d: Seq<char>) -> Seq<Seq<char>> {
    split_from(s, d, 0, 0)
}

/// A classified span of a text, as a mathematical value.
pub enum SegmentModel {
    Literal(Seq<char>),
    Expression(Seq<char>),
}

/// A classified span of a text: untouched literal text, or the raw text of a
/// math expression (its delimiters removed).
#[derive(Debug, Clone, PartialEq, Eq)]
pub enum Segment {
    Literal(String),
    Expression(String),
}

impl View for Segment {
    type V = SegmentModel;

    open spec fn view(&self) -> SegmentModel {
        match self {
            Segment::Literal(t) => SegmentModel::Literal(t@),
            Segment::Expression(t) => SegmentModel::Expression(t@),
        }
    }
}

impl Segment {
    /// The text of the segment, literal or raw expression.
    pub fn text(&self) -> (r: &String)
        ensures
            r@ == match self@ {
                SegmentModel::Literal(t) => t,
                SegmentModel::Expression(t) => t,
            },
    {
        match self {
            Segment::Literal(t) => t,
            Segment::Expression(t) => t,
        }
    }

    /// Whether the segment is a math expression.
    pub fn is_expression(&self) -> (r: bool)
        ensures
            r == self@ is Expression,
    {
        match self {
            Segment::Literal(_) => false,
            Segment::Expression(_) => true,
        }
    }
}

/// The pieces classified in turn: even positions are literal, odd positions
/// are expressions.
pub open spec fn classify(pieces: Seq<Seq<char>>) -> Seq<SegmentModel> {
    Seq::new(
        pieces.len(),
        |i: int|
            if i % 2 == 0 {
                SegmentModel::Literal(pieces[i])
            } else {
                SegmentModel::Expression(pieces[i])
            },
    )
}

/// The segments of `s` for the delimiter `d`.
pub open spec fn segments_of(s: Seq<char>, d: Seq<char>) -> Seq<SegmentModel> {
    classify(split_on(s, d))
}

/// The scan yields at least one piece.
pub proof fn lemma_split_from_nonempty(s: Seq<char>, d: Seq<char>, start: int, pos: int)
    ensures
        split_from(s, d, start, pos).len() >= 1,
    decreases s.len() - pos,
{
    if d.len() == 0 || pos < 0 || pos + d.len() > s.len() {
    } else if matches_at(s, d, pos) {
        lemma_split_from_nonempty(s, d, pos + d.len(), pos + d.len());
    } else {
        lemma_split_from_nonempty(s, d, start, pos + 1);
    }
}

/// With no occurrence of `d` at or after `pos`, the scan yields the rest of
/// the text as its last piece.
proof fn lemma_split_from_no_match(s: Seq<char>, d: Seq<char>, start: int, pos: int)
    requires
        d.len() > 0,
        0 <= start <= pos <= s.len(),
        forall|i: int| pos <= i ==> !matches_at(s, d, i),
    ensures
        split_from(s, d, start, pos) == seq![s.subrange(start, s.len() as int)],
    decreases s.len() - pos,
{
    if pos + d.len() <= s.len() {
        lemma_split_from_no_match(s, d, start, pos + 1);
    }
}

/// Where the next occurrence of `d` at or after `pos` is at `k`, the current
/// piece ends at `k` and the scan resumes after that occurrence.
proof fn lemma_split_from_first_match(s: Seq<char>, d: Seq<char>, start: int, pos: int, k: int)
    requires
        d.len() > 0,
        0 <= start <= pos <= k,
        matches_at(s, d, k),
        forall|i: int| pos <= i < k ==> !matches_at(s, d, i),
    ensures
        split_from(s, d, start, pos) == seq![s.subrange(start, k)] + split_from(
            s,
            d,
            k + d.len(),
            k + d.len(),
        ),
    decreases k - pos,
{
    if pos < k {
        lemma_split_from_first_match(s, d, start, pos + 1, k);
    }
}

/// A text with no occurrence of the delimiter is one literal segment: itself.
pub proof fn lemma_split_without_delimiter(s: Seq<char>, d: Seq<char>)
    requires
        d.len() > 0,
        !contains(s, d),
    ensures
        split_on(s, d) == seq![s],
        segments_of(s, d) == seq![SegmentModel::Literal(s)],
{
    lemma_split_from_no_match(s, d, 0, 0);
    assert(s.subrange(0, s.len() as int) =~= s);
    assert(segments_of(s, d) =~= seq![SegmentModel::Literal(s)]);
}

/// `d` first occurs in `a + d` at the end of `a`: no occurrence starts inside
/// `a`, not even one that runs on into the delimiter after it.
pub open spec fn ends_at_delimiter(a: Seq<char>, d: Seq<char>) -> bool {
    forall|i: int| 0 <= i < a.len() ==> !matches_at(a + d, d, i)
}

/// `a`, `b` and `c` joined by two delimiters split back into a literal `a`, an
/// expression `b` and a literal `c`, provided that the delimiters are found
/// where they were put.
pub proof fn lemma_split_one_expression(a: Seq<char>, b: Seq<char>, c: Seq<char>, d: Seq<char>)
    requires
        d.len() > 0,
        ends_at_delimiter(a, d),
        ends_at_delimiter(b, d),
        !contains(c, d),
    ensures
        split_on(a + d + b + d + c, d) == seq![a, b, c],
        segments_of(a + d + b + d + c, d) == seq![
            SegmentModel::Literal(a),
            SegmentModel::Expression(b),
            SegmentModel::Literal(c),
        ],
{
    let s = a + d + b + d + c;
    let k1 = a.len() as int;
    let p2 = k1 + d.len();
    let k2 = p2 + b.len();
    let p3 = k2 + d.len();
    assert(s.subrange(k1, p2) =~= d);
    assert(s.subrange(k2, p3) =~= d);
    assert forall|i: int| 0 <= i < k1 implies !matches_at(s, d, i) by {
        if matches_at(s, d, i) {
            assert(s.subrange(i, i + d.len()) =~= (a + d).subrange(i, i + d.len()));
            assert(!matches_at(a + d, d, i));
        }
    }
    assert forall|i: int| p2 <= i < k2 implies !matches_at(s, d, i) by {
        if matches_at(s, d, i) {
            assert(s.subrange(i, i + d.len()) =~= (b + d).subrange(i - p2, i - p2 + d.len()));
            assert(!matches_at(b + d, d, i - p2));
        }
    }
    assert forall|i: int| p3 <= i implies !matches_at(s, d, i) by {
        if matches_at(s, d, i) {
            assert(s.subrange(i, i + d.len()) =~= c.subrange(i - p3, i - p3 + d.len()));
            assert(matches_at(c, d, i - p3));
        }
    }
    lemma_split_from_first_match(s, d, 0, 0, k1);
    lemma_split_from_first_match(s, d, p2, p2, k2);
    lemma_split_from_no_match(s, d, p3, p3);
    assert(s.subrange(0, k1) =~= a);
    assert(s.subrange(p2, k2) =~= b);
    assert(s.subrange(p3, s.len() as int) =~= c);
    assert(split_on(s, d) =~= seq![a, b, c]);
    assert(segments_of(s, d) =~= seq![
        SegmentModel::Literal(a),
        SegmentModel::Expression(b),
        SegmentModel::Literal(c),
    ]);
}

/// An odd number of delimiters leaves the text after the last one as an
/// expression segment, though no delimiter closes it. A split into `n`
/// pieces consumes `n - 1` delimiters (see `lemma_split_rejoin`).
pub proof fn lemma_unmatched_delimiter(s: Seq<char>, d: Seq<char>)
    requires
        d.len() > 0,
        (split_on(s, d).len() - 1) % 2 == 1,
    ensures
        segments_of(s, d).last() == SegmentModel::Expression(split_on(s, d).last()),
{
    lemma_split_from_nonempty(s, d, 0, 0);
}

/// The pieces joined back together, with `d` between each two.
pub open spec fn join_with(pieces: Seq<Seq<char>>, d: Seq<char>) -> Seq<char>
    decreases pieces.len(),
{
    if pieces.len() == 0 {
        Seq::empty()
    } else if pieces.len() == 1 {
        pieces[0]
    } else {
        pieces[0] + d + join_with(pieces.drop_first(), d)
    }
}

proof fn lemma_split_from_rejoin(s: Seq<char>, d: Seq<char>, start: int, pos: int)
    requires
        d.len() > 0,
        0 <= start <= pos <= s.len(),
    ensures
        join_with(split_from(s, d, start, pos), d) == s.subrange(start, s.len() as int),
    decreases s.len() - pos,
{
    if pos + d.len() > s.len() {
    } else if matches_at(s, d, pos) {
        let next = pos + d.len();
        let rest = split_from(s, d, next, next);
        lemma_split_from_rejoin(s, d, next, next);
        lemma_split_from_nonempty(s, d, next, next);
        let all = seq![s.subrange(start, pos)] + rest;
        assert(all.drop_first() =~= rest);
        assert(all[0] == s.subrange(start, pos));
        assert(s.subrange(start, pos) + d + s.subrange(next, s.len() as int) =~= s.subrange(
            start,
            s.len() as int,
        ));
    } else {
        lemma_split_from_rejoin(s, d, start, pos + 1);
    }
}

/// The pieces of a text, joined back together with the delimiter between
/// each two, give the text: splitting loses nothing but the delimiters.
pub proof fn lemma_split_rejoin(s: Seq<char>, d: Seq<char>)
    requires
        d.len() > 0,
    ensures
        join_with(split_on(s, d), d) == s,
{
    lemma_split_from_rejoin(s, d, 0, 0);
    assert(s.subrange(0, s.len() as int) =~= s);
}

/// Whether `d` occurs in `s` at `pos`.
fn delimiter_at(s: &Vec<char>, d: &Vec<char>, pos: usize) -> (r: bool)
    requires
        pos + d.len() <= s.len(),
    ensures
        r == matches_at(s@, d@, pos as int),
{
    let mut j: usize = 0;
    while j < d.len()
        invariant
            pos + d.len() <= s.len(),
            j <= d.len(),
            forall|k: int| 0 <= k < j ==> s@[pos + k] == d@[k],
        decreases d.len() - j,
    {
        if s[pos + j] != d[j] {
            assert(s@.subrange(pos as int, pos + d.len())[j as int] != d@[j as int]);
            return false;
        }
        j = j + 1;
    }
    assert(s@.subrange(pos as int, pos + d.len()) =~= d@);
    true
}

/// The pieces of `text` between the occurrences of `delim`, left to right.
pub fn split_pieces(text: &str, delim: &str) -> (r: Vec<String>)
    requires
        delim@.len() > 0,
    ensures
        r@.map_values(|p: String| p@) == split_on(text@, delim@),
{
    let s = chars_of(text);
    let d = chars_of(delim);
    let mut out: Vec<String> = Vec::new();
    let mut start: usize = 0;
    let mut pos: usize = 0;
    while d.len() <= s.len() - pos
        invariant
            s@ == text@,
            d@ == delim@,
            d.len() > 0,
            start <= pos <= s.len(),
            out@.map_values(|p: String| p@) + split_from(s@, d@, start as int, pos as int)
                == split_on(s@, d@),
        decreases s.len() - pos,
    {
        let ghost before = out@.map_values(|p: String| p@);
        if delimiter_at(&s, &d, pos) {
            let piece = string_of(&s, start, pos);
            out.push(piece);
            let ghost rest = split_from(s@, d@, pos + d.len(), pos + d.len());
            assert(out@.map_values(|p: String| p@) =~= before.push(piece@));
            assert(before + split_from(s@, d@, start as int, pos as int) =~= before.push(piece@) + rest);
            pos = pos + d.len();
            start = pos;
        } else {
            pos = pos + 1;
        }
    }
    let ghost before = out@.map_values(|p: String| p@);
    let piece = string_of(&s, start, s.len());
    out.push(piece);
    assert(out@.map_values(|p: String| p@) =~= before + split_from(s@, d@, start as int, pos as int));
    assert(out@.map_values(|p: String| p@) =~= split_on(text@, delim@));
    out
}

/// `text` cut on `delim` into alternating literal and expression segments,
/// starting with a literal one; an odd number of delimiters leaves a trailing
/// expression with no closing delimiter.
pub fn split_segments(text: &str, delim: &str) -> (r: Vec<Segment>)
    requires
        delim@.len() > 0,
    ensures
        r@.map_values(|g: Segment| g@) == segments_of(text@, delim@),
{
    let pieces = split_pieces(text, delim);
    let ghost pv = pieces@.map_values(|p: String| p@);
    let mut out: Vec<Segment> = Vec::new();
    let mut i: usize = 0;
    while i < pieces.len()
        invariant
            i <= pieces.len(),
            pv == pieces@.map_values(|p: String| p@),
            pv.len() == pieces.len(),
            out@.map_values(|g: Segment| g@) =~= classify(pv).take(i as int),
        decreases pieces.len() - i,
    {
        let ghost before = out@.map_values(|g: Segment| g@);
        let piece = pieces[i].clone();
        assert(pv[i as int] == piece@);
        let seg = if i % 2 == 0 {
            Segment::Literal(piece)
        } else {
            Segment::Expression(piece)
        };
        assert(seg@ == classify(pv)[i as int]);
        out.push(seg);
        assert(out@.map_values(|g: Segment| g@) =~= before.push(seg@));
        assert(out@.map_values(|g: Segment| g@) =~= classify(pv).take(i + 1));
        i = i + 1;
    }
    out
}

} // verus!
