//! The substitution renderer: each expression segment is rendered by KaTeX,
//! or kept as raw text when rendering fails, and the segments are put back
//! together in order.
use vstd::prelude::*;
use std::collections::HashMap;
use crate::macros::MacroTable;
use crate::split::{
    contains, lemma_split_without_delimiter, matches_at, segments_of, split_on, Segment,
    SegmentModel,
};
use crate::text::{append, concat};

verus! {

/// What KaTeX renders `expr` to as HTML, in display mode or inline, with the
/// given macros; `None` where it reports an error.
pub uninterp spec fn katex_html(
    expr: Seq<char>,
    display: bool,
    macros: Map<Seq<char>, Seq<char>>,
) -> Option<Seq<char>>;

/// Relies on `katex::render_with_opts` with options built by
/// `katex::Opts::builder` (display mode, HTML output, the table's macros): the
/// markup depends on these alone; a failure of either call is `None`.
#[verifier::external_body]
pub(crate) fn render_katex(expr: &str, display: bool, macros: &MacroTable) -> (r: Option<String>)
    ensures
        outcome_view(r) == katex_html(expr@, display, macros@),
{
    let table: HashMap<String, String> = macros.entries.iter().cloned().collect();
    let opts = katex::Opts::builder()
        .display_mode(display)
        .output_type(katex::OutputType::Html)
        .macros(table)
        .build()
        .ok()?;
    katex::render_with_opts(expr, opts).ok()
}

/// A render outcome as a value: the markup, or `None` for a failure.
pub open spec fn outcome_view(o: Option<String>) -> Option<Seq<char>> {
    match o {
        Some(h) => Some(h@),
        None => None,
    }
}

/// What stands for an expression: its markup, or its raw text where
/// rendering failed.
pub open spec fn expr_output(raw: Seq<char>, outcome: Option<Seq<char>>) -> Seq<char> {
    match outcome {
        Some(h) => h,
        None => raw,
    }
}

/// What stands for a segment, given the outcome of rendering it.
pub open spec fn segment_output(g: SegmentModel, outcome: Option<Seq<char>>) -> Seq<char> {
    match g {
        SegmentModel::Literal(t) => t,
        SegmentModel::Expression(e) => expr_output(e, outcome),
    }
}

/// The segments put back together, each expression replaced according to
/// its outcome.
pub open spec fn spliced(segs: Seq<SegmentModel>, outcomes: Seq<Option<Seq<char>>>) -> Seq<char> {
    concat(Seq::new(segs.len(), |i: int| segment_output(segs[i], outcomes[i])))
}

/// A render function: an expression and the display flag to an outcome.
pub type RenderFn = spec_fn(Seq<char>, bool) -> Option<Seq<char>>;

/// KaTeX with a fixed macro table, as a render function.
pub open spec fn katex_with(macros: Map<Seq<char>, Seq<char>>) -> RenderFn {
    |e: Seq<char>, display: bool| katex_html(e, display, macros)
}

/// The outputs of the segments of `s` for the delimiter `d`, each
/// expression rendered by `render` with the display flag `display`.
pub open spec fn pass_parts(s: Seq<char>, d: Seq<char>, display: bool, render: RenderFn) -> Seq<Seq<char>> {
    let segs = segments_of(s, d);
    Seq::new(
        segs.len(),
        |i: int|
            match segs[i] {
                SegmentModel::Literal(t) => t,
                SegmentModel::Expression(e) => expr_output(e, render(e, display)),
            },
    )
}

/// One splitting pass over `s`.
pub open spec fn pass_output(s: Seq<char>, d: Seq<char>, display: bool, render: RenderFn) -> Seq<char> {
    concat(pass_parts(s, d, display, render))
}

/// The block delimiter.
pub open spec fn block_delimiter() -> Seq<char> {
    seq!['$', '$']
}

/// The inline delimiter.
pub open spec fn inline_delimiter() -> Seq<char> {
    seq!['$']
}

/// The outputs of the block segments of `s`: a block expression is rendered
/// in display mode, and only the literal text between blocks goes through the
/// inline pass.
pub open spec fn document_parts(s: Seq<char>, render: RenderFn) -> Seq<Seq<char>> {
    let blocks = segments_of(s, block_delimiter());
    Seq::new(
        blocks.len(),
        |i: int|
            match blocks[i] {
                SegmentModel::Literal(t) => pass_output(t, inline_delimiter(), false, render),
                SegmentModel::Expression(e) => expr_output(e, render(e, true)),
            },
    )
}

/// The body of a rendered document, without the header.
pub open spec fn document_output(s: Seq<char>, render: RenderFn) -> Seq<char> {
    concat(document_parts(s, render))
}

/// The render function that fails on every expression.
pub open spec fn never_renders() -> RenderFn {
    |e: Seq<char>, display: bool| None
}

/// `s` with its block delimiters removed, and the inline delimiters of the
/// text between blocks removed too; the expressions are kept as they are.
pub open spec fn without_delimiters(s: Seq<char>) -> Seq<char> {
    let blocks = split_on(s, block_delimiter());
    concat(
        Seq::new(
            blocks.len(),
            |i: int|
                if i % 2 == 0 {
                    concat(split_on(blocks[i], inline_delimiter()))
                } else {
                    blocks[i]
                },
        ),
    )
}

proof fn lemma_concat_single(x: Seq<char>)
    ensures
        concat(seq![x]) == x,
{
    let e = Seq::<Seq<char>>::empty();
    assert(concat(e) == Seq::<char>::empty());
    assert(seq![x].drop_last() =~= e);
    assert(seq![x].last() == x);
    assert(concat(seq![x]) == concat(e) + x);
    assert(Seq::<char>::empty() + x =~= x);
}

/// A text with no math delimiter in it comes out of rendering as it went
/// in, whatever the render function does.
pub proof fn lemma_plain_text_unchanged(s: Seq<char>, render: RenderFn)
    requires
        !contains(s, inline_delimiter()),
    ensures
        document_output(s, render) == s,
{
    assert forall|i: int| !matches_at(s, block_delimiter(), i) by {
        if matches_at(s, block_delimiter(), i) {
            assert(s.subrange(i, i + 1) =~= inline_delimiter());
            assert(matches_at(s, inline_delimiter(), i));
        }
    }
    lemma_split_without_delimiter(s, block_delimiter());
    lemma_split_without_delimiter(s, inline_delimiter());
    assert(pass_parts(s, inline_delimiter(), false, render) =~= seq![s]);
    lemma_concat_single(s);
    assert(document_parts(s, render) =~= seq![s]);
}

/// Where every expression fails to render, the output is the text with its
/// delimiters removed and every expression kept verbatim.
pub proof fn lemma_failed_rendering_strips_delimiters(s: Seq<char>)
    ensures
        document_output(s, never_renders()) == without_delimiters(s),
{
    let blocks = split_on(s, block_delimiter());
    let parts = document_parts(s, never_renders());
    let expected = Seq::new(
        blocks.len(),
        |i: int|
            if i % 2 == 0 {
                concat(split_on(blocks[i], inline_delimiter()))
            } else {
                blocks[i]
            },
    );
    assert forall|i: int| 0 <= i < blocks.len() implies parts[i] == expected[i] by {
        if i % 2 == 0 {
            assert(pass_parts(blocks[i], inline_delimiter(), false, never_renders())
                =~= split_on(blocks[i], inline_delimiter()));
        }
    }
    assert(parts =~= expected);
}

/// `expr` rendered by KaTeX, or `expr` itself where KaTeX fails.
pub fn render_expression(expr: &String, display: bool, macros: &MacroTable) -> (r: String)
    ensures
        r@ == expr_output(expr@, katex_html(expr@, display, macros@)),
{
    match render_katex(expr.as_str(), display, macros) {
        Some(h) => h,
        None => expr.clone(),
    }
}

/// The segments put back together in order: a literal as it is, an
/// expression as the markup given for it, or as its raw text where none was.
pub fn splice(segments: &Vec<Segment>, rendered: &Vec<Option<String>>) -> (r: String)
    requires
        segments.len() == rendered.len(),
    ensures
        r@ == spliced(
            segments@.map_values(|g: Segment| g@),
            rendered@.map_values(|o: Option<String>| outcome_view(o)),
        ),
{
    let ghost segs = segments@.map_values(|g: Segment| g@);
    let ghost outs = rendered@.map_values(|o: Option<String>| outcome_view(o));
    let ghost parts = Seq::new(segs.len(), |i: int| segment_output(segs[i], outs[i]));
    let mut acc = String::new();
    let mut i: usize = 0;
    while i < segments.len()
        invariant
            i <= segments.len() == rendered.len(),
            segs == segments@.map_values(|g: Segment| g@),
            outs == rendered@.map_values(|o: Option<String>| outcome_view(o)),
            parts == Seq::new(segs.len(), |i: int| segment_output(segs[i], outs[i])),
            acc@ == concat(parts.take(i as int)),
        decreases segments.len() - i,
    {
        proof {
            crate::text::lemma_concat_take(parts, i as int);
        }
        match &segments[i] {
            Segment::Literal(t) => append(&mut acc, t),
            Segment::Expression(e) => match &rendered[i] {
                Some(h) => append(&mut acc, h),
                None => append(&mut acc, e),
            },
        }
        i = i + 1;
    }
    assert(parts.take(segments.len() as int) =~= parts);
    acc
}

} // verus!
