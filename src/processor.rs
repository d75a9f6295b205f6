//! The preprocessor: holds the macro table of a run and turns the text of a
//! chapter into its rendered text.
use vstd::prelude::*;
use crate::macros::{parse_macro_line, table_of, table_of_lines, MacroTable};
use crate::render::{
    block_delimiter, document_output, document_parts, inline_delimiter, katex_html, katex_with,
    outcome_view, pass_output, pass_parts, render_expression, render_katex, splice,
};
use crate::split::{segments_of, split_pieces, split_segments, Segment, SegmentModel};
use crate::text::{append, lemma_concat_take};
use vstd::string::StringExecFns;

verus! {

/// The style sheet reference put once before the body of every rendered
/// chapter.
pub const HEADER: &'static str = "<link rel=\"stylesheet\" href=\"https://cdn.jsdelivr.net/npm/katex@0.12.0/dist/katex.min.css\" integrity=\"sha384-AfEj0r4/OFrOo5t7NnNe46zW/tFgW6x/bCJG8FqQCEo3+Aro6EYUG4+cU+KJWu/X\" crossorigin=\"anonymous\">\n\n";

/// Renders the math of book chapters with KaTeX, with the macros of one
/// definition source for the whole run.
pub struct KatexProcessor {
    pub macros: MacroTable,
}

impl KatexProcessor {
    /// A processor with the macros that `macro_source` defines; with no
    /// source, the table is empty.
    pub fn new(macro_source: Option<String>) -> (r: KatexProcessor)
        ensures
            r.macros.wf(),
            r.macros@ == match macro_source {
                Some(src) => table_of(src@),
                None => Map::empty(),
            },
    {
        let macros = match macro_source {
            Some(src) => KatexProcessor::load_macros(src.as_str()),
            None => MacroTable::new(),
        };
        KatexProcessor { macros }
    }

    /// The rendered text of a chapter whose text is `content`.
    pub fn process(&self, content: &str) -> (r: String)
        ensures
            r@ == HEADER@ + document_output(content@, katex_with(self.macros@)),
    {
        self.render(content, &self.macros)
    }

    /// The macro table of a definition source: one `\name:body` definition per
    /// line; lines that are empty, do not start with a backslash or hold no colon
    /// are skipped, and a later definition of a name replaces an earlier one.
    pub fn load_macros(source: &str) -> (r: MacroTable)
        ensures
            r.wf(),
            r@ == table_of(source@),
    {
        proof {
            reveal_strlit("\n");
            assert("\n"@ =~= seq!['\n']);
        }
        let lines = split_pieces(source, "\n");
        let ghost lv = lines@.map_values(|p: String| p@);
        let mut table = MacroTable::new();
        let mut i: usize = 0;
        while i < lines.len()
            invariant
                i <= lines.len(),
                lv == lines@.map_values(|p: String| p@),
                table.wf(),
                table@ == table_of_lines(lv.take(i as int)),
            decreases lines.len() - i,
        {
            assert(lv.take(i + 1).drop_last() =~= lv.take(i as int));
            assert(lv.take(i + 1).last() == lines@[i as int]@);
            match parse_macro_line(lines[i].as_str()) {
                Some(def) => {
                    table.insert(def.0, def.1);
                },
                None => {},
            }
            i = i + 1;
        }
        assert(lv.take(lines.len() as int) =~= lv);
        table
    }

    /// `string` cut on `separator`, each expression rendered by KaTeX in
    /// display mode or inline as `display` says, or kept as raw text where
    /// KaTeX fails; literal text is kept as it is.
    pub fn render_separator(&self, string: &str, separator: &str, display: bool, macros: &MacroTable) -> (r: String)
        requires
            separator@.len() > 0,
        ensures
            r@ == pass_output(string@, separator@, display, katex_with(macros@)),
    {
        let segments = split_segments(string, separator);
        let ghost segs = segments@.map_values(|g: Segment| g@);
        let mut rendered: Vec<Option<String>> = Vec::new();
        let mut i: usize = 0;
        while i < segments.len()
            invariant
                i <= segments.len(),
                rendered.len() == i,
                segs == segments@.map_values(|g: Segment| g@),
                forall|j: int|
                    0 <= j < i ==> outcome_view(#[trigger] rendered@[j]) == match segs[j] {
                        SegmentModel::Literal(_) => None,
                        SegmentModel::Expression(e) => katex_html(e, display, macros@),
                    },
            decreases segments.len() - i,
        {
            assert(segs[i as int] == segments@[i as int]@);
            match &segments[i] {
                Segment::Literal(_) => rendered.push(None),
                Segment::Expression(e) => rendered.push(render_katex(e.as_str(), display, macros)),
            }
            i = i + 1;
        }
        let r = splice(&segments, &rendered);
        let ghost outs = rendered@.map_values(|o: Option<String>| outcome_view(o));
        assert(Seq::new(segs.len(), |i: int| crate::render::segment_output(segs[i], outs[i]))
            =~= pass_parts(string@, separator@, display, katex_with(macros@)));
        r
    }

    /// The rendered text of `content`: the header, then the text with each
    /// block expression (between `$$` delimiters) rendered in display mode and
    /// each inline expression (between `$` delimiters) in the text between
    /// blocks rendered inline; an expression that KaTeX cannot render is kept
    /// as its raw text.
    pub fn render(&self, content: &str, macros: &MacroTable) -> (r: String)
        ensures
            r@ == HEADER@ + document_output(content@, katex_with(macros@)),
    {
        proof {
            reveal_strlit("$$");
            reveal_strlit("$");
            assert("$$"@ =~= block_delimiter());
            assert("$"@ =~= inline_delimiter());
        }
        let blocks = split_segments(content, "$$");
        let ghost parts = document_parts(content@, katex_with(macros@));
        let mut html = String::from_str(HEADER);
        let mut i: usize = 0;
        while i < blocks.len()
            invariant
                i <= blocks.len(),
                blocks@.map_values(|g: Segment| g@) == segments_of(content@, block_delimiter()),
                parts == document_parts(content@, katex_with(macros@)),
                parts.len() == blocks.len(),
                "$"@ == inline_delimiter(),
                html@ == HEADER@ + crate::text::concat(parts.take(i as int)),
            decreases blocks.len() - i,
        {
            proof {
                lemma_concat_take(parts, i as int);
                assert(blocks@.map_values(|g: Segment| g@)[i as int] == blocks@[i as int]@);
            }
            match &blocks[i] {
                Segment::Literal(t) => {
                    let out = self.render_separator(t.as_str(), "$", false, macros);
                    assert(out@ == parts[i as int]);
                    append(&mut html, &out);
                },
                Segment::Expression(e) => {
                    let out = render_expression(e, true, macros);
                    assert(out@ == parts[i as int]);
                    append(&mut html, &out);
                },
            }
            assert(html@ =~= HEADER@ + crate::text::concat(parts.take(i + 1)));
            i = i + 1;
        }
        assert(parts.take(blocks.len() as int) =~= parts);
        html
    }

    /// The name under which the book tool knows this preprocessor.
    pub fn name(&self) -> (r: &'static str)
        ensures
            r@ == seq!['k', 'a', 't', 'e', 'x'],
    {
        proof {
            reveal_strlit("katex");
        }
        "katex"
    }

    /// Whether the output target `renderer` is supported: only `html` is.
    pub fn supports_renderer(&self, renderer: &str) -> (r: bool)
        ensures
            r == (renderer@ == seq!['h', 't', 'm', 'l']),
    {
        let v = crate::text::chars_of(renderer);
        let r = v.len() == 4 && v[0] == 'h' && v[1] == 't' && v[2] == 'm' && v[3] == 'l';
        proof {
            if r {
                assert(renderer@ =~= seq!['h', 't', 'm', 'l']);
            }
        }
        r
    }
}

} // verus!
