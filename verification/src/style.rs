//! Terminal styling: the rendered output lines are turned into bytes by
//! painting each span's text with the style configured for its role. A
//! style is an opaque paint capability; the library never looks inside it.

use vstd::prelude::*;
use crate::classify::NEWLINE_BYTE;
use crate::classify::SPACE_BYTE;
use crate::classify::copy_range;
use crate::highlight::Role;
use crate::render::OutputConfig;
use crate::render::OutputLine;
use crate::render::OutputLineView;
use crate::render::render_page;

verus! {

/// `yansi::Style` as an opaque type, so that styles can appear in
/// signatures and fields. The library never inspects a style's value.
#[verifier::external_type_specification]
#[verifier::external_body]
pub struct ExStyle(yansi::Style);

/// The styles the seven roles are painted with, supplied by the caller.
pub struct StyleTable {
    /// Style for title lines.
    pub title: yansi::Style,
    /// Style for plain description text.
    pub description: yansi::Style,
    /// Style for plain bullet text.
    pub bullet: yansi::Style,
    /// Style for plain example text.
    pub example: yansi::Style,
    /// Style for URL spans.
    pub url: yansi::Style,
    /// Style for inline-code spans.
    pub inline_code: yansi::Style,
    /// Style for placeholder spans.
    pub placeholder: yansi::Style,
}

/// The style a role is painted with.
pub open spec fn spec_style_for(t: StyleTable, role: Role) -> yansi::Style {
    match role {
        Role::Title => t.title,
        Role::Description => t.description,
        Role::Bullet => t.bullet,
        Role::Example => t.example,
        Role::Url => t.url,
        Role::InlineCode => t.inline_code,
        Role::Placeholder => t.placeholder,
    }
}

impl StyleTable {
    /// Look up the style for a role.
    pub fn style_for(&self, role: Role) -> (r: &yansi::Style)
        ensures
            *r == spec_style_for(*self, role),
    {
        match role {
            Role::Title => &self.title,
            Role::Description => &self.description,
            Role::Bullet => &self.bullet,
            Role::Example => &self.example,
            Role::Url => &self.url,
            Role::InlineCode => &self.inline_code,
            Role::Placeholder => &self.placeholder,
        }
    }
}

/// `n` space bytes.
pub open spec fn spec_spaces(n: int) -> Seq<u8>
    decreases n,
{
    if n <= 0 {
        Seq::empty()
    } else {
        spec_spaces(n - 1).push(SPACE_BYTE)
    }
}

/// The concatenation of byte fragments, in order.
pub open spec fn spec_concat(frags: Seq<Seq<u8>>) -> Seq<u8>
    decreases frags.len(),
{
    if frags.len() == 0 {
        Seq::empty()
    } else {
        frags[0] + spec_concat(frags.drop_first())
    }
}

/// One assembled output line: the indentation, the painted fragments in
/// order, and a terminating newline.
pub open spec fn spec_assembled_line(indent: int, painted: Seq<Seq<u8>>) -> Seq<u8> {
    spec_spaces(indent) + spec_concat(painted) + seq![NEWLINE_BYTE]
}

/// Assemble one output line from the painted bytes of its spans. Whatever
/// bytes painting produced, the line is exactly the indentation, the
/// fragments in order, and a newline.
#[verifier::loop_isolation(false)]
pub fn assemble_styled_line(indent: usize, painted: &Vec<Vec<u8>>) -> (r: Vec<u8>)
    ensures
        r@ == spec_assembled_line(indent as int, painted@.map_values(|v: Vec<u8>| v@)),
{
    let mut r: Vec<u8> = Vec::new();
    let mut k: usize = 0;
    while k < indent
        invariant
            0 <= k <= indent,
            r@ == spec_spaces(k as int),
        decreases indent - k,
    {
        r.push(SPACE_BYTE);
        k = k + 1;
    }
    let ghost pviews = painted@.map_values(|v: Vec<u8>| v@);
    proof {
        assert(pviews.skip(0) =~= pviews);
    }
    let mut i: usize = 0;
    while i < painted.len()
        invariant
            0 <= i <= painted@.len(),
            pviews == painted@.map_values(|v: Vec<u8>| v@),
            spec_spaces(indent as int) + spec_concat(pviews) == r@ + spec_concat(
                pviews.skip(i as int),
            ),
        decreases painted@.len() - i,
    {
        let ghost r0 = r@;
        let p = &painted[i];
        let mut piece = copy_range(p.as_slice(), 0, p.len());
        proof {
            assert(piece@ =~= p@);
        }
        r.append(&mut piece);
        proof {
            assert(pviews.skip(i as int).drop_first() =~= pviews.skip(i + 1));
            assert(pviews.skip(i as int)[0] == p@);
            assert(spec_concat(pviews.skip(i as int)) == p@ + spec_concat(pviews.skip(i + 1)));
            assert(spec_spaces(indent as int) + spec_concat(pviews) =~= r@ + spec_concat(
                pviews.skip(i + 1),
            ));
        }
        i = i + 1;
    }
    proof {
        assert(pviews.skip(pviews.len() as int) =~= Seq::<Seq<u8>>::empty());
        assert(r@ + spec_concat(pviews.skip(pviews.len() as int)) =~= r@);
    }
    r.push(NEWLINE_BYTE);
    proof {
        assert(r@ =~= spec_assembled_line(indent as int, pviews));
    }
    r
}

/// Whether `painted` has the shape of per-span paint results for `lines`:
/// one fragment list per output line, with one fragment per span of a
/// styled line and none for a blank line.
pub open spec fn painted_shape(lines: Seq<OutputLineView>, painted: Seq<Seq<Seq<u8>>>) -> bool
    decreases lines.len(),
{
    &&& painted.len() == lines.len()
    &&& (lines.len() == 0 || ({
        &&& (match lines[0] {
            OutputLineView::Blank => painted[0].len() == 0,
            OutputLineView::Styled { indent, spans } => painted[0].len() == spans.len(),
        })
        &&& painted_shape(lines.drop_first(), painted.drop_first())
    }))
}

/// The bytes of a styled page, given per-span painted fragments: a blank
/// output line is a lone newline; a styled output line is its indentation,
/// its painted fragments in order, and a newline.
pub open spec fn spec_styled_output(lines: Seq<OutputLineView>, painted: Seq<Seq<Seq<u8>>>) -> Seq<
    u8,
>
    decreases lines.len(),
{
    if lines.len() == 0 {
        Seq::empty()
    } else {
        (match lines[0] {
            OutputLineView::Blank => seq![NEWLINE_BYTE],
            OutputLineView::Styled { indent, spans } => spec_assembled_line(indent, painted[0]),
        }) + spec_styled_output(lines.drop_first(), painted.drop_first())
    }
}

/// Assembling distributes over appending one line and its fragments.
proof fn lemma_styled_output_push(
    lines: Seq<OutputLineView>,
    painted: Seq<Seq<Seq<u8>>>,
    l: OutputLineView,
    p: Seq<Seq<u8>>,
)
    requires
        painted_shape(lines, painted),
        match l {
            OutputLineView::Blank => p.len() == 0,
            OutputLineView::Styled { indent, spans } => p.len() == spans.len(),
        },
    ensures
        painted_shape(lines.push(l), painted.push(p)),
        spec_styled_output(lines.push(l), painted.push(p)) == spec_styled_output(lines, painted)
            + (match l {
            OutputLineView::Blank => seq![NEWLINE_BYTE],
            OutputLineView::Styled { indent, spans } => spec_assembled_line(indent, p),
        }),
    decreases lines.len(),
{
    if lines.len() == 0 {
        assert(lines.push(l)[0] == l);
        assert(painted.push(p)[0] == p);
        assert(lines.push(l).drop_first() =~= Seq::<OutputLineView>::empty());
        assert(painted.push(p).drop_first() =~= Seq::<Seq<Seq<u8>>>::empty());
        assert(painted_shape(Seq::<OutputLineView>::empty(), Seq::<Seq<Seq<u8>>>::empty()));
        assert(spec_styled_output(
            Seq::<OutputLineView>::empty(),
            Seq::<Seq<Seq<u8>>>::empty(),
        ) =~= Seq::<u8>::empty());
        assert(painted_shape(lines.push(l), painted.push(p)));
        assert(spec_styled_output(lines.push(l), painted.push(p)) =~= spec_styled_output(
            lines,
            painted,
        ) + (match l {
            OutputLineView::Blank => seq![NEWLINE_BYTE],
            OutputLineView::Styled { indent, spans } => spec_assembled_line(indent, p),
        }));
    } else {
        lemma_styled_output_push(lines.drop_first(), painted.drop_first(), l, p);
        assert(lines.push(l).drop_first() =~= lines.drop_first().push(l));
        assert(painted.push(p).drop_first() =~= painted.drop_first().push(p));
        assert(lines.push(l)[0] == lines[0]);
        assert(painted.push(p)[0] == painted[0]);
        assert(painted_shape(lines.push(l), painted.push(p)));
        assert(spec_styled_output(lines.push(l), painted.push(p)) =~= spec_styled_output(
            lines,
            painted,
        ) + (match l {
            OutputLineView::Blank => seq![NEWLINE_BYTE],
            OutputLineView::Styled { indent, spans } => spec_assembled_line(indent, p),
        }));
    }
}

/// Relies on `yansi::Paint::paint` and the `Display` of `yansi::Painted`:
/// the text painted with the style's terminal escape codes. What comes
/// back depends on the style's quirks and condition and on yansi's global
/// enable flag, so nothing is assumed of it here; text that is not valid
/// UTF-8 is returned unchanged.
#[verifier::external_body]
fn paint_bytes(style: &yansi::Style, text: &[u8]) -> (r: Vec<u8>) {
    match core::str::from_utf8(text) {
        Ok(s) => yansi::Paint::paint(s, *style).to_string().into_bytes(),
        Err(_) => text.to_vec(),
    }
}

/// Render a page to output bytes. In raw mode the page text is returned
/// unchanged, byte for byte, whatever the styles and other flags say.
/// Otherwise the output assembles the rendered page exactly: each blank
/// output line is a lone newline, and each styled output line is its
/// indentation, one painted fragment per span in order, and a newline.
/// What bytes painting a span gives is up to yansi and its global state,
/// so the fragments themselves are existentially quantified.
#[verifier::loop_isolation(false)]
pub fn render_page_styled(page: &[u8], cfg: &OutputConfig, styles: &StyleTable) -> (r: Vec<u8>)
    ensures
        cfg.raw_markdown ==> r@ == page@,
        !cfg.raw_markdown ==> exists|painted: Seq<Seq<Seq<u8>>>|
            painted_shape(
                crate::render::spec_render_page(crate::render::spec_lines(page@), *cfg),
                painted,
            ) && r@ == spec_styled_output(
                crate::render::spec_render_page(crate::render::spec_lines(page@), *cfg),
                painted,
            ),
{
    if cfg.raw_markdown {
        let r = copy_range(page, 0, page.len());
        proof {
            assert(r@ =~= page@);
        }
        return r;
    }
    let lines = render_page(page, cfg);
    let ghost lviews = crate::render::line_views(lines@);
    let mut out: Vec<u8> = Vec::new();
    let ghost mut pacc: Seq<Seq<Seq<u8>>> = Seq::empty();
    proof {
        assert(lviews.take(0) =~= Seq::<OutputLineView>::empty());
        assert(painted_shape(lviews.take(0), pacc));
        assert(out@ =~= spec_styled_output(lviews.take(0), pacc));
    }
    let mut i: usize = 0;
    while i < lines.len()
        invariant
            lviews == crate::render::line_views(lines@),
            0 <= i <= lines@.len(),
            painted_shape(lviews.take(i as int), pacc),
            out@ == spec_styled_output(lviews.take(i as int), pacc),
        decreases lines@.len() - i,
    {
        let ghost out0 = out@;
        let ghost pacc0 = pacc;
        proof {
            assert(lviews.take(i + 1) =~= lviews.take(i as int).push(lviews[i as int]));
            assert(lviews[i as int] == lines@[i as int]@);
        }
        match &lines[i] {
            OutputLine::Blank => {
                out.push(NEWLINE_BYTE);
                proof {
                    pacc = pacc.push(Seq::empty());
                    lemma_styled_output_push(
                        lviews.take(i as int),
                        pacc0,
                        lviews[i as int],
                        Seq::empty(),
                    );
                    assert(out@ =~= out0 + seq![NEWLINE_BYTE]);
                }
            },
            OutputLine::Styled { indent, spans } => {
                let mut painted: Vec<Vec<u8>> = Vec::new();
                let mut j: usize = 0;
                while j < spans.len()
                    invariant
                        0 <= j <= spans@.len(),
                        painted@.len() == j,
                    decreases spans@.len() - j,
                {
                    let sp = &spans[j];
                    painted.push(paint_bytes(styles.style_for(sp.role), sp.text.as_slice()));
                    j = j + 1;
                }
                let ghost pline = painted@.map_values(|v: Vec<u8>| v@);
                let mut line_bytes = assemble_styled_line(*indent, &painted);
                out.append(&mut line_bytes);
                proof {
                    pacc = pacc.push(pline);
                    lemma_styled_output_push(lviews.take(i as int), pacc0, lviews[i as int], pline);
                    assert(out@ =~= out0 + spec_assembled_line(*indent as int, pline));
                }
            },
        }
        i = i + 1;
    }
    proof {
        assert(lviews.take(lviews.len() as int) =~= lviews);
        assert(painted_shape(lviews, pacc));
        assert(out@ == spec_styled_output(lviews, pacc));
    }
    out
}

} // verus!
