//! Page rendering: the page text is split into lines, each line is
//! classified and its remainder decomposed into role-tagged spans, and the
//! results are composed into a sequence of output lines with the configured
//! indentation and blank-line policy.

use vstd::prelude::*;
use crate::classify::BACKTICK_BYTE;
use crate::classify::CLOSE_BRACE_BYTE;
use crate::classify::CR_BYTE;
use crate::classify::LineKind;
use crate::classify::NEWLINE_BYTE;
use crate::classify::OPEN_BRACE_BYTE;
use crate::classify::classify;
use crate::classify::copy_range;
use crate::classify::spec_kind;
use crate::classify::spec_remainder;
use crate::highlight::Role;
use crate::highlight::Span;
use crate::highlight::SpanView;
use crate::highlight::backtick_token;
use crate::highlight::highlight_between;
use crate::highlight::highlight_description;
use crate::highlight::spec_description_spans;
use crate::highlight::spec_highlight;
use crate::highlight::views_of;
use crate::split::split_on;
use crate::split::split_on_exec;

verus! {

/// The rendering options a caller supplies.
#[derive(Clone, Copy, Debug, PartialEq, Eq, Structural)]
pub struct OutputConfig {
    /// Emit the page text verbatim and skip all classification and styling.
    pub raw_markdown: bool,
    /// Whether title lines are rendered at all.
    pub show_title: bool,
    /// Suppress all blank-line padding, including the trailing blank line.
    pub compact: bool,
}

/// One line of rendered output: blank, or indented role-tagged spans.
#[derive(Debug, PartialEq, Eq)]
pub enum OutputLine {
    /// An empty output line.
    Blank,
    /// A content line: `indent` leading spaces, then the spans in order.
    Styled { indent: usize, spans: Vec<Span> },
}

/// The mathematical model of an output line.
#[verifier::ext_equal]
pub ghost enum OutputLineView {
    /// An empty output line.
    Blank,
    /// A content line with its indentation and span models.
    Styled { indent: int, spans: Seq<SpanView> },
}

impl View for OutputLine {
    type V = OutputLineView;

    open spec fn view(&self) -> OutputLineView {
        match self {
            OutputLine::Blank => OutputLineView::Blank,
            OutputLine::Styled { indent, spans } => OutputLineView::Styled {
                indent: *indent as int,
                spans: views_of(spans@),
            },
        }
    }
}

/// The models of a sequence of output lines.
pub open spec fn line_views(lines: Seq<OutputLine>) -> Seq<OutputLineView> {
    lines.map_values(|l: OutputLine| l@)
}

/// The one-byte line separator.
pub open spec fn newline_token() -> Seq<u8> {
    seq![NEWLINE_BYTE]
}

/// The two-byte `{{` token that opens a placeholder span.
pub open spec fn placeholder_open_token() -> Seq<u8> {
    seq![OPEN_BRACE_BYTE, OPEN_BRACE_BYTE]
}

/// The two-byte `}}` token that closes a placeholder span.
pub open spec fn placeholder_close_token() -> Seq<u8> {
    seq![CLOSE_BRACE_BYTE, CLOSE_BRACE_BYTE]
}

/// A line with a final carriage return dropped.
pub open spec fn chomp_cr(l: Seq<u8>) -> Seq<u8> {
    if l.len() > 0 && l.last() == CR_BYTE {
        l.drop_last()
    } else {
        l
    }
}

/// The lines of a page text: the text split on every newline byte, where a
/// final newline ends the last line rather than opening an empty one, and
/// a carriage return before a newline is dropped.
pub open spec fn spec_lines(s: Seq<u8>) -> Seq<Seq<u8>> {
    if s.len() == 0 {
        Seq::empty()
    } else {
        let parts = split_on(s, newline_token());
        if s.last() == NEWLINE_BYTE {
            parts.drop_last().map_values(|l: Seq<u8>| chomp_cr(l))
        } else {
            parts.drop_last().map_values(|l: Seq<u8>| chomp_cr(l)).push(parts.last())
        }
    }
}

/// The output lines one page line contributes: a title line is shown only
/// when configured, preceded by one blank line unless compact; description
/// and bullet lines are highlighted and indented two spaces; example lines
/// are highlighted and indented four spaces; a blank line is kept unless
/// compact; an unclassified line contributes nothing.
pub open spec fn spec_render_line(line: Seq<u8>, cfg: OutputConfig) -> Seq<OutputLineView> {
    let rem = spec_remainder(line);
    match spec_kind(line) {
        LineKind::Title => {
            if !cfg.show_title {
                Seq::empty()
            } else {
                let styled = OutputLineView::Styled {
                    indent: 2,
                    spans: seq![SpanView { text: rem, role: Role::Title }],
                };
                if cfg.compact {
                    seq![styled]
                } else {
                    seq![OutputLineView::Blank, styled]
                }
            }
        },
        LineKind::Description => seq![
            OutputLineView::Styled { indent: 2, spans: spec_description_spans(rem) },
        ],
        LineKind::Bullet => seq![
            OutputLineView::Styled {
                indent: 2,
                spans: spec_highlight(
                    backtick_token(),
                    backtick_token(),
                    rem,
                    Role::Bullet,
                    Role::InlineCode,
                ),
            },
        ],
        LineKind::Example => seq![
            OutputLineView::Styled {
                indent: 4,
                spans: spec_highlight(
                    placeholder_open_token(),
                    placeholder_close_token(),
                    rem,
                    Role::Example,
                    Role::Placeholder,
                ),
            },
        ],
        LineKind::Blank => {
            if cfg.compact {
                Seq::empty()
            } else {
                seq![OutputLineView::Blank]
            }
        },
        LineKind::Unclassified => Seq::empty(),
    }
}

/// The output lines of a sequence of page lines, in order.
pub open spec fn spec_render_lines(lines: Seq<Seq<u8>>, cfg: OutputConfig) -> Seq<OutputLineView>
    decreases lines.len(),
{
    if lines.len() == 0 {
        Seq::empty()
    } else {
        spec_render_line(lines[0], cfg) + spec_render_lines(lines.drop_first(), cfg)
    }
}

/// The rendered page: every line's output in order, with one trailing
/// blank line unless compact.
pub open spec fn spec_render_page(lines: Seq<Seq<u8>>, cfg: OutputConfig) -> Seq<OutputLineView> {
    spec_render_lines(lines, cfg) + if cfg.compact {
        Seq::<OutputLineView>::empty()
    } else {
        seq![OutputLineView::Blank]
    }
}

/// Drop a final carriage return from a line, copying it.
fn chomp_cr_exec(l: &[u8]) -> (r: Vec<u8>)
    ensures
        r@ == chomp_cr(l@),
{
    let n = l.len();
    if n > 0 && l[n - 1] == CR_BYTE {
        let r = copy_range(l, 0, n - 1);
        proof {
            assert(r@ =~= chomp_cr(l@));
        }
        r
    } else {
        let r = copy_range(l, 0, n);
        proof {
            assert(r@ =~= chomp_cr(l@));
        }
        r
    }
}

/// Split a page text into its lines.
#[verifier::loop_isolation(false)]
pub fn split_lines(s: &[u8]) -> (r: Vec<Vec<u8>>)
    ensures
        r@.map_values(|v: Vec<u8>| v@) == spec_lines(s@),
{
    let mut r: Vec<Vec<u8>> = Vec::new();
    if s.len() == 0 {
        proof {
            assert(r@.map_values(|v: Vec<u8>| v@) =~= spec_lines(s@));
        }
        return r;
    }
    let nl: Vec<u8> = vec![NEWLINE_BYTE];
    proof {
        assert(nl@ =~= newline_token());
    }
    let parts = split_on_exec(s, nl.as_slice());
    let ghost pviews = parts@.map_values(|v: Vec<u8>| v@);
    let n = parts.len();
    proof {
        crate::split::lemma_split_on_len(s@, newline_token());
    }
    let mut i: usize = 0;
    while i < n - 1
        invariant
            0 <= i <= n - 1,
            r@.map_values(|v: Vec<u8>| v@) =~= pviews.drop_last().map_values(
                |l: Seq<u8>| chomp_cr(l),
            ).subrange(0, i as int),
        decreases n - 1 - i,
    {
        let line = chomp_cr_exec(parts[i].as_slice());
        r.push(line);
        proof {
            assert(r@.map_values(|v: Vec<u8>| v@) =~= pviews.drop_last().map_values(
                |l: Seq<u8>| chomp_cr(l),
            ).subrange(0, i + 1));
        }
        i = i + 1;
    }
    proof {
        assert(pviews.drop_last().map_values(|l: Seq<u8>| chomp_cr(l)).subrange(
            0,
            n - 1,
        ) =~= pviews.drop_last().map_values(|l: Seq<u8>| chomp_cr(l)));
    }
    if s[s.len() - 1] != NEWLINE_BYTE {
        let f = &parts[n - 1];
        let last = copy_range(f.as_slice(), 0, f.len());
        proof {
            assert(last@ =~= pviews.last());
        }
        r.push(last);
        proof {
            assert(r@.map_values(|v: Vec<u8>| v@) =~= spec_lines(s@));
        }
    } else {
        proof {
            assert(r@.map_values(|v: Vec<u8>| v@) =~= spec_lines(s@));
        }
    }
    r
}

/// Render one classified page line into its output lines.
pub fn render_line(line: &[u8], cfg: &OutputConfig) -> (r: Vec<OutputLine>)
    ensures
        line_views(r@) == spec_render_line(line@, *cfg),
{
    let (kind, rem) = classify(line);
    let mut r: Vec<OutputLine> = Vec::new();
    match kind {
        LineKind::Title => {
            if cfg.show_title {
                if !cfg.compact {
                    r.push(OutputLine::Blank);
                }
                let spans: Vec<Span> = vec![Span { text: rem, role: Role::Title }];
                r.push(OutputLine::Styled { indent: 2, spans });
            }
        },
        LineKind::Description => {
            let spans = highlight_description(rem.as_slice());
            r.push(OutputLine::Styled { indent: 2, spans });
        },
        LineKind::Bullet => {
            let bt: Vec<u8> = vec![BACKTICK_BYTE];
            proof {
                assert(bt@ =~= backtick_token());
            }
            let spans = highlight_between(
                bt.as_slice(),
                bt.as_slice(),
                rem.as_slice(),
                Role::Bullet,
                Role::InlineCode,
            );
            r.push(OutputLine::Styled { indent: 2, spans });
        },
        LineKind::Example => {
            let oo: Vec<u8> = vec![OPEN_BRACE_BYTE, OPEN_BRACE_BYTE];
            let cc: Vec<u8> = vec![CLOSE_BRACE_BYTE, CLOSE_BRACE_BYTE];
            proof {
                assert(oo@ =~= placeholder_open_token());
                assert(cc@ =~= placeholder_close_token());
            }
            let spans = highlight_between(
                oo.as_slice(),
                cc.as_slice(),
                rem.as_slice(),
                Role::Example,
                Role::Placeholder,
            );
            r.push(OutputLine::Styled { indent: 4, spans });
        },
        LineKind::Blank => {
            if !cfg.compact {
                r.push(OutputLine::Blank);
            }
        },
        LineKind::Unclassified => {},
    }
    proof {
        assert(line_views(r@) =~~= spec_render_line(line@, *cfg));
    }
    r
}

/// Render a whole page into its output lines, in document order, with one
/// trailing blank line unless compact. The `raw_markdown` flag plays no
/// part here: raw mode bypasses rendering altogether.
#[verifier::loop_isolation(false)]
pub fn render_page(page: &[u8], cfg: &OutputConfig) -> (r: Vec<OutputLine>)
    ensures
        line_views(r@) == spec_render_page(spec_lines(page@), *cfg),
{
    let lines = split_lines(page);
    let ghost lviews = lines@.map_values(|v: Vec<u8>| v@);
    let mut r: Vec<OutputLine> = Vec::new();
    proof {
        assert(lviews.skip(0) =~= lviews);
        assert(line_views(r@) + spec_render_lines(lviews, *cfg) =~= spec_render_lines(
            lviews,
            *cfg,
        ));
    }
    let mut i: usize = 0;
    while i < lines.len()
        invariant
            lviews == lines@.map_values(|v: Vec<u8>| v@),
            0 <= i <= lines@.len(),
            spec_render_lines(lviews, *cfg) == line_views(r@) + spec_render_lines(
                lviews.skip(i as int),
                *cfg,
            ),
        decreases lines@.len() - i,
    {
        let ghost r0 = r@;
        proof {
            assert(lviews.skip(i as int)[0] == lines@[i as int]@);
            assert(lviews.skip(i as int).drop_first() =~= lviews.skip(i + 1));
        }
        let mut out = render_line(lines[i].as_slice(), cfg);
        let ghost outv = out@;
        r.append(&mut out);
        proof {
            assert(line_views(r@) =~= line_views(r0) + line_views(outv));
        }
        i = i + 1;
    }
    proof {
        assert(lviews.skip(lviews.len() as int) =~= Seq::<Seq<u8>>::empty());
        assert(line_views(r@) + spec_render_lines(
            lviews.skip(lviews.len() as int),
            *cfg,
        ) =~= line_views(r@));
    }
    if !cfg.compact {
        let ghost r1 = r@;
        r.push(OutputLine::Blank);
        proof {
            assert(line_views(r@) =~= line_views(r1).push(OutputLineView::Blank));
            assert(line_views(r@) =~= spec_render_page(spec_lines(page@), *cfg));
        }
    } else {
        proof {
            assert(line_views(r@) + Seq::<OutputLineView>::empty() =~= line_views(r@));
        }
    }
    r
}

/// Compact suppression over one page line: with `compact` set, no line of
/// page text contributes a blank output line.
proof fn lemma_compact_line_no_blanks(line: Seq<u8>, cfg: OutputConfig)
    requires
        cfg.compact,
    ensures
        forall|i: int|
            0 <= i < spec_render_line(line, cfg).len() ==> spec_render_line(line, cfg)[i]
                is Styled,
{
}

/// Compact suppression over the line sequence.
proof fn lemma_compact_lines_no_blanks(lines: Seq<Seq<u8>>, cfg: OutputConfig)
    requires
        cfg.compact,
    ensures
        forall|i: int|
            0 <= i < spec_render_lines(lines, cfg).len() ==> spec_render_lines(lines, cfg)[i]
                is Styled,
    decreases lines.len(),
{
    if lines.len() == 0 {
    } else {
        lemma_compact_line_no_blanks(lines[0], cfg);
        lemma_compact_lines_no_blanks(lines.drop_first(), cfg);
    }
}

/// Compact suppression: with `compact` set, a rendered page contains no
/// blank output line at all; in particular it has no trailing blank line.
pub proof fn lemma_compact_suppresses_blanks(lines: Seq<Seq<u8>>, cfg: OutputConfig)
    requires
        cfg.compact,
    ensures
        forall|i: int|
            0 <= i < spec_render_page(lines, cfg).len() ==> spec_render_page(lines, cfg)[i]
                is Styled,
{
    lemma_compact_lines_no_blanks(lines, cfg);
    assert(spec_render_page(lines, cfg) =~= spec_render_lines(lines, cfg));
}

/// Title padding: with `compact` unset and titles shown, a title line
/// contributes exactly one blank line followed by its styled title.
pub proof fn lemma_title_blank_padding(line: Seq<u8>, cfg: OutputConfig)
    requires
        !cfg.compact,
        cfg.show_title,
        spec_kind(line) == LineKind::Title,
    ensures
        spec_render_line(line, cfg) == seq![
            OutputLineView::Blank,
            OutputLineView::Styled {
                indent: 2,
                spans: seq![SpanView { text: spec_remainder(line), role: Role::Title }],
            },
        ],
{
}

/// Rendering distributes over any split of the line sequence.
pub proof fn lemma_render_lines_split(lines: Seq<Seq<u8>>, cfg: OutputConfig, j: int)
    requires
        0 <= j <= lines.len(),
    ensures
        spec_render_lines(lines, cfg) == spec_render_lines(lines.take(j), cfg)
            + spec_render_lines(lines.skip(j), cfg),
    decreases j,
{
    if j == 0 {
        assert(lines.take(0) =~= Seq::<Seq<u8>>::empty());
        assert(lines.skip(0) =~= lines);
        assert(spec_render_lines(lines.take(0), cfg) + spec_render_lines(lines, cfg)
            =~= spec_render_lines(lines, cfg));
    } else {
        let rest = lines.drop_first();
        lemma_render_lines_split(rest, cfg, j - 1);
        assert(lines.take(j)[0] == lines[0]);
        assert(lines.take(j).drop_first() =~= rest.take(j - 1));
        assert(lines.skip(j) =~= rest.skip(j - 1));
        assert(spec_render_lines(lines, cfg) =~= spec_render_lines(lines.take(j), cfg)
            + spec_render_lines(lines.skip(j), cfg));
    }
}

/// Title padding across a whole page: with `compact` unset and titles
/// shown, a title line's contribution to the rendered page is one blank
/// line immediately followed by its styled title, placed right after the
/// output of all earlier lines.
pub proof fn lemma_title_padding_in_page(lines: Seq<Seq<u8>>, cfg: OutputConfig, j: int)
    requires
        !cfg.compact,
        cfg.show_title,
        0 <= j < lines.len(),
        spec_kind(lines[j]) == LineKind::Title,
    ensures
        ({
            let at = spec_render_lines(lines.take(j), cfg).len() as int;
            let out = spec_render_page(lines, cfg);
            &&& at + 2 <= out.len()
            &&& out[at] == OutputLineView::Blank
            &&& out[at + 1] == (OutputLineView::Styled {
                indent: 2,
                spans: seq![SpanView { text: spec_remainder(lines[j]), role: Role::Title }],
            })
        }),
{
    lemma_render_lines_split(lines, cfg, j);
    lemma_title_blank_padding(lines[j], cfg);
    let tail = lines.skip(j);
    assert(tail[0] == lines[j]);
    assert(tail.drop_first() =~= lines.skip(j + 1));
    assert(spec_render_lines(tail, cfg) == spec_render_line(lines[j], cfg) + spec_render_lines(
        lines.skip(j + 1),
        cfg,
    ));
    let at = spec_render_lines(lines.take(j), cfg).len() as int;
    let out = spec_render_page(lines, cfg);
    assert(out[at] == spec_render_line(lines[j], cfg)[0]);
    assert(out[at + 1] == spec_render_line(lines[j], cfg)[1]);
}

/// Title visibility: with `show_title` unset, a title line contributes no
/// output at all.
pub proof fn lemma_title_hidden(line: Seq<u8>, cfg: OutputConfig)
    requires
        !cfg.show_title,
        spec_kind(line) == LineKind::Title,
    ensures
        spec_render_line(line, cfg) == Seq::<OutputLineView>::empty(),
{
}

} // verus!
