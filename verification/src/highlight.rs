//! Marker-pair highlighting: a line's text is decomposed into an ordered
//! sequence of role-tagged spans. A symmetric pair (open token equal to the
//! close token) toggles between the normal and the highlight role; an
//! asymmetric pair highlights, in every fragment that follows an open token
//! or starts the text, the part up to the first close token.

use vstd::prelude::*;
use crate::classify::BACKTICK_BYTE;
use crate::classify::GT_BYTE;
use crate::classify::LT_BYTE;
use crate::classify::copy_range;
use crate::split::count_matches;
use crate::split::find_first;
use crate::split::find_first_from;
use crate::split::lemma_split_on_len;
use crate::split::split_on;
use crate::split::split_on_exec;

verus! {

/// The semantic styling category of a span or line.
#[derive(Clone, Copy, Debug, PartialEq, Eq, Structural)]
pub enum Role {
    /// A title line.
    Title,
    /// Plain text of a description line.
    Description,
    /// Plain text of a bullet line.
    Bullet,
    /// Plain text of an example line.
    Example,
    /// A span between `<` and `>` in a description line.
    Url,
    /// A span between backticks in a description or bullet line.
    InlineCode,
    /// A span between `{{` and `}}` in an example line.
    Placeholder,
}

/// One role-tagged fragment of an output line.
#[derive(Debug, PartialEq, Eq)]
pub struct Span {
    /// The literal text of the fragment, with the delimiters consumed.
    pub text: Vec<u8>,
    /// The styling role the fragment is rendered with.
    pub role: Role,
}

/// The mathematical model of a span.
#[verifier::ext_equal]
pub ghost struct SpanView {
    /// The fragment's text.
    pub text: Seq<u8>,
    /// The fragment's role.
    pub role: Role,
}

impl View for Span {
    type V = SpanView;

    open spec fn view(&self) -> SpanView {
        SpanView { text: self.text@, role: self.role }
    }
}

/// The models of a sequence of spans.
pub open spec fn views_of(spans: Seq<Span>) -> Seq<SpanView> {
    spans.map_values(|sp: Span| sp@)
}

/// How many of the given spans carry the given role.
pub open spec fn count_role(spans: Seq<SpanView>, role: Role) -> nat
    decreases spans.len(),
{
    if spans.len() == 0 {
        0
    } else {
        (if spans.last().role == role {
            1nat
        } else {
            0nat
        }) + count_role(spans.drop_last(), role)
    }
}

/// Fragments of a symmetric split alternate roles by index parity,
/// starting with the normal role.
pub open spec fn sym_spans(frags: Seq<Seq<u8>>, normal: Role, hl: Role) -> Seq<SpanView> {
    frags.map(
        |i: int, f: Seq<u8>|
            SpanView {
                text: f,
                role: if i % 2 == 0 {
                    normal
                } else {
                    hl
                },
            },
    )
}

/// The spans of one fragment of an asymmetric split: up to the first close
/// token the highlight role, after it the normal role; a fragment without
/// a close token is wholly normal.
pub open spec fn asym_frag_spans(f: Seq<u8>, close: Seq<u8>, normal: Role, hl: Role) -> Seq<
    SpanView,
> {
    match find_first(f, close) {
        Option::None => seq![SpanView { text: f, role: normal }],
        Option::Some(i) => seq![
            SpanView { text: f.subrange(0, i), role: hl },
            SpanView { text: f.skip(i + close.len()), role: normal },
        ],
    }
}

/// The spans of all fragments of an asymmetric split, in order.
pub open spec fn asym_spans(frags: Seq<Seq<u8>>, close: Seq<u8>, normal: Role, hl: Role) -> Seq<
    SpanView,
>
    decreases frags.len(),
{
    if frags.len() == 0 {
        Seq::empty()
    } else {
        asym_frag_spans(frags[0], close, normal, hl) + asym_spans(
            frags.drop_first(),
            close,
            normal,
            hl,
        )
    }
}

/// The highlight decomposition of `s` on the marker pair `(from, to)`:
/// `s` is split on every occurrence of `from`; a symmetric pair toggles
/// roles by fragment parity, an asymmetric pair highlights each fragment
/// up to its first close token.
pub open spec fn spec_highlight(
    from: Seq<u8>,
    to: Seq<u8>,
    s: Seq<u8>,
    normal: Role,
    hl: Role,
) -> Seq<SpanView> {
    if from == to {
        sym_spans(split_on(s, from), normal, hl)
    } else {
        asym_spans(split_on(s, from), to, normal, hl)
    }
}

/// Are two byte slices equal?
pub fn bytes_eq(a: &[u8], b: &[u8]) -> (r: bool)
    ensures
        r == (a@ == b@),
{
    if a.len() != b.len() {
        return false;
    }
    let mut i: usize = 0;
    while i < a.len()
        invariant
            a@.len() == b@.len(),
            0 <= i <= a@.len(),
            forall|k: int| 0 <= k < i ==> a@[k] == b@[k],
        decreases a@.len() - i,
    {
        if a[i] != b[i] {
            return false;
        }
        i = i + 1;
    }
    proof {
        assert(a@ =~= b@);
    }
    true
}

/// Decompose `s` into role-tagged spans on the marker pair `(from, to)`,
/// consuming the delimiters.
#[verifier::loop_isolation(false)]
pub fn highlight_between(from: &[u8], to: &[u8], s: &[u8], normal: Role, hl: Role) -> (r: Vec<
    Span,
>)
    requires
        1 <= from@.len(),
        1 <= to@.len(),
    ensures
        views_of(r@) == spec_highlight(from@, to@, s@, normal, hl),
{
    let frags = split_on_exec(s, from);
    let mut r: Vec<Span> = Vec::new();
    let ghost fviews = frags@.map_values(|v: Vec<u8>| v@);
    if bytes_eq(from, to) {
        let mut i: usize = 0;
        while i < frags.len()
            invariant
                fviews == frags@.map_values(|v: Vec<u8>| v@),
                fviews == split_on(s@, from@),
                from@ == to@,
                0 <= i <= frags@.len(),
                views_of(r@) =~= sym_spans(fviews, normal, hl).subrange(0, i as int),
            decreases frags@.len() - i,
        {
            let f = &frags[i];
            let piece = copy_range(f.as_slice(), 0, f.len());
            proof {
                assert(piece@ =~= fviews[i as int]);
            }
            let role = if i % 2 == 0 {
                normal
            } else {
                hl
            };
            r.push(Span { text: piece, role });
            proof {
                assert(views_of(r@) =~= sym_spans(fviews, normal, hl).subrange(0, i + 1));
            }
            i = i + 1;
        }
        proof {
            assert(sym_spans(fviews, normal, hl).subrange(0, fviews.len() as int) =~= sym_spans(
                fviews,
                normal,
                hl,
            ));
        }
        r
    } else {
        proof {
            assert(fviews.skip(0) =~= fviews);
            assert(views_of(r@) + asym_spans(fviews, to@, normal, hl) =~= asym_spans(
                fviews,
                to@,
                normal,
                hl,
            ));
        }
        let mut i: usize = 0;
        while i < frags.len()
            invariant
                fviews == frags@.map_values(|v: Vec<u8>| v@),
                fviews == split_on(s@, from@),
                from@ != to@,
                1 <= to@.len(),
                0 <= i <= frags@.len(),
                asym_spans(fviews, to@, normal, hl) == views_of(r@) + asym_spans(
                    fviews.skip(i as int),
                    to@,
                    normal,
                    hl,
                ),
            decreases frags@.len() - i,
        {
            let ghost r0 = r@;
            let f = &frags[i];
            proof {
                assert(fviews.skip(i as int).drop_first() =~= fviews.skip(i + 1));
                assert(fviews.skip(i as int)[0] == f@);
            }
            match find_first_from(f.as_slice(), to, 0) {
                Option::None => {
                    proof {
                        assert(f@.skip(0) =~= f@);
                    }
                    let piece = copy_range(f.as_slice(), 0, f.len());
                    proof {
                        assert(piece@ =~= f@);
                    }
                    r.push(Span { text: piece, role: normal });
                    proof {
                        assert(views_of(r@) =~= views_of(r0) + asym_frag_spans(
                            f@,
                            to@,
                            normal,
                            hl,
                        ));
                    }
                },
                Option::Some(j) => {
                    proof {
                        assert(f@.skip(0) =~= f@);
                    }
                    let flen = f.len();
                    let head = copy_range(f.as_slice(), 0, j);
                    let tail = copy_range(f.as_slice(), j + to.len(), flen);
                    proof {
                        assert(tail@ =~= f@.skip(j + to@.len()));
                    }
                    r.push(Span { text: head, role: hl });
                    r.push(Span { text: tail, role: normal });
                    proof {
                        assert(views_of(r@) =~= views_of(r0) + asym_frag_spans(
                            f@,
                            to@,
                            normal,
                            hl,
                        ));
                    }
                },
            }
            proof {
                assert(asym_spans(fviews.skip(i as int), to@, normal, hl) == asym_frag_spans(
                    f@,
                    to@,
                    normal,
                    hl,
                ) + asym_spans(fviews.skip(i + 1), to@, normal, hl));
            }
            i = i + 1;
        }
        proof {
            assert(fviews.skip(fviews.len() as int) =~= Seq::<Seq<u8>>::empty());
            assert(views_of(r@) + asym_spans(
                fviews.skip(fviews.len() as int),
                to@,
                normal,
                hl,
            ) =~= views_of(r@));
        }
        r
    }
}

/// The one-byte backtick token that delimits inline code.
pub open spec fn backtick_token() -> Seq<u8> {
    seq![BACKTICK_BYTE]
}

/// The one-byte `<` token that opens a URL span.
pub open spec fn url_open_token() -> Seq<u8> {
    seq![LT_BYTE]
}

/// The one-byte `>` token that closes a URL span.
pub open spec fn url_close_token() -> Seq<u8> {
    seq![GT_BYTE]
}

/// The role of a piece after the inline-code pass: a span the outer pass
/// already highlighted as a URL keeps that role; otherwise a piece inside
/// a backtick region becomes inline code, and one outside keeps the outer
/// role.
pub open spec fn overlay_role(outer: Role, inside: bool) -> Role {
    if outer == Role::Url {
        Role::Url
    } else if inside {
        Role::InlineCode
    } else {
        outer
    }
}

/// Whether piece `j` of a fragment list lies inside a backtick region,
/// when the region toggle stood at `inside` before the first piece.
pub open spec fn piece_inside(inside: bool, j: int) -> bool {
    if j % 2 == 0 {
        inside
    } else {
        !inside
    }
}

/// The region toggle after consuming the backticks of a text split into
/// `n` fragments (that is, `n - 1` backticks).
pub open spec fn toggle_after(inside: bool, n: int) -> bool {
    piece_inside(inside, n - 1)
}

/// The inline-code pass over an already span-tagged text: each span's text
/// is split on backticks, which are consumed; the toggle between code and
/// plain regions runs across span boundaries; each piece is re-tagged by
/// `overlay_role`.
pub open spec fn code_overlay(spans: Seq<SpanView>, inside: bool) -> Seq<SpanView>
    decreases spans.len(),
{
    if spans.len() == 0 {
        Seq::empty()
    } else {
        let frags = split_on(spans[0].text, backtick_token());
        let here = frags.map(
            |j: int, f: Seq<u8>|
                SpanView { text: f, role: overlay_role(spans[0].role, piece_inside(inside, j)) },
        );
        here + code_overlay(spans.drop_first(), toggle_after(inside, frags.len() as int))
    }
}

/// The span decomposition of a description line's remainder: the URL pass
/// on the `<`/`>` pair first, then the inline-code pass on backticks over
/// the resulting spans' literal text.
pub open spec fn spec_description_spans(rem: Seq<u8>) -> Seq<SpanView> {
    code_overlay(
        spec_highlight(url_open_token(), url_close_token(), rem, Role::Description, Role::Url),
        false,
    )
}

/// Decompose a description line's remainder into role-tagged spans:
/// URL spans between `<` and `>`, inline-code spans between backticks,
/// plain description text elsewhere.
#[verifier::loop_isolation(false)]
pub fn highlight_description(rem: &[u8]) -> (r: Vec<Span>)
    ensures
        views_of(r@) == spec_description_spans(rem@),
{
    let lt: Vec<u8> = vec![LT_BYTE];
    let gt: Vec<u8> = vec![GT_BYTE];
    let bt: Vec<u8> = vec![BACKTICK_BYTE];
    proof {
        assert(lt@ =~= url_open_token());
        assert(gt@ =~= url_close_token());
        assert(bt@ =~= backtick_token());
    }
    let outer = highlight_between(lt.as_slice(), gt.as_slice(), rem, Role::Description, Role::Url);
    let ghost oviews = views_of(outer@);
    let mut r: Vec<Span> = Vec::new();
    let mut inside: bool = false;
    proof {
        assert(oviews.skip(0) =~= oviews);
        assert(views_of(r@) + code_overlay(oviews, false) =~= code_overlay(oviews, false));
    }
    let mut i: usize = 0;
    while i < outer.len()
        invariant
            oviews == views_of(outer@),
            0 <= i <= outer@.len(),
            spec_description_spans(rem@) == views_of(r@) + code_overlay(
                oviews.skip(i as int),
                inside,
            ),
        decreases outer@.len() - i,
    {
        let sp = &outer[i];
        let frags = split_on_exec(sp.text.as_slice(), bt.as_slice());
        let ghost fviews = frags@.map_values(|v: Vec<u8>| v@);
        let ghost here = fviews.map(
            |j: int, f: Seq<u8>|
                SpanView { text: f, role: overlay_role(sp.role, piece_inside(inside, j)) },
        );
        proof {
            assert(oviews.skip(i as int)[0] == sp@);
            assert(oviews.skip(i as int).drop_first() =~= oviews.skip(i + 1));
            assert(code_overlay(oviews.skip(i as int), inside) == here + code_overlay(
                oviews.skip(i + 1),
                toggle_after(inside, fviews.len() as int),
            ));
        }
        let ghost r1 = r@;
        let mut j: usize = 0;
        while j < frags.len()
            invariant
                fviews == frags@.map_values(|v: Vec<u8>| v@),
                here == fviews.map(
                    |j: int, f: Seq<u8>|
                        SpanView { text: f, role: overlay_role(sp.role, piece_inside(inside, j)) },
                ),
                0 <= j <= frags@.len(),
                views_of(r@) =~= views_of(r1) + here.subrange(0, j as int),
            decreases frags@.len() - j,
        {
            let f = &frags[j];
            let piece = copy_range(f.as_slice(), 0, f.len());
            proof {
                assert(piece@ =~= fviews[j as int]);
            }
            let role = overlay_role_exec(sp.role, if j % 2 == 0 {
                inside
            } else {
                !inside
            });
            r.push(Span { text: piece, role });
            proof {
                assert(r@.len() == r1.len() + j + 1);
                assert(role == overlay_role(sp.role, piece_inside(inside, j as int)));
                assert(here[j as int] == SpanView {
                    text: fviews[j as int],
                    role: overlay_role(sp.role, piece_inside(inside, j as int)),
                });
                assert(r@[r1.len() + j as int]@ == SpanView { text: piece@, role: role });
                assert(forall|k: int| 0 <= k < r1.len() + j ==> views_of(r@)[k] == (views_of(r1)
                    + here.subrange(0, j as int))[k]);
                assert(views_of(r@) =~= views_of(r1) + here.subrange(0, j + 1));
            }
            j = j + 1;
        }
        proof {
            assert(here.subrange(0, here.len() as int) =~= here);
        }
        inside = if (frags.len() - 1) % 2 == 0 {
            inside
        } else {
            !inside
        };
        i = i + 1;
    }
    proof {
        assert(oviews.skip(oviews.len() as int) =~= Seq::<SpanView>::empty());
        assert(views_of(r@) + code_overlay(oviews.skip(oviews.len() as int), inside) =~= views_of(
            r@,
        ));
    }
    r
}

/// In a span sequence whose roles alternate between `normal` and `hl`,
/// starting with `normal`, the highlighted spans are half the total,
/// rounded down, and the normal spans are the rest.
proof fn lemma_alternating_counts(spans: Seq<SpanView>, normal: Role, hl: Role)
    requires
        normal != hl,
        forall|i: int| 0 <= i < spans.len() ==> spans[i].role == (if i % 2 == 0 {
            normal
        } else {
            hl
        }),
    ensures
        count_role(spans, hl) == spans.len() / 2,
        count_role(spans, normal) == spans.len() - spans.len() / 2,
    decreases spans.len(),
{
    if spans.len() == 0 {
    } else {
        let prefix = spans.drop_last();
        assert(forall|i: int| 0 <= i < prefix.len() ==> prefix[i].role == (if i % 2 == 0 {
            normal
        } else {
            hl
        }));
        lemma_alternating_counts(prefix, normal, hl);
        assert(spans.last().role == (if (spans.len() - 1) % 2 == 0 {
            normal
        } else {
            hl
        }));
        if spans.last().role == hl {
            assert(count_role(spans, hl) == count_role(prefix, hl) + 1);
            assert(count_role(spans, normal) == count_role(prefix, normal));
        } else {
            assert(count_role(spans, hl) == count_role(prefix, hl));
            assert(count_role(spans, normal) == count_role(prefix, normal) + 1);
        }
    }
}

/// Symmetric toggle parity: splitting on a symmetric delimiter that occurs
/// exactly `2 * k` times yields exactly `k` highlighted spans and `k + 1`
/// (possibly empty) normal spans, in alternating order starting normal.
pub proof fn lemma_symmetric_toggle_parity(d: Seq<u8>, s: Seq<u8>, normal: Role, hl: Role, k: nat)
    requires
        1 <= d.len(),
        normal != hl,
        count_matches(s, d) == 2 * k,
    ensures
        spec_highlight(d, d, s, normal, hl).len() == 2 * k + 1,
        forall|i: int| 0 <= i < 2 * k + 1 ==> spec_highlight(d, d, s, normal, hl)[i].role == (if i
            % 2 == 0 {
            normal
        } else {
            hl
        }),
        count_role(spec_highlight(d, d, s, normal, hl), hl) == k,
        count_role(spec_highlight(d, d, s, normal, hl), normal) == k + 1,
{
    lemma_split_on_len(s, d);
    let spans = spec_highlight(d, d, s, normal, hl);
    assert(spans.len() == 2 * k + 1);
    lemma_alternating_counts(spans, normal, hl);
}

/// The executable form of `overlay_role`.
fn overlay_role_exec(outer: Role, inside: bool) -> (r: Role)
    ensures
        r == overlay_role(outer, inside),
{
    if outer == Role::Url {
        Role::Url
    } else if inside {
        Role::InlineCode
    } else {
        outer
    }
}

} // verus!
