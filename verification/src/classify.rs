//! Line classification: each page line is assigned a kind by its leading
//! marker, and the marker is stripped from the returned remainder.

use vstd::prelude::*;

verus! {

use crate::split::find_first;
use crate::split::is_match_at;
use crate::split::lemma_find_first_characterization;
use crate::split::lemma_match_shift;

/// The kind of a page line, decided by a fixed leading-token test.
#[derive(Clone, Copy, Debug, PartialEq, Eq, Structural)]
pub enum LineKind {
    /// Line starts with `"# "`.
    Title,
    /// Line starts with `"> "`.
    Description,
    /// Line starts with `"- "`.
    Bullet,
    /// Line of length at least two whose first and last bytes are backticks.
    Example,
    /// Empty line.
    Blank,
    /// Anything else; such lines produce no rendered output.
    Unclassified,
}

/// The byte `'#'`.
pub const HASH_BYTE: u8 = 35;

/// The byte `' '`.
pub const SPACE_BYTE: u8 = 32;

/// The byte `'>'`.
pub const GT_BYTE: u8 = 62;

/// The byte `'<'`.
pub const LT_BYTE: u8 = 60;

/// The byte `'-'`.
pub const DASH_BYTE: u8 = 45;

/// The backtick byte.
pub const BACKTICK_BYTE: u8 = 96;

/// The byte `'{'`.
pub const OPEN_BRACE_BYTE: u8 = 123;

/// The byte `'}'`.
pub const CLOSE_BRACE_BYTE: u8 = 125;

/// The byte `'\n'`.
pub const NEWLINE_BYTE: u8 = 10;

/// The byte `'\r'`.
pub const CR_BYTE: u8 = 13;

/// The two-byte marker `"# "` that opens a title line.
pub open spec fn title_marker() -> Seq<u8> {
    seq![HASH_BYTE, SPACE_BYTE]
}

/// The two-byte marker `"> "` that opens a description line.
pub open spec fn description_marker() -> Seq<u8> {
    seq![GT_BYTE, SPACE_BYTE]
}

/// The two-byte marker `"- "` that opens a bullet line.
pub open spec fn bullet_marker() -> Seq<u8> {
    seq![DASH_BYTE, SPACE_BYTE]
}

/// The backtick glyph that envelopes an example line.
pub open spec fn example_glyph() -> u8 {
    BACKTICK_BYTE
}

/// True when `line` starts with the two-byte marker `m`.
pub open spec fn starts_with_marker(line: Seq<u8>, m: Seq<u8>) -> bool {
    line.len() >= m.len() && line.subrange(0, m.len() as int) == m
}

/// The kind of `line`, checking markers in fixed priority order:
/// title, description, bullet, example envelope, blank, unclassified.
pub open spec fn spec_kind(line: Seq<u8>) -> LineKind {
    if starts_with_marker(line, title_marker()) {
        LineKind::Title
    } else if starts_with_marker(line, description_marker()) {
        LineKind::Description
    } else if starts_with_marker(line, bullet_marker()) {
        LineKind::Bullet
    } else if line.len() >= 2 && line[0] == example_glyph() && line[line.len() - 1]
        == example_glyph() {
        LineKind::Example
    } else if line.len() == 0 {
        LineKind::Blank
    } else {
        LineKind::Unclassified
    }
}

/// The line with its matched marker stripped: the two-byte prefix for
/// title, description and bullet lines, both envelope glyphs for example
/// lines, and the line unchanged otherwise.
pub open spec fn spec_remainder(line: Seq<u8>) -> Seq<u8> {
    match spec_kind(line) {
        LineKind::Title => line.skip(2),
        LineKind::Description => line.skip(2),
        LineKind::Bullet => line.skip(2),
        LineKind::Example => line.subrange(1, line.len() - 1),
        LineKind::Blank => line,
        LineKind::Unclassified => line,
    }
}

/// Classify one line of page text and strip its marker.
pub fn classify(line: &[u8]) -> (res: (LineKind, Vec<u8>))
    ensures
        res.0 == spec_kind(line@),
        res.1@ == spec_remainder(line@),
{
    let n = line.len();
    if n >= 2 && line[0] == HASH_BYTE && line[1] == SPACE_BYTE {
        proof {
            assert(line@.subrange(0, 2) =~= title_marker());
        }
        (LineKind::Title, copy_range(line, 2, n))
    } else if n >= 2 && line[0] == GT_BYTE && line[1] == SPACE_BYTE {
        proof {
            assert(line@.subrange(0, 2) =~= description_marker());
        }
        (LineKind::Description, copy_range(line, 2, n))
    } else if n >= 2 && line[0] == DASH_BYTE && line[1] == SPACE_BYTE {
        proof {
            assert(line@.subrange(0, 2) =~= bullet_marker());
        }
        (LineKind::Bullet, copy_range(line, 2, n))
    } else if n >= 2 && line[0] == BACKTICK_BYTE && line[n - 1] == BACKTICK_BYTE {
        proof {
            assert(spec_kind(line@) == LineKind::Example);
        }
        (LineKind::Example, copy_range(line, 1, n - 1))
    } else if n == 0 {
        (LineKind::Blank, Vec::new())
    } else {
        proof {
            assert(spec_kind(line@) == LineKind::Unclassified);
            assert(copy_range_spec(line@, 0, n as int) =~= line@);
        }
        (LineKind::Unclassified, copy_range(line, 0, n))
    }
}

/// The subrange `s[from..to]` as a sequence.
pub open spec fn copy_range_spec(s: Seq<u8>, from: int, to: int) -> Seq<u8> {
    s.subrange(from, to)
}

/// Copy the byte range `s[from..to]` into a fresh vector.
pub fn copy_range(s: &[u8], from: usize, to: usize) -> (r: Vec<u8>)
    requires
        from <= to <= s@.len(),
    ensures
        r@ == copy_range_spec(s@, from as int, to as int),
{
    let mut r: Vec<u8> = Vec::new();
    let mut i: usize = from;
    while i < to
        invariant
            from <= i <= to <= s@.len(),
            r@ == s@.subrange(from as int, i as int),
        decreases to - i,
    {
        r.push(s[i]);
        proof {
            assert(r@ =~= s@.subrange(from as int, i + 1));
        }
        i = i + 1;
    }
    r
}

/// Whether the marker matched by `classify` occurs in `line` only as the
/// match itself: only at the head for title, description and bullet lines,
/// and only as the two envelope glyphs for example lines. Lines that match
/// no marker satisfy this trivially.
pub open spec fn marker_only_at_match(line: Seq<u8>) -> bool {
    match spec_kind(line) {
        LineKind::Title => forall|i: int| 1 <= i ==> !is_match_at(line, title_marker(), i),
        LineKind::Description => forall|i: int|
            1 <= i ==> !is_match_at(line, description_marker(), i),
        LineKind::Bullet => forall|i: int| 1 <= i ==> !is_match_at(line, bullet_marker(), i),
        LineKind::Example => forall|i: int|
            1 <= i < line.len() - 1 ==> line[i] != example_glyph(),
        LineKind::Blank => true,
        LineKind::Unclassified => true,
    }
}

/// A two-byte head marker, stripped, leaves a remainder free of it.
proof fn lemma_prefix_marker_stripped(line: Seq<u8>, m: Seq<u8>)
    requires
        m.len() == 2,
        line.len() >= 2,
        forall|i: int| 1 <= i ==> !is_match_at(line, m, i),
    ensures
        find_first(line.skip(2), m) is None,
        !is_match_at(line.skip(2), m, 0),
{
    let rem = line.skip(2);
    assert forall|i: int| !is_match_at(rem, m, i) by {
        if 0 <= i {
            lemma_match_shift(line, m, 2, i);
        }
    }
    lemma_find_first_characterization(rem, m);
    match find_first(rem, m) {
        Option::None => {},
        Option::Some(j) => {
            assert(!is_match_at(rem, m, j));
            assert(false);
        },
    }
}

/// Classification idempotence: when the matched marker occurs in the line
/// only as its match, the remainder contains no occurrence of that marker,
/// and re-classifying the remainder never yields the same kind again.
pub proof fn lemma_classify_strips_marker(line: Seq<u8>)
    requires
        marker_only_at_match(line),
    ensures
        spec_kind(line) == LineKind::Title ==> find_first(spec_remainder(line), title_marker())
            is None && spec_kind(spec_remainder(line)) != LineKind::Title,
        spec_kind(line) == LineKind::Description ==> find_first(
            spec_remainder(line),
            description_marker(),
        ) is None && spec_kind(spec_remainder(line)) != LineKind::Description,
        spec_kind(line) == LineKind::Bullet ==> find_first(spec_remainder(line), bullet_marker())
            is None && spec_kind(spec_remainder(line)) != LineKind::Bullet,
        spec_kind(line) == LineKind::Example ==> (forall|i: int|
            0 <= i < spec_remainder(line).len() ==> spec_remainder(line)[i] != example_glyph())
            && spec_kind(spec_remainder(line)) != LineKind::Example,
{
    let rem = spec_remainder(line);
    match spec_kind(line) {
        LineKind::Title => {
            lemma_prefix_marker_stripped(line, title_marker());
            assert(!is_match_at(rem, title_marker(), 0));
        },
        LineKind::Description => {
            lemma_prefix_marker_stripped(line, description_marker());
            assert(!is_match_at(rem, description_marker(), 0));
        },
        LineKind::Bullet => {
            lemma_prefix_marker_stripped(line, bullet_marker());
            assert(!is_match_at(rem, bullet_marker(), 0));
        },
        LineKind::Example => {
            assert forall|i: int| 0 <= i < rem.len() implies rem[i] != example_glyph() by {
                assert(rem[i] == line[i + 1]);
            }
            if rem.len() >= 2 {
                assert(rem[0] != example_glyph());
            }
        },
        LineKind::Blank => {},
        LineKind::Unclassified => {},
    }
}

} // verus!
