//! Rendering a grid as a bordered block of two-character terrain glyphs.
//!
//! Each cell is classified by the caller's thresholds: below `beach_level` it
//! is water, from `beach_level` up to (not including) `hills_level` lowland,
//! and from `hills_level` up hill. No ordering of the thresholds is required:
//! when `hills_level <= beach_level` the lowland band is simply empty.

use crate::grid::TerrainGrid;
use vstd::arithmetic::div_mod::{lemma_mod_multiples_vanish, lemma_small_mod};
use vstd::prelude::*;
use vstd::string::StringExecFns;

verus! {

/// The two-character glyph for water.
pub open spec fn water_glyph() -> Seq<char> {
    "  "@
}

/// The two-character glyph for lowland.
pub open spec fn lowland_glyph() -> Seq<char> {
    "##"@
}

/// The two-character glyph for hills: a doubled U+0245.
pub open spec fn hill_glyph() -> Seq<char> {
    "\u{245}\u{245}"@
}

/// The glyph an elevation renders as under the given thresholds.
pub open spec fn glyph(level: u16, beach: u16, hills: u16) -> Seq<char> {
    if level < beach {
        water_glyph()
    } else if level < hills {
        lowland_glyph()
    } else {
        hill_glyph()
    }
}

/// The glyphs of the first `c` cells of row `r`, concatenated.
pub open spec fn row_chars(g: TerrainGrid, r: int, c: int, beach: u16, hills: u16) -> Seq<char>
    decreases c,
{
    if c <= 0 {
        Seq::empty()
    } else {
        row_chars(g, r, c - 1, beach, hills) + glyph(g.cell(r, c - 1), beach, hills)
    }
}

/// One rendered grid row: the glyphs of its cells framed by `"| "` and
/// `" |"`, with a trailing newline.
pub open spec fn content_line(g: TerrainGrid, r: int, beach: u16, hills: u16) -> Seq<char> {
    "| "@ + row_chars(g, r, g.width as int, beach, hills) + " |\n"@
}

/// The rendered rows `0..r`, concatenated.
pub open spec fn body_lines(g: TerrainGrid, r: int, beach: u16, hills: u16) -> Seq<char>
    decreases r,
{
    if r <= 0 {
        Seq::empty()
    } else {
        body_lines(g, r - 1, beach, hills) + content_line(g, r - 1, beach, hills)
    }
}

/// The border above and below the map: a space, then dashes out to the same
/// visible width as a content line, then a newline.
pub open spec fn border_line(width: int) -> Seq<char> {
    seq![' '] + Seq::new((2 * width + 3) as nat, |i: int| '-') + seq!['\n']
}

/// The full rendering: border, one line per grid row, border.
pub open spec fn render_spec(g: TerrainGrid, beach: u16, hills: u16) -> Seq<char> {
    border_line(g.width as int) + body_lines(g, g.height as int, beach, hills) + border_line(
        g.width as int,
    )
}

impl TerrainGrid {
    /// Renders the grid as text under the given thresholds. A pure read: the
    /// output is exactly `render_spec` of the grid's current state.
    #[verifier::loop_isolation(false)]
    #[verifier::rlimit(50)]
    pub fn to_text(&self, beach_level: u16, hills_level: u16) -> (text: String)
        requires
            self.wf(),
        ensures
            text@ == render_spec(*self, beach_level, hills_level),
    {
        proof {
            crate::grid::lemma_wf_bounds(*self);
            reveal_strlit(" ");
            reveal_strlit("-");
            reveal_strlit("\n");
        }
        let width = self.width;
        let height = self.height;
        let dash_count = 2 * width + 3;
        let mut top_bottom = String::new();
        top_bottom.append(" ");
        for k in 0..dash_count
            invariant
                top_bottom@ =~= seq![' '] + Seq::new(k as nat, |i: int| '-'),
        {
            top_bottom.append("-");
            proof {
                assert(top_bottom@ =~= seq![' '] + Seq::new((k + 1) as nat, |i: int| '-'));
            }
        }
        top_bottom.append("\n");
        proof {
            assert(top_bottom@ =~= border_line(width as int));
        }
        let mut text = String::new();
        text.append(top_bottom.as_str());
        proof {
            assert(text@ =~= border_line(width as int) + body_lines(
                *self,
                0,
                beach_level,
                hills_level,
            ));
        }
        for r in 0..height
            invariant
                top_bottom@ == border_line(width as int),
                text@ == border_line(width as int) + body_lines(
                    *self,
                    r as int,
                    beach_level,
                    hills_level,
                ),
        {
            text.append("| ");
            proof {
                assert(text@ =~= border_line(width as int) + body_lines(
                    *self,
                    r as int,
                    beach_level,
                    hills_level,
                ) + "| "@ + row_chars(*self, r as int, 0, beach_level, hills_level));
            }
            for c in 0..width
                invariant
                    text@ == border_line(width as int) + body_lines(
                        *self,
                        r as int,
                        beach_level,
                        hills_level,
                    ) + "| "@ + row_chars(*self, r as int, c as int, beach_level, hills_level),
            {
                let level = self.grid[r][c];
                let gl = if level < beach_level {
                    "  "
                } else if level < hills_level {
                    "##"
                } else {
                    "\u{245}\u{245}"
                };
                proof {
                    assert(level == self.cell(r as int, c as int));
                    assert(gl@ == glyph(level, beach_level, hills_level));
                }
                text.append(gl);
                proof {
                    assert(text@ =~= border_line(width as int) + body_lines(
                        *self,
                        r as int,
                        beach_level,
                        hills_level,
                    ) + "| "@ + row_chars(*self, r as int, c + 1 as int, beach_level, hills_level));
                }
            }
            text.append(" |\n");
            proof {
                assert(text@ =~= border_line(width as int) + body_lines(
                    *self,
                    r + 1 as int,
                    beach_level,
                    hills_level,
                ));
            }
        }
        text.append(top_bottom.as_str());
        proof {
            assert(text@ =~= render_spec(*self, beach_level, hills_level));
        }
        text
    }
}

/// An index that sits `j` characters into the `k`-th block of length `line`
/// reduces to `j` modulo `line`.
proof fn lemma_offset_mod(k: int, j: int, line: int)
    requires
        0 < line,
        0 <= j < line,
        0 <= k,
    ensures
        (line * k + j) % line == j,
{
    lemma_mod_multiples_vanish(k, j, line);
    lemma_small_mod(j as nat, line as nat);
}

/// Every glyph is two characters, neither a newline.
proof fn lemma_glyph_shape(level: u16, beach: u16, hills: u16)
    ensures
        glyph(level, beach, hills).len() == 2,
        glyph(level, beach, hills)[0] != '\n',
        glyph(level, beach, hills)[1] != '\n',
{
    reveal_strlit("  ");
    reveal_strlit("##");
    reveal_strlit("\u{245}\u{245}");
}

/// A row prefix of `c` cells renders as `2 * c` characters, none a newline.
proof fn lemma_row_chars_shape(g: TerrainGrid, r: int, c: int, beach: u16, hills: u16)
    requires
        0 <= c,
    ensures
        row_chars(g, r, c, beach, hills).len() == 2 * c,
        forall|i: int| 0 <= i < 2 * c ==> #[trigger] row_chars(g, r, c, beach, hills)[i] != '\n',
    decreases c,
{
    if c > 0 {
        lemma_row_chars_shape(g, r, c - 1, beach, hills);
        lemma_glyph_shape(g.cell(r, c - 1), beach, hills);
        let whole = row_chars(g, r, c, beach, hills);
        let prefix = row_chars(g, r, c - 1, beach, hills);
        assert forall|i: int| 0 <= i < 2 * c implies #[trigger] whole[i] != '\n' by {
            if i < 2 * (c - 1) {
                assert(whole[i] == prefix[i]);
            } else {
                assert(whole[i] == glyph(g.cell(r, c - 1), beach, hills)[i - 2 * (c - 1)]);
            }
        }
    }
}

/// A content line is `2 * width + 5` characters whose one newline is last.
proof fn lemma_content_line_shape(g: TerrainGrid, r: int, beach: u16, hills: u16)
    requires
        0 <= g.width,
    ensures
        content_line(g, r, beach, hills).len() == 2 * g.width + 5,
        forall|i: int|
            0 <= i < 2 * g.width + 4 ==> #[trigger] content_line(g, r, beach, hills)[i] != '\n',
        content_line(g, r, beach, hills)[2 * g.width + 4] == '\n',
{
    reveal_strlit("| ");
    reveal_strlit(" |\n");
    let w = g.width as int;
    lemma_row_chars_shape(g, r, w, beach, hills);
    let row = row_chars(g, r, w, beach, hills);
    let line = content_line(g, r, beach, hills);
    assert forall|i: int| 0 <= i < 2 * w + 4 implies #[trigger] line[i] != '\n' by {
        if i < 2 {
            assert(line[i] == "| "@[i]);
        } else if i < 2 + 2 * w {
            assert(line[i] == row[i - 2]);
        } else {
            assert(line[i] == " |\n"@[i - 2 - 2 * w]);
        }
    }
    assert(line[2 * w + 4] == " |\n"@[2]);
}

/// A border line is `2 * width + 5` characters whose one newline is last.
proof fn lemma_border_shape(width: int)
    requires
        0 <= width,
    ensures
        border_line(width).len() == 2 * width + 5,
        forall|i: int| 0 <= i < 2 * width + 4 ==> #[trigger] border_line(width)[i] != '\n',
        border_line(width)[2 * width + 4] == '\n',
{
    let line = border_line(width);
    assert forall|i: int| 0 <= i < 2 * width + 4 implies #[trigger] line[i] != '\n' by {
        if i == 0 {
            assert(line[0] == ' ');
        } else {
            assert(line[i] == Seq::new((2 * width + 3) as nat, |j: int| '-')[i - 1]);
        }
    }
}

/// The first `r` rendered rows are `r` blocks of length `2 * width + 5`,
/// with a newline exactly at the end of each block.
proof fn lemma_body_lines_shape(g: TerrainGrid, r: int, beach: u16, hills: u16)
    requires
        0 <= r,
        0 <= g.width,
    ensures
        body_lines(g, r, beach, hills).len() == r * (2 * g.width + 5),
        forall|i: int|
            0 <= i < r * (2 * g.width + 5) ==> ((#[trigger] body_lines(g, r, beach, hills)[i]
                == '\n') <==> i % (2 * g.width + 5) == 2 * g.width + 4),
    decreases r,
{
    let line = 2 * (g.width as int) + 5;
    if r == 0 {
        assert(r * line == 0) by (nonlinear_arith)
            requires
                r == 0,
        ;
    } else {
        lemma_body_lines_shape(g, r - 1, beach, hills);
        lemma_content_line_shape(g, r - 1, beach, hills);
        let whole = body_lines(g, r, beach, hills);
        let prefix = body_lines(g, r - 1, beach, hills);
        let content = content_line(g, r - 1, beach, hills);
        assert((r - 1) * line + line == r * line) by (nonlinear_arith);
        assert forall|i: int|
            0 <= i < r * line implies ((#[trigger] whole[i] == '\n') <==> i % line == line
            - 1) by {
            if i < (r - 1) * line {
                assert(whole[i] == prefix[i]);
            } else {
                let j = i - (r - 1) * line;
                assert(whole[i] == content[j]);
                assert(line * (r - 1) == (r - 1) * line) by (nonlinear_arith);
                lemma_offset_mod(r - 1, j, line);
                assert(i % line == j);
            }
        }
    }
}

/// Law: the rendering has exactly `height + 2` lines; each, its trailing
/// newline included, is `2 * width + 5` characters, so each visible line is
/// `2 * width + 4` characters, and the newlines sit exactly at the end of
/// each such block.
pub proof fn lemma_render_shape(g: TerrainGrid, beach: u16, hills: u16)
    requires
        g.wf(),
    ensures
        render_spec(g, beach, hills).len() == (g.height + 2) * (2 * g.width + 5),
        forall|i: int|
            0 <= i < (g.height + 2) * (2 * g.width + 5) ==> ((#[trigger] render_spec(
                g,
                beach,
                hills,
            )[i] == '\n') <==> i % (2 * g.width + 5) == 2 * g.width + 4),
{
    let line = 2 * (g.width as int) + 5;
    let h = g.height as int;
    let out = render_spec(g, beach, hills);
    lemma_border_shape(g.width as int);
    lemma_body_lines_shape(g, h, beach, hills);
    let body = body_lines(g, h, beach, hills);
    let border = border_line(g.width as int);
    assert(line + h * line + line == (h + 2) * line) by (nonlinear_arith);
    assert forall|i: int|
        0 <= i < (h + 2) * line implies ((#[trigger] out[i] == '\n') <==> i % line == line - 1) by {
        if i < line {
            assert(out[i] == border[i]);
            lemma_small_mod(i as nat, line as nat);
        } else if i < line + h * line {
            let j = (i - line) % line;
            vstd::arithmetic::div_mod::lemma_mod_bound(i - line, line);
            assert(out[i] == body[i - line]);
            assert(i - line < h * line);
            lemma_small_mod(j as nat, line as nat);
            assert(line * (1 + (i - line) / line) + j == i) by {
                vstd::arithmetic::div_mod::lemma_fundamental_div_mod(i - line, line);
                assert(line * ((i - line) / line) + j == i - line);
                assert(line * (1 + (i - line) / line) == line + line * ((i - line) / line))
                    by (nonlinear_arith);
            }
            assert(0 <= (i - line) / line) by {
                vstd::arithmetic::div_mod::lemma_div_pos_is_pos(i - line, line);
            }
            lemma_offset_mod(1 + (i - line) / line, j, line);
            assert(i % line == j);
        } else {
            let j = i - line - h * line;
            assert(out[i] == border[j]);
            assert(line * (1 + h) == line + h * line) by (nonlinear_arith);
            lemma_offset_mod(1 + h, j, line);
            assert(i % line == j);
        }
    }
}

/// Law: rendering is a pure function of the grid and the thresholds. Two
/// renders with the same thresholds and no intervening mutation produce
/// identical text.
pub proof fn lemma_render_deterministic(
    t1: Seq<char>,
    t2: Seq<char>,
    g: TerrainGrid,
    beach: u16,
    hills: u16,
)
    requires
        t1 == render_spec(g, beach, hills),
        t2 == render_spec(g, beach, hills),
    ensures
        t1 == t2,
{
}

/// Law: a cell exactly at the beach threshold renders as lowland, not water,
/// whenever the lowland band is nonempty; a cell exactly at the hills
/// threshold renders as hill, and never as lowland.
pub proof fn lemma_threshold_boundary(beach: u16, hills: u16)
    ensures
        beach < hills ==> glyph(beach, beach, hills) == lowland_glyph(),
        beach <= hills ==> glyph(hills, beach, hills) == hill_glyph(),
        glyph(hills, beach, hills) != lowland_glyph(),
{
    reveal_strlit("  ");
    reveal_strlit("##");
    reveal_strlit("\u{245}\u{245}");
    assert(water_glyph()[0] == ' ');
    assert(lowland_glyph()[0] == '#');
    assert(hill_glyph()[0] == '\u{245}');
}

} // verus!
