//! Proportional bar rendering.  A utilization value and a character width
//! turn into a row of colored cells: the five cumulative breakpoints
//! (capped use, allocated, blocked, available, capacity) are scaled to
//! eighths of a character, and the walk over them emits at most one partial
//! glyph per boundary followed by whole blocks, filling any rounding
//! leftover with the final segment's color.  The row is always exactly as
//! wide as asked, which is proved here.

use vstd::arithmetic::div_mod::{lemma_div_is_ordered, lemma_div_multiples_vanish};
use vstd::prelude::*;

use crate::utilization::Utilization;

verus! {

/// Colors of the bar segments, in the order the segments appear.
#[derive(Clone, Copy, Debug, PartialEq, Eq, Structural)]
pub enum BarColor {
    /// Measured use.
    Green,
    /// Allocated but idle.
    Yellow,
    /// Blocked by a linked resource.
    Magenta,
    /// Free for allocation.
    Gray,
    /// Out of service.
    Black,
}

/// One character cell of a rendered bar.  `glyph` indexes an 8-step ramp of
/// left-aligned block glyphs: 0 is the full block, and 1 through 6 are
/// partial blocks of decreasing width drawn in `fg` over `bg`.
#[derive(Clone, Copy, Debug, PartialEq, Eq, Structural)]
pub struct BarCell {
    pub glyph: u8,
    pub fg: BarColor,
    pub bg: BarColor,
}

/// A full block drawn in one color.
pub open spec fn full_cell(color: BarColor) -> BarCell {
    BarCell { glyph: 0, fg: color, bg: color }
}

/// `n` copies of `cell` (none when `n` is negative).
pub open spec fn repeat_cell(cell: BarCell, n: int) -> Seq<BarCell> {
    Seq::new(if n < 0 { 0 } else { n as nat }, |i: int| cell)
}

/// State of the walk over the breakpoints: cells emitted so far, the
/// position reached in eighths of a character, and the color of the segment
/// that produced the last cell.
pub struct BarWalk {
    pub cells: Seq<BarCell>,
    pub last_e: int,
    pub last_color: BarColor,
}

/// One breakpoint of the walk.  When the breakpoint lies beyond the current
/// position, the fractional part of the position becomes at most one partial
/// glyph (or is truncated when too thin to draw), whole blocks cover the
/// rest, and the position advances to the breakpoint.
pub open spec fn walk_step(st: BarWalk, end_e: int, color: BarColor) -> BarWalk {
    if end_e > st.last_e {
        let frac = st.last_e % 8;
        let st1 = if frac >= 2 {
            BarWalk {
                cells: st.cells.push(
                    BarCell { glyph: (frac - 1) as u8, fg: st.last_color, bg: color },
                ),
                last_e: st.last_e + 8 - frac,
                last_color: st.last_color,
            }
        } else {
            BarWalk { cells: st.cells, last_e: st.last_e - frac, last_color: st.last_color }
        };
        if end_e > st1.last_e {
            let whole = (end_e - st1.last_e) / 8;
            BarWalk {
                cells: st1.cells + repeat_cell(full_cell(color), whole),
                last_e: end_e,
                last_color: color,
            }
        } else {
            st1
        }
    } else {
        st
    }
}

/// A resource amount scaled to eighths of a character: amounts are capped at
/// the capacity, then mapped proportionally onto `w8` eighths.
pub open spec fn scale_to_eighths(units: int, cap: int, w8: int) -> int {
    (if units > cap {
        cap
    } else {
        units
    }) * w8 / cap
}

/// The five cumulative breakpoints of a utilization value, in resource
/// units: measured use capped to what users can reach, allocated, blocked,
/// available, capacity.
pub open spec fn spec_breakpoints(u: Utilization) -> Seq<int> {
    let avail = u.capacity - u.unavailable;
    seq![
        if u.utilized > avail {
            avail
        } else {
            u.utilized as int
        },
        u.allocated as int,
        u.blocked as int,
        avail,
        u.capacity as int,
    ]
}

pub open spec fn segment_color(k: int) -> BarColor {
    if k == 0 {
        BarColor::Green
    } else if k == 1 {
        BarColor::Yellow
    } else if k == 2 {
        BarColor::Magenta
    } else if k == 3 {
        BarColor::Gray
    } else {
        BarColor::Black
    }
}

/// The rendered row: empty when there is nothing to show, otherwise the walk
/// over the five breakpoints, padded with the final color to the full width.
pub open spec fn spec_bar(u: Utilization, width: u16) -> Seq<BarCell> {
    if u.capacity == 0 || width == 0 {
        Seq::empty()
    } else {
        let w8 = width * 8;
        let cap = u.capacity as int;
        let bps = spec_breakpoints(u);
        let st0 = BarWalk { cells: Seq::empty(), last_e: 0, last_color: BarColor::Green };
        let st1 = walk_step(st0, scale_to_eighths(bps[0], cap, w8 as int), segment_color(0));
        let st2 = walk_step(st1, scale_to_eighths(bps[1], cap, w8 as int), segment_color(1));
        let st3 = walk_step(st2, scale_to_eighths(bps[2], cap, w8 as int), segment_color(2));
        let st4 = walk_step(st3, scale_to_eighths(bps[3], cap, w8 as int), segment_color(3));
        let st5 = walk_step(st4, scale_to_eighths(bps[4], cap, w8 as int), segment_color(4));
        st5.cells + repeat_cell(full_cell(st5.last_color), width - st5.cells.len())
    }
}

/// The walk never outruns the width: as long as every breakpoint stays
/// within `w8` eighths, eight times the number of emitted cells stays within
/// the position, and the position within `w8`.
pub proof fn lemma_walk_step_bounds(st: BarWalk, end_e: int, color: BarColor, w8: int)
    requires
        w8 % 8 == 0,
        8 * st.cells.len() <= st.last_e <= w8,
        0 <= end_e <= w8,
    ensures
        8 * walk_step(st, end_e, color).cells.len() <= walk_step(st, end_e, color).last_e <= w8,
{
    if end_e > st.last_e {
        let frac = st.last_e % 8;
        let floor8 = st.last_e - frac;
        assert(floor8 == 8 * (st.last_e / 8));
        assert(st.cells.len() <= st.last_e / 8) by {
            lemma_div_is_ordered(8 * st.cells.len() as int, st.last_e, 8);
            lemma_div_multiples_vanish(st.cells.len() as int, 8);
        }
        let st1 = if frac >= 2 {
            BarWalk {
                cells: st.cells.push(
                    BarCell { glyph: (frac - 1) as u8, fg: st.last_color, bg: color },
                ),
                last_e: st.last_e + 8 - frac,
                last_color: st.last_color,
            }
        } else {
            BarWalk { cells: st.cells, last_e: st.last_e - frac, last_color: st.last_color }
        };
        assert(st1.last_e % 8 == 0);
        assert(8 * st1.cells.len() <= st1.last_e);
        assert(st1.last_e <= w8) by {
            if frac >= 2 {
                // the next multiple of 8 cannot pass w8, itself a multiple
                assert(st.last_e < w8);
                lemma_div_is_ordered(st.last_e, w8 - 1, 8);
                assert(w8 - 1 == 8 * (w8 / 8) - 1 + (w8 % 8));
                assert((w8 - 1) / 8 == w8 / 8 - 1) by {
                    lemma_div_multiples_vanish(w8 / 8, 8);
                    assert((8 * (w8 / 8) - 1) / 8 == w8 / 8 - 1) by {
                        lemma_fundamental_div_mod_converse_helper(w8 / 8 - 1, 8, 7);
                    }
                }
                assert(st.last_e / 8 <= w8 / 8 - 1);
                assert(st1.last_e == 8 * (st.last_e / 8) + 8);
            }
        }
        if end_e > st1.last_e {
            let whole = (end_e - st1.last_e) / 8;
            assert(8 * whole <= end_e - st1.last_e) by {
                lemma_mul_div_le(end_e - st1.last_e, 8);
            }
            assert(repeat_cell(full_cell(color), whole).len() == whole);
        }
    }
}

/// `d * (x / d) <= x` for positive `d`.
proof fn lemma_mul_div_le(x: int, d: int)
    requires
        0 <= x,
        0 < d,
    ensures
        d * (x / d) <= x,
{
    vstd::arithmetic::div_mod::lemma_fundamental_div_mod(x, d);
    assert(x % d >= 0);
}

/// `(d * q + r) / d == q` when `0 <= r < d`.
proof fn lemma_fundamental_div_mod_converse_helper(q: int, d: int, r: int)
    requires
        0 < d,
        0 <= r < d,
    ensures
        (d * q + r) / d == q,
{
    assert(d * q + r == q * d + r) by (nonlinear_arith);
    vstd::arithmetic::div_mod::lemma_fundamental_div_mod_converse(d * q + r, d, q, r);
}

impl Utilization {
    /// Renders the bar as one cell per character.  The row is empty exactly
    /// when there is no capacity or no width, and otherwise exactly `length`
    /// cells wide, whatever the rounding did.
    pub fn to_line(self, length: u16) -> (r: Vec<BarCell>)
        requires
            self.wf(),
        ensures
            r@ == spec_bar(self, length),
            r@.len() == if self.capacity == 0 || length == 0 {
                0int
            } else {
                length as int
            },
    {
        let mut cells: Vec<BarCell> = Vec::new();
        if length == 0 || self.capacity == 0 {
            return cells;
        }
        let w8: usize = length as usize * 8;
        let avail: u64 = self.capacity - self.unavailable;
        let utilized: u64 = if self.utilized > avail {
            avail
        } else {
            self.utilized
        };
        let ghost bps = spec_breakpoints(self);
        let mut last_e: usize = 0;
        let mut last_color = BarColor::Green;
        let ghost st0 = BarWalk { cells: Seq::empty(), last_e: 0, last_color: BarColor::Green };

        let e0 = scale_units(utilized, self.capacity, w8);
        let ghost st1 = walk_step(st0, e0 as int, segment_color(0));
        proof {
            lemma_walk_step_bounds(st0, e0 as int, segment_color(0), w8 as int);
        }
        walk_segment(&mut cells, &mut last_e, &mut last_color, e0, BarColor::Green);

        let e1 = scale_units(self.allocated, self.capacity, w8);
        let ghost st2 = walk_step(st1, e1 as int, segment_color(1));
        proof {
            lemma_walk_step_bounds(st1, e1 as int, segment_color(1), w8 as int);
        }
        walk_segment(&mut cells, &mut last_e, &mut last_color, e1, BarColor::Yellow);

        let e2 = scale_units(self.blocked, self.capacity, w8);
        let ghost st3 = walk_step(st2, e2 as int, segment_color(2));
        proof {
            lemma_walk_step_bounds(st2, e2 as int, segment_color(2), w8 as int);
        }
        walk_segment(&mut cells, &mut last_e, &mut last_color, e2, BarColor::Magenta);

        let e3 = scale_units(avail, self.capacity, w8);
        let ghost st4 = walk_step(st3, e3 as int, segment_color(3));
        proof {
            lemma_walk_step_bounds(st3, e3 as int, segment_color(3), w8 as int);
        }
        walk_segment(&mut cells, &mut last_e, &mut last_color, e3, BarColor::Gray);

        let e4 = scale_units(self.capacity, self.capacity, w8);
        let ghost st5 = walk_step(st4, e4 as int, segment_color(4));
        proof {
            lemma_walk_step_bounds(st4, e4 as int, segment_color(4), w8 as int);
        }
        walk_segment(&mut cells, &mut last_e, &mut last_color, e4, BarColor::Black);

        proof {
            assert(st5.cells == cells@);
            assert(8 * cells@.len() <= w8);
            lemma_div_is_ordered(8 * cells@.len() as int, w8 as int, 8);
            lemma_div_multiples_vanish(cells@.len() as int, 8);
            lemma_div_multiples_vanish(length as int, 8);
            assert(cells@.len() <= length);
        }
        let fill = length as usize - cells.len();
        push_repeated(&mut cells, full_cell_exec(last_color), fill);
        proof {
            assert(cells@ =~= spec_bar(self, length));
        }
        cells
    }
}

/// Builds a full block of one color.
fn full_cell_exec(color: BarColor) -> (r: BarCell)
    ensures
        r == full_cell(color),
{
    BarCell { glyph: 0, fg: color, bg: color }
}

/// Scales `units` (capped at `cap`) onto `w8` eighths of a character.
fn scale_units(units: u64, cap: u64, w8: usize) -> (r: usize)
    requires
        cap > 0,
        w8 <= 524280,
    ensures
        r == scale_to_eighths(units as int, cap as int, w8 as int),
        r <= w8,
{
    let capped: u64 = if units > cap {
        cap
    } else {
        units
    };
    proof {
        assert((capped as int) * (w8 as int) <= 0xFFFF_FFFF_FFFF_FFFFu64 as int * 524280)
            by (nonlinear_arith)
            requires
                0 <= capped as int <= 0xFFFF_FFFF_FFFF_FFFFu64 as int,
                0 <= w8 as int <= 524280,
        ;
    }
    let wide: u128 = (capped as u128) * (w8 as u128) / (cap as u128);
    proof {
        assert((capped as int) * (w8 as int) <= (cap as int) * (w8 as int))
            by (nonlinear_arith)
            requires
                0 <= capped as int <= cap as int,
                0 <= w8 as int,
        ;
        lemma_div_is_ordered(
            (capped as int) * (w8 as int),
            (cap as int) * (w8 as int),
            cap as int,
        );
        assert((cap as int) * (w8 as int) / (cap as int) == w8 as int) by {
            lemma_div_multiples_vanish(w8 as int, cap as int);
            assert((cap as int) * (w8 as int) == (w8 as int) * (cap as int))
                by (nonlinear_arith)
            ;
        }
        assert((capped as int) * (w8 as int) >= 0) by (nonlinear_arith)
            requires
                0 <= capped as int,
                0 <= w8 as int,
        ;
    }
    wide as usize
}

/// Appends `count` copies of `cell`.
fn push_repeated(cells: &mut Vec<BarCell>, cell: BarCell, count: usize)
    ensures
        final(cells)@ == old(cells)@ + repeat_cell(cell, count as int),
{
    let mut k: usize = 0;
    while k < count
        invariant
            k <= count,
            cells@ == old(cells)@ + repeat_cell(cell, k as int),
        decreases count - k,
    {
        cells.push(cell);
        proof {
            assert(cells@ =~= old(cells)@ + repeat_cell(cell, k + 1));
        }
        k += 1;
    }
    proof {
        assert(cells@ =~= old(cells)@ + repeat_cell(cell, count as int));
    }
}

/// Advances the walk to one breakpoint, emitting the cells that
/// [`walk_step`] describes.
fn walk_segment(
    cells: &mut Vec<BarCell>,
    last_e: &mut usize,
    last_color: &mut BarColor,
    end_e: usize,
    color: BarColor,
)
    requires
        end_e <= 524280,
        *old(last_e) <= 524280,
    ensures
        ({
            let st = walk_step(
                BarWalk {
                    cells: old(cells)@,
                    last_e: *old(last_e) as int,
                    last_color: *old(last_color),
                },
                end_e as int,
                color,
            );
            final(cells)@ == st.cells && *final(last_e) == st.last_e && *final(last_color)
                == st.last_color
        }),
{
    let ghost st = BarWalk {
        cells: old(cells)@,
        last_e: *old(last_e) as int,
        last_color: *old(last_color),
    };
    if end_e > *last_e {
        let frac: usize = *last_e % 8;
        if frac >= 2 {
            cells.push(BarCell { glyph: (frac - 1) as u8, fg: *last_color, bg: color });
            *last_e = *last_e + (8 - frac);
        } else {
            *last_e = *last_e - frac;
        }
        if end_e > *last_e {
            let whole = (end_e - *last_e) / 8;
            push_repeated(cells, full_cell_exec(color), whole);
            *last_e = end_e;
            *last_color = color;
        }
    }
}

} // verus!
