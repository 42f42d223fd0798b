use vstd::arithmetic::div_mod::{
    lemma_basic_div, lemma_div_is_ordered, lemma_div_multiples_vanish, lemma_div_pos_is_pos,
};
use vstd::arithmetic::mul::{
    lemma_mul_inequality, lemma_mul_is_commutative, lemma_mul_strictly_positive,
};
use vstd::prelude::*;

use crate::buffer::WindowBuffer;
use crate::config::Config;
use crate::sample::Sample;

verus! {

/// The column a timestamp maps to: its age-adjusted offset from the window's
/// left edge in whole steps, clamped to the grid.
pub open spec fn spec_column(cfg: Config, base_ms: int, ts_ms: int) -> int {
    if ts_ms <= base_ms {
        0
    } else {
        let c = (ts_ms - base_ms) / (cfg.step_ms as int);
        if c >= cfg.columns - 1 {
            cfg.columns - 1
        } else {
            c
        }
    }
}

/// A sample value clamped to the displayable range `0 ..= max_value_milli`.
pub open spec fn clamp_value(cfg: Config, v: int) -> int {
    if v <= 0 {
        0
    } else if v >= cfg.max_value_milli {
        cfg.max_value_milli as int
    } else {
        v
    }
}

/// The row a value maps to. Row 0 is the top of the grid and stands for the
/// ceiling value; row `rows - 1` is the bottom and stands for zero.
pub open spec fn spec_row(cfg: Config, v: int) -> int {
    let scaled = (clamp_value(cfg, v) * cfg.rows) / (cfg.max_value_milli as int);
    let capped = if scaled >= cfg.rows - 1 {
        cfg.rows - 1
    } else {
        scaled
    };
    cfg.rows - 1 - capped
}

/// Whether a sample is painted into cell `(r, c)`.
pub open spec fn hits(cfg: Config, base_ms: int, s: Sample, r: int, c: int) -> bool {
    spec_row(cfg, s.value_milli as int) == r && spec_column(cfg, base_ms, s.timestamp_ms as int)
        == c
}

/// The glyph a sample is drawn with.
pub open spec fn sample_glyph(s: Sample) -> char {
    '+'
}

/// The index of the sample that finally owns cell `(r, c)`: samples are
/// painted in buffer order, index 0 first, so on a collision the highest
/// hitting index wins.
pub open spec fn last_hit(cfg: Config, base_ms: int, samples: Seq<Sample>, r: int, c: int) -> Option<
    int,
>
    decreases samples.len(),
{
    if samples.len() == 0 {
        None
    } else if hits(cfg, base_ms, samples.last(), r, c) {
        Some(samples.len() - 1)
    } else {
        last_hit(cfg, base_ms, samples.drop_last(), r, c)
    }
}

/// The static frame: horizontal rules on the top and bottom rows, a vertical
/// rule in the last column, corners where they meet, blank elsewhere.
pub open spec fn border_glyph(cfg: Config, r: int, c: int) -> char {
    if (r == 0 || r == cfg.rows - 1) && c == cfg.columns - 1 {
        '+'
    } else if r == 0 || r == cfg.rows - 1 {
        '-'
    } else if c == cfg.columns - 1 {
        '|'
    } else {
        ' '
    }
}

/// The finished grid, cell by cell: the glyph of the last sample painted
/// there, or the border glyph where no sample lands. Data is clamped to the
/// same bounds as the border, so a boundary sample may overdraw the frame.
pub open spec fn grid_glyph(cfg: Config, base_ms: int, samples: Seq<Sample>, r: int, c: int) -> char {
    match last_hit(cfg, base_ms, samples, r, c) {
        Some(i) => sample_glyph(samples[i]),
        None => border_glyph(cfg, r, c),
    }
}

/// A fully rendered grid of the configured shape whose every cell agrees
/// with `grid_glyph`.
pub open spec fn grid_ok(cfg: Config, base_ms: int, samples: Seq<Sample>, g: Seq<Vec<char>>) -> bool {
    &&& g.len() == cfg.rows
    &&& forall|r: int| 0 <= r < g.len() ==> (#[trigger] g[r])@.len() == cfg.columns
    &&& forall|r: int, c: int|
        0 <= r < cfg.rows && 0 <= c < cfg.columns ==> (#[trigger] g[r]@[c]) == grid_glyph(
            cfg,
            base_ms,
            samples,
            r,
            c,
        )
}

/// Maps a timestamp to its column.
pub fn map_column(cfg: &Config, base_ms: i64, ts_ms: i64) -> (c: u16)
    requires
        cfg.valid(),
    ensures
        c as int == spec_column(*cfg, base_ms as int, ts_ms as int),
        c < cfg.columns,
{
    if ts_ms <= base_ms {
        0
    } else {
        let d: i128 = (ts_ms as i128) - (base_ms as i128);
        let q: u128 = (d as u128) / (cfg.step_ms as u128);
        proof {
            lemma_div_pos_is_pos(d as int, cfg.step_ms as int);
        }
        if q >= (cfg.columns - 1) as u128 {
            cfg.columns - 1
        } else {
            q as u16
        }
    }
}

/// Maps a value to its row.
pub fn map_row(cfg: &Config, value_milli: i64) -> (r: u16)
    requires
        cfg.valid(),
    ensures
        r as int == spec_row(*cfg, value_milli as int),
        r < cfg.rows,
{
    let vc: i64 = if value_milli <= 0 {
        0
    } else if value_milli >= cfg.max_value_milli {
        cfg.max_value_milli
    } else {
        value_milli
    };
    proof {
        lemma_mul_inequality(vc as int, i64::MAX as int, cfg.rows as int);
        lemma_div_pos_is_pos(vc as int * cfg.rows as int, cfg.max_value_milli as int);
    }
    let scaled: u128 = (vc as u128) * (cfg.rows as u128) / (cfg.max_value_milli as u128);
    let capped: u16 = if scaled >= (cfg.rows - 1) as u128 {
        cfg.rows - 1
    } else {
        scaled as u16
    };
    cfg.rows - 1 - capped
}

/// The glyph of one cell: the last sample painted onto it, or the border.
fn cell_glyph(cfg: &Config, base_ms: i64, buf: &WindowBuffer, r: u16, c: u16) -> (ch: char)
    requires
        cfg.valid(),
        r < cfg.rows,
        c < cfg.columns,
    ensures
        ch == grid_glyph(*cfg, base_ms as int, buf@, r as int, c as int),
{
    let n = buf.len();
    let mut j: usize = n;
    proof {
        assert(buf@.subrange(0, n as int) =~= buf@);
    }
    loop
        invariant_except_break
            cfg.valid(),
            r < cfg.rows,
            c < cfg.columns,
            j <= buf@.len(),
            last_hit(*cfg, base_ms as int, buf@, r as int, c as int) == last_hit(
                *cfg,
                base_ms as int,
                buf@.subrange(0, j as int),
                r as int,
                c as int,
            ),
        ensures
            last_hit(*cfg, base_ms as int, buf@, r as int, c as int) is None,
        decreases j,
    {
        if j == 0 {
            proof {
                assert(buf@.subrange(0, 0) =~= Seq::<Sample>::empty());
            }
            break;
        }
        let s = buf.get(j - 1);
        let col = map_column(cfg, base_ms, s.timestamp_ms);
        let row = map_row(cfg, s.value_milli);
        proof {
            assert(buf@.subrange(0, j as int).last() == buf@[j - 1]);
            assert(buf@.subrange(0, j as int).drop_last() =~= buf@.subrange(0, j - 1));
        }
        if row == r && col == c {
            return '+';
        }
        j = j - 1;
    }
    if (r == 0 || r == cfg.rows - 1) && c == cfg.columns - 1 {
        '+'
    } else if r == 0 || r == cfg.rows - 1 {
        '-'
    } else if c == cfg.columns - 1 {
        '|'
    } else {
        ' '
    }
}

/// Rebuilds the whole grid for one tick from the retained samples.
pub fn render(cfg: &Config, base_ms: i64, buf: &WindowBuffer) -> (g: Vec<Vec<char>>)
    requires
        cfg.valid(),
    ensures
        grid_ok(*cfg, base_ms as int, buf@, g@),
{
    let mut g: Vec<Vec<char>> = Vec::new();
    let mut r: u16 = 0;
    while r < cfg.rows
        invariant
            cfg.valid(),
            r <= cfg.rows,
            g@.len() == r as int,
            forall|rr: int| 0 <= rr < r as int ==> (#[trigger] g@[rr])@.len() == cfg.columns,
            forall|rr: int, cc: int|
                0 <= rr < r as int && 0 <= cc < cfg.columns ==> (#[trigger] g@[rr]@[cc])
                    == grid_glyph(*cfg, base_ms as int, buf@, rr, cc),
        decreases cfg.rows - r,
    {
        let mut line: Vec<char> = Vec::new();
        let mut c: u16 = 0;
        while c < cfg.columns
            invariant
                cfg.valid(),
                r < cfg.rows,
                c <= cfg.columns,
                line@.len() == c as int,
                forall|cc: int|
                    0 <= cc < c as int ==> (#[trigger] line@[cc]) == grid_glyph(
                        *cfg,
                        base_ms as int,
                        buf@,
                        r as int,
                        cc,
                    ),
            decreases cfg.columns - c,
        {
            let ch = cell_glyph(cfg, base_ms, buf, r, c);
            line.push(ch);
            c = c + 1;
        }
        g.push(line);
        r = r + 1;
    }
    g
}

/// The column clamp law: a timestamp at or before the window's left edge
/// maps to column 0, and one at or past the start of the last step maps to
/// the last column.
pub proof fn lemma_column_clamp(cfg: Config, base_ms: int, ts_ms: int)
    requires
        cfg.valid(),
    ensures
        ts_ms <= base_ms ==> spec_column(cfg, base_ms, ts_ms) == 0,
        ts_ms >= base_ms + cfg.step_ms as int * (cfg.columns - 1) ==> spec_column(cfg, base_ms, ts_ms)
            == cfg.columns - 1,
{
    lemma_mul_strictly_positive(cfg.step_ms as int, cfg.columns - 1);
    if ts_ms > base_ms && ts_ms >= base_ms + cfg.step_ms as int * (cfg.columns - 1) {
        let d = ts_ms - base_ms;
        let step = cfg.step_ms as int;
        lemma_div_is_ordered(step * (cfg.columns - 1), d, step);
        lemma_div_multiples_vanish(cfg.columns - 1, step);
    }
}

/// The row clamp law: values at or below zero map to the bottom row, values
/// at or above the ceiling map to the top row, and the row never moves down
/// as the value grows.
pub proof fn lemma_row_clamp(cfg: Config, v1: int, v2: int)
    requires
        cfg.valid(),
    ensures
        v1 <= 0 ==> spec_row(cfg, v1) == cfg.rows - 1,
        v1 >= cfg.max_value_milli ==> spec_row(cfg, v1) == 0,
        v1 <= v2 ==> spec_row(cfg, v1) >= spec_row(cfg, v2),
{
    let max = cfg.max_value_milli as int;
    let rows = cfg.rows as int;
    if v1 <= 0 {
        lemma_basic_div(0, max);
    }
    if v1 >= cfg.max_value_milli {
        lemma_div_multiples_vanish(rows, max);
        lemma_mul_is_commutative(max, rows);
    }
    if v1 <= v2 {
        lemma_mul_inequality(clamp_value(cfg, v1), clamp_value(cfg, v2), rows);
        lemma_div_is_ordered(clamp_value(cfg, v1) * rows, clamp_value(cfg, v2) * rows, max);
    }
}

/// The collision law: when two samples map to the same cell, the one painted
/// later owns the cell, and the grid shows that sample's glyph.
pub proof fn lemma_collision_last_write_wins(
    cfg: Config,
    base_ms: int,
    samples: Seq<Sample>,
    r: int,
    c: int,
    i: int,
    j: int,
)
    requires
        0 <= i < j < samples.len(),
        hits(cfg, base_ms, samples[i], r, c),
        hits(cfg, base_ms, samples[j], r, c),
    ensures
        (match last_hit(cfg, base_ms, samples, r, c) {
            Some(w) => j <= w < samples.len() && hits(cfg, base_ms, samples[w], r, c) && grid_glyph(
                cfg,
                base_ms,
                samples,
                r,
                c,
            ) == sample_glyph(samples[w]),
            None => false,
        }),
    decreases samples.len(),
{
    if !hits(cfg, base_ms, samples.last(), r, c) {
        assert(samples.drop_last()[i] == samples[i]);
        assert(samples.drop_last()[j] == samples[j]);
        lemma_collision_last_write_wins(cfg, base_ms, samples.drop_last(), r, c, i, j);
        let w = last_hit(cfg, base_ms, samples.drop_last(), r, c)->Some_0;
        assert(samples.drop_last()[w] == samples[w]);
    }
}

} // verus!
