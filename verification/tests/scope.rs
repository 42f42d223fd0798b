use textscope::buffer::WindowBuffer;
use textscope::config::Config;
use textscope::engine::{base_epoch, PollEvent, Scope, TickOutcome};
use textscope::grid::{map_column, map_row, render};
use textscope::parse::{parse_line, parse_token, tokenize, LineResult};
use textscope::sample::Sample;

fn cfg_10x5() -> Config {
    // 10 columns, 5 rows, ceiling 100.0 units, 1 s per column.
    Config::new(10, 5, 100_000, 1000).expect("valid configuration")
}

fn line(s: &str) -> PollEvent {
    PollEvent::Line(s.as_bytes().to_vec())
}

fn grid_of(out: TickOutcome) -> Vec<Vec<char>> {
    match out {
        TickOutcome::Continue(g) => g,
        TickOutcome::FinalRender(g) => g,
        _ => panic!("tick returned no grid"),
    }
}

#[test]
fn config_rejects_degenerate_grids() {
    assert!(Config::new(1, 5, 100, 1).is_none());
    assert!(Config::new(10, 1, 100, 1).is_none());
    assert!(Config::new(10, 5, 0, 1).is_none());
    assert!(Config::new(10, 5, 100, 0).is_none());
    assert!(Config::new(2, 2, 1, 1).is_some());
}

#[test]
fn tokenize_splits_on_whitespace() {
    let toks = tokenize(&b"  1.5 \t 2.5\n".to_vec());
    assert_eq!(toks, vec![b"1.5".to_vec(), b"2.5".to_vec()]);
    let toks = tokenize(&b"".to_vec());
    assert_eq!(toks.len(), 0);
    let toks = tokenize(&b"one two three".to_vec());
    assert_eq!(toks.len(), 3);
}

#[test]
fn parse_token_reads_plain_integers() {
    assert_eq!(parse_token(&b"5".to_vec()), Some(5000));
    assert_eq!(parse_token(&b"0".to_vec()), Some(0));
    assert_eq!(parse_token(&b"256".to_vec()), Some(256_000));
    assert_eq!(parse_token(&b"+3".to_vec()), Some(3000));
    assert_eq!(parse_token(&b"-7".to_vec()), Some(-7000));
}

#[test]
fn parse_token_reads_fractions() {
    assert_eq!(parse_token(&b"1.5".to_vec()), Some(1500));
    assert_eq!(parse_token(&b"-2.75".to_vec()), Some(-2750));
    assert_eq!(parse_token(&b".5".to_vec()), Some(500));
    assert_eq!(parse_token(&b"5.".to_vec()), Some(5000));
    assert_eq!(parse_token(&b"0.1234".to_vec()), Some(123));
    assert_eq!(parse_token(&b"-0.0005".to_vec()), Some(0));
}

#[test]
fn parse_token_rejects_non_numbers() {
    assert_eq!(parse_token(&b"".to_vec()), None);
    assert_eq!(parse_token(&b"abc".to_vec()), None);
    assert_eq!(parse_token(&b"not_a_number".to_vec()), None);
    assert_eq!(parse_token(&b"1e5".to_vec()), None);
    assert_eq!(parse_token(&b"inf".to_vec()), None);
    assert_eq!(parse_token(&b"nan".to_vec()), None);
    assert_eq!(parse_token(&b"1.2.3".to_vec()), None);
    assert_eq!(parse_token(&b"+".to_vec()), None);
    assert_eq!(parse_token(&b"-".to_vec()), None);
    assert_eq!(parse_token(&b".".to_vec()), None);
    assert_eq!(parse_token(&b"--1".to_vec()), None);
    assert_eq!(parse_token(&b"1 2".to_vec()), None);
}

#[test]
fn parse_token_rejects_out_of_range_values() {
    assert_eq!(parse_token(&b"99999999999999999999".to_vec()), None);
    // Near the i64 boundary in thousandths.
    assert_eq!(parse_token(&b"9223372036854775.807".to_vec()), Some(i64::MAX));
    assert_eq!(parse_token(&b"9223372036854775.808".to_vec()), None);
    assert_eq!(parse_token(&b"-9223372036854775.808".to_vec()), Some(i64::MIN));
    assert_eq!(parse_token(&b"-9223372036854775.809".to_vec()), None);
}

#[test]
fn parse_line_reads_two_fields() {
    match parse_line(&b"990.999 0".to_vec()) {
        LineResult::Value(s) => {
            assert_eq!(s.timestamp_ms, 990_999);
            assert_eq!(s.value_milli, 0);
        }
        other => panic!("unexpected result: {:?}", other),
    }
    match parse_line(&b"  1.5 \t -2.5 ".to_vec()) {
        LineResult::Value(s) => {
            assert_eq!(s.timestamp_ms, 1500);
            assert_eq!(s.value_milli, -2500);
        }
        other => panic!("unexpected result: {:?}", other),
    }
}

#[test]
fn parse_line_flags_wrong_shapes() {
    assert!(matches!(parse_line(&b"1 2 3".to_vec()), LineResult::Malformed));
    assert!(matches!(parse_line(&b"1".to_vec()), LineResult::Malformed));
    assert!(matches!(parse_line(&b"".to_vec()), LineResult::Malformed));
    assert!(matches!(parse_line(&b"not_a_number 5".to_vec()), LineResult::BadNumber));
    assert!(matches!(parse_line(&b"5 not_a_number".to_vec()), LineResult::BadNumber));
}

#[test]
fn buffer_keeps_push_order() {
    let mut b = WindowBuffer::new();
    let s1 = Sample { timestamp_ms: 1000, value_milli: 1 };
    let s2 = Sample { timestamp_ms: 2000, value_milli: 2 };
    let s3 = Sample { timestamp_ms: 3000, value_milli: 3 };
    b.push(s1);
    b.push(s2);
    b.push(s3);
    assert_eq!(b.len(), 3);
    // Newest first, and pushes never reorder what is already there.
    assert_eq!(b.get(0), s3);
    assert_eq!(b.get(1), s2);
    assert_eq!(b.get(2), s1);
}

#[test]
fn eviction_drops_the_stale_old_end() {
    let mut b = WindowBuffer::new();
    b.push(Sample { timestamp_ms: 1000, value_milli: 0 });
    b.push(Sample { timestamp_ms: 2000, value_milli: 0 });
    b.push(Sample { timestamp_ms: 9000, value_milli: 0 });
    b.evict(6000);
    assert_eq!(b.len(), 1);
    assert_eq!(b.get(0).timestamp_ms, 9000);
}

#[test]
fn eviction_is_a_single_lazy_pass() {
    let mut b = WindowBuffer::new();
    // An out-of-order stale sample hiding behind a newer one survives the
    // pass: eviction stops at the first sample inside the window.
    b.push(Sample { timestamp_ms: 9000, value_milli: 0 });
    b.push(Sample { timestamp_ms: 1000, value_milli: 0 });
    b.evict(6000);
    assert_eq!(b.len(), 2);
    assert_eq!(b.get(0).timestamp_ms, 1000);
    assert_eq!(b.get(1).timestamp_ms, 9000);
}

#[test]
fn eviction_empties_an_all_stale_buffer() {
    let mut b = WindowBuffer::new();
    b.push(Sample { timestamp_ms: 1000, value_milli: 0 });
    b.push(Sample { timestamp_ms: 2000, value_milli: 0 });
    b.evict(5000);
    assert_eq!(b.len(), 0);
}

#[test]
fn column_clamps_at_both_edges() {
    let cfg = cfg_10x5();
    let base = 990_999;
    // At or before the left edge: column 0.
    assert_eq!(map_column(&cfg, base, base), 0);
    assert_eq!(map_column(&cfg, base, base - 50_000), 0);
    // Within the window.
    assert_eq!(map_column(&cfg, base, base + 1), 0);
    assert_eq!(map_column(&cfg, base, base + 1000), 1);
    assert_eq!(map_column(&cfg, base, base + 8999), 8);
    // At or past the start of the last step: the last column.
    assert_eq!(map_column(&cfg, base, base + 9000), 9);
    assert_eq!(map_column(&cfg, base, base + 50_000), 9);
}

#[test]
fn row_clamps_and_inverts_the_value_axis() {
    let cfg = cfg_10x5();
    // Zero and below: the bottom row.
    assert_eq!(map_row(&cfg, 0), 4);
    assert_eq!(map_row(&cfg, -5000), 4);
    // The ceiling and above: the top row.
    assert_eq!(map_row(&cfg, 100_000), 0);
    assert_eq!(map_row(&cfg, 250_000), 0);
    // Monotone in between: 50.0 of 100.0 over 5 rows.
    assert_eq!(map_row(&cfg, 50_000), 2);
    assert_eq!(map_row(&cfg, 19_999), 4);
    assert_eq!(map_row(&cfg, 20_000), 3);
}

#[test]
fn render_draws_the_border() {
    let cfg = cfg_10x5();
    let b = WindowBuffer::new();
    let g = render(&cfg, 0, &b);
    assert_eq!(g.len(), 5);
    for row in &g {
        assert_eq!(row.len(), 10);
    }
    assert_eq!(g[0], "---------+".chars().collect::<Vec<char>>());
    assert_eq!(g[1], "         |".chars().collect::<Vec<char>>());
    assert_eq!(g[2], "         |".chars().collect::<Vec<char>>());
    assert_eq!(g[3], "         |".chars().collect::<Vec<char>>());
    assert_eq!(g[4], "---------+".chars().collect::<Vec<char>>());
}

#[test]
fn render_applies_last_write_wins_on_collisions() {
    let cfg = cfg_10x5();
    let mut b = WindowBuffer::new();
    let base = 990_999;
    // Both samples map to column 4, row 2.
    b.push(Sample { timestamp_ms: base + 4500, value_milli: 41_000 });
    b.push(Sample { timestamp_ms: base + 4800, value_milli: 59_000 });
    let g = render(&cfg, base, &b);
    assert_eq!(g[2][4], '+');
    // No other interior cell is painted.
    let mut painted = 0;
    for r in 1..4 {
        for c in 0..9 {
            if g[r][c] != ' ' {
                painted += 1;
            }
        }
    }
    assert_eq!(painted, 1);
}

#[test]
fn scenario_two_samples_span_the_window() {
    // 10 columns, 5 rows, ceiling 100, 1 s per column; one sample nine
    // seconds old at value 0, one fresh sample at the ceiling. The old
    // sample sits just inside the window, as it does when the clock has
    // moved on a little since it was produced.
    let cfg = cfg_10x5();
    let mut scope = Scope::new(cfg);
    let now_ms: i64 = 1_000_999;
    let out = scope.tick(line("991.5 0"), now_ms, false);
    assert!(matches!(out, TickOutcome::Continue(_)));
    let out = scope.tick(line("1000.5 100"), now_ms, false);
    let g = grid_of(out);
    // The old zero sample: leftmost column, bottom row.
    assert_eq!(g[4][0], '+');
    // The fresh ceiling sample: rightmost column, top row.
    assert_eq!(g[0][9], '+');
}

#[test]
fn scenario_bad_number_is_fatal() {
    let cfg = cfg_10x5();
    let mut scope = Scope::new(cfg);
    let now_ms: i64 = 1_000_999;
    let out = scope.tick(line("999.5 50"), now_ms, false);
    assert!(matches!(out, TickOutcome::Continue(_)));
    assert_eq!(scope.buffer.len(), 1);
    let out = scope.tick(line("not_a_number 5"), now_ms, false);
    assert!(matches!(out, TickOutcome::Fatal));
    // Nothing was ingested and nothing was evicted.
    assert_eq!(scope.buffer.len(), 1);
}

#[test]
fn scenario_extra_token_ends_input_without_abort() {
    let cfg = cfg_10x5();
    let mut scope = Scope::new(cfg);
    let now_ms: i64 = 1_000_999;
    let out = scope.tick(line("999.5 50"), now_ms, false);
    assert!(matches!(out, TickOutcome::Continue(_)));
    let out = scope.tick(line("1 2 3"), now_ms, false);
    // One final render of the state as of the previous tick, then stop.
    let g = match out {
        TickOutcome::FinalRender(g) => g,
        other => panic!("unexpected outcome: {:?}", other),
    };
    assert_eq!(scope.buffer.len(), 1);
    assert_eq!(g[2][8], '+');
}

#[test]
fn scenario_burst_within_one_step_is_fully_retained() {
    let cfg = cfg_10x5();
    let mut scope = Scope::new(cfg);
    let now_ms: i64 = 1_000_999;
    for k in 0..1000 {
        let text = format!("1000.{:03} {}", k % 1000, k % 100);
        let out = scope.tick(PollEvent::Line(text.into_bytes()), now_ms, false);
        assert!(matches!(out, TickOutcome::Continue(_)));
    }
    // No capacity bound: everything within the window stays.
    assert_eq!(scope.buffer.len(), 1000);
    let out = scope.tick(PollEvent::Empty, now_ms, false);
    let g = grid_of(out);
    assert_eq!(g.len(), 5);
}

#[test]
fn eviction_window_holds_after_a_tick() {
    let cfg = cfg_10x5();
    let mut scope = Scope::new(cfg);
    let now_ms: i64 = 1_000_999;
    let base = base_epoch(&cfg, now_ms);
    assert_eq!(base, 990_999);
    // Oldest first, so the buffer stays ordered newest first.
    scope.tick(line("985.0 1"), now_ms, false);
    scope.tick(line("990.0 2"), now_ms, false);
    scope.tick(line("995.0 3"), now_ms, false);
    scope.tick(line("1000.0 4"), now_ms, false);
    // The two stale samples are gone; every survivor is inside the window.
    assert_eq!(scope.buffer.len(), 2);
    for i in 0..scope.buffer.len() {
        assert!(scope.buffer.get(i).timestamp_ms > base);
    }
}

#[test]
fn empty_poll_still_renders() {
    let cfg = cfg_10x5();
    let mut scope = Scope::new(cfg);
    let out = scope.tick(PollEvent::Empty, 1_000_999, false);
    let g = grid_of(out);
    assert_eq!(g.len(), 5);
    assert_eq!(g[0][9], '+');
}

#[test]
fn disconnect_renders_once_then_ends() {
    let cfg = cfg_10x5();
    let mut scope = Scope::new(cfg);
    let out = scope.tick(PollEvent::Disconnected, 1_000_999, false);
    assert!(matches!(out, TickOutcome::FinalRender(_)));
}

#[test]
fn shutdown_skips_the_render() {
    let cfg = cfg_10x5();
    let mut scope = Scope::new(cfg);
    let out = scope.tick(line("999.5 50"), 1_000_999, true);
    assert!(matches!(out, TickOutcome::Interrupted));
    // The sample was still ingested before the flag was honoured.
    assert_eq!(scope.buffer.len(), 1);
}

#[test]
fn base_epoch_subtracts_the_window() {
    let cfg = Config::new(80, 25, 256_000, 1000).unwrap();
    assert_eq!(base_epoch(&cfg, 2_000_000), 2_000_000 - 80_000);
    assert_eq!(base_epoch(&cfg, 0), -80_000);
}
