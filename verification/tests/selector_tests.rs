use quickstitch::canvas::{Canvas, SourceImage};
use quickstitch::scorer::score_row;
use quickstitch::selector::{select, ConfigurationError, SplitpointKind};
use quickstitch::exporter::segment_bounds;

/// A canvas of one image, `width` pixels wide, whose row `r` has the samples
/// `rows[r]` repeated across it.
fn canvas_from_rows(width: usize, rows: &[[u8; 3]]) -> Canvas {
    let mut samples = Vec::new();
    for row in rows {
        for _ in 0..width {
            samples.extend_from_slice(row);
        }
    }
    let height = rows.len();
    let image = SourceImage { width, height, samples };
    Canvas { images: vec![image], offsets: vec![0, height], width }
}

/// A one-pixel-wide canvas with flat gray rows exactly at `flat`, noise
/// elsewhere.
fn noise_canvas_with_flat_rows(height: usize, flat: &[usize]) -> Canvas {
    let mut samples = Vec::with_capacity(3 * height);
    for r in 0..height {
        if flat.contains(&r) {
            samples.extend_from_slice(&[100, 100, 100]);
        } else {
            samples.extend_from_slice(&[0, 255, 0]);
        }
    }
    let image = SourceImage { width: 1, height, samples };
    Canvas { images: vec![image], offsets: vec![0, height], width: 1 }
}

#[test]
fn config_min_above_max() {
    let canvas = noise_canvas_with_flat_rows(10, &[]);
    let r = select(&canvas, 3, 5, 1, 255);
    assert_eq!(r, Err(ConfigurationError::MinAboveMax));
}

#[test]
fn config_zero_interval() {
    let canvas = noise_canvas_with_flat_rows(10, &[]);
    let r = select(&canvas, 5, 3, 0, 255);
    assert_eq!(r, Err(ConfigurationError::ZeroInterval));
}

#[test]
fn config_zero_max_height() {
    let canvas = noise_canvas_with_flat_rows(10, &[]);
    let r = select(&canvas, 0, 0, 1, 255);
    assert_eq!(r, Err(ConfigurationError::ZeroMaxHeight));
}

#[test]
fn short_canvas_single_segment() {
    // Canvas no taller than max_height: no internal cut at all.
    let canvas = noise_canvas_with_flat_rows(20, &[5, 10]);
    let sps = select(&canvas, 20, 1, 1, 255).unwrap();
    assert!(sps.is_empty());
    let bounds = segment_bounds(&sps, 20);
    assert_eq!(bounds, vec![0, 20]);
}

#[test]
fn latest_candidate_wins_and_earlier_is_skipped() {
    // Flat rows at 10 and 20 inside the first window: 20 is chosen, 10 kept
    // only as skipped.
    let canvas = noise_canvas_with_flat_rows(60, &[10, 20]);
    let sps = select(&canvas, 25, 1, 1, 255).unwrap();
    assert_eq!(sps.len(), 3);
    assert_eq!(sps[0].offset, 10);
    assert_eq!(sps[0].kind, SplitpointKind::Skipped);
    assert_eq!(sps[1].offset, 20);
    assert_eq!(sps[1].kind, SplitpointKind::Chosen);
    // From 20, the rest (40 rows) exceeds max 25 and has no candidate left.
    assert_eq!(sps[2].offset, 45);
    assert_eq!(sps[2].kind, SplitpointKind::Fallback);
}

#[test]
fn fallback_on_canvas_without_uniform_rows() {
    // No row is uniform anywhere: every window forces a fallback at exactly
    // cursor + max_height.
    let canvas = noise_canvas_with_flat_rows(25, &[]);
    let sps = select(&canvas, 10, 1, 1, 255).unwrap();
    assert_eq!(sps.len(), 2);
    for (i, sp) in sps.iter().enumerate() {
        assert_eq!(sp.kind, SplitpointKind::Fallback);
        assert_eq!(sp.offset, (i + 1) * 10);
    }
}

#[test]
fn selection_idempotent() {
    let canvas = noise_canvas_with_flat_rows(100, &[7, 13, 31, 64, 90]);
    let a = select(&canvas, 17, 3, 2, 200).unwrap();
    let b = select(&canvas, 17, 3, 2, 200).unwrap();
    assert_eq!(a, b);
}

#[test]
fn offsets_strictly_increasing_and_bounds_cover_canvas() {
    let canvas = noise_canvas_with_flat_rows(200, &[11, 12, 40, 41, 90, 150, 151]);
    let sps = select(&canvas, 37, 5, 1, 255).unwrap();
    for w in sps.windows(2) {
        assert!(w[0].offset < w[1].offset);
    }
    let bounds = segment_bounds(&sps, 200);
    assert_eq!(*bounds.first().unwrap(), 0);
    assert_eq!(*bounds.last().unwrap(), 200);
    for w in bounds.windows(2) {
        assert!(w[0] < w[1]);
    }
}

#[test]
fn interior_segment_heights_within_limits() {
    let max = 23;
    let min = 6;
    let canvas = noise_canvas_with_flat_rows(173, &[9, 20, 33, 50, 80, 101, 140]);
    let sps = select(&canvas, max, min, 1, 255).unwrap();
    let bounds = segment_bounds(&sps, 173);
    for (i, w) in bounds.windows(2).enumerate() {
        let height = w[1] - w[0];
        assert!(height <= max);
        if i + 2 < bounds.len() {
            // Interior segment: at least the configured minimum.
            assert!(height >= min);
        }
    }
}

#[test]
fn sensitivity_zero_accepts_every_scanned_row() {
    // With sensitivity 0 every scanned row is a candidate, so the latest row
    // of each window is chosen and no fallback ever occurs.
    let canvas = noise_canvas_with_flat_rows(35, &[]);
    let sps = select(&canvas, 10, 1, 1, 0).unwrap();
    assert_eq!(sps.len(), 30);
    let committed: Vec<_> = sps
        .iter()
        .filter(|sp| sp.kind != SplitpointKind::Skipped)
        .collect();
    assert_eq!(committed.len(), 3);
    for (i, sp) in committed.iter().enumerate() {
        assert_eq!(sp.kind, SplitpointKind::Chosen);
        assert_eq!(sp.offset, (i + 1) * 10);
    }
}

#[test]
fn sensitivity_full_rejects_any_spread() {
    // A row with spread 1 is rejected at sensitivity 255; only the perfectly
    // flat row is chosen.
    let mut samples = Vec::new();
    for r in 0..25usize {
        match r {
            10 => samples.extend_from_slice(&[100, 100, 100]),
            15 => samples.extend_from_slice(&[100, 100, 101]),
            _ => samples.extend_from_slice(&[0, 255, 0]),
        }
    }
    let image = SourceImage { width: 1, height: 25, samples };
    let canvas = Canvas { images: vec![image], offsets: vec![0, 25], width: 1 };
    let sps = select(&canvas, 20, 1, 1, 255).unwrap();
    assert_eq!(sps.len(), 1);
    assert_eq!(sps[0].offset, 10);
    assert_eq!(sps[0].kind, SplitpointKind::Chosen);
}

#[test]
fn score_row_reports_uniformity() {
    // Row 0 spreads from 10 to 250; row 1 is flat.
    let canvas = canvas_from_rows(2, &[[10, 250, 30], [80, 80, 80]]);
    assert_eq!(score_row(&canvas, 0), 255 - (250 - 10));
    assert_eq!(score_row(&canvas, 1), 255);
}

#[test]
fn scan_interval_skips_unaligned_rows() {
    // The flat row at 15 is not a multiple of 10 and is never scanned, so
    // the window falls back.
    let canvas = noise_canvas_with_flat_rows(25, &[15]);
    let sps = select(&canvas, 12, 1, 10, 255).unwrap();
    assert_eq!(sps.len(), 2);
    assert_eq!(sps[0].kind, SplitpointKind::Fallback);
    assert_eq!(sps[0].offset, 12);
    assert_eq!(sps[1].kind, SplitpointKind::Fallback);
    assert_eq!(sps[1].offset, 24);
}

#[test]
fn cut_spanning_two_source_images() {
    // Two stacked images; the only flat row lives in the second image.
    let top = SourceImage { width: 1, height: 10, samples: vec![7; 30] };
    let mut samples = Vec::new();
    for r in 0..10usize {
        if r == 2 {
            samples.extend_from_slice(&[50, 50, 50]);
        } else {
            samples.extend_from_slice(&[0, 255, 0]);
        }
    }
    let bottom = SourceImage { width: 1, height: 10, samples };
    let canvas = Canvas { images: vec![top, bottom], offsets: vec![0, 10, 20], width: 1 };
    // Rows 0..9 are flat gray 7s; the top image is uniform everywhere, so
    // the chosen row is the latest candidate in the window.
    let sps = select(&canvas, 15, 1, 1, 255).unwrap();
    let committed: Vec<_> = sps
        .iter()
        .filter(|sp| sp.kind != SplitpointKind::Skipped)
        .collect();
    assert_eq!(committed.len(), 1);
    assert_eq!(committed[0].offset, 12);
}
