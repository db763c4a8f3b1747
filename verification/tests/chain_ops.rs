use snake_chain::chain::{Chain, ChainConfig, ChainError};
use snake_chain::vec2::Vec2;

fn straight_config(radii: Vec<i64>, offsets: Vec<i64>, xs: Vec<i64>) -> ChainConfig {
    let positions = xs.into_iter().map(|x| (Some(x), Some(0))).collect();
    ChainConfig { radii, offsets, positions, outline: Vec::new() }
}

fn dist(a: &Vec2, b: &Vec2) -> i64 {
    Chain::vector_length(&a.minus(b))
}

#[test]
fn build_rejects_short_chain() {
    let cfg = straight_config(vec![10_000], vec![0], vec![0]);
    assert_eq!(Chain::new(&cfg).err(), Some(ChainError::InvalidConfiguration));
}

#[test]
fn build_rejects_mismatched_lists() {
    let cfg = straight_config(vec![10_000, 10_000], vec![0], vec![0, 30_000]);
    assert!(Chain::new(&cfg).is_err());
}

#[test]
fn build_rejects_nonpositive_radius() {
    let cfg = straight_config(vec![10_000, 0], vec![0, 0], vec![0, 30_000]);
    assert!(Chain::new(&cfg).is_err());
}

#[test]
fn build_rejects_misaligned_outline() {
    let mut cfg = straight_config(vec![10_000, 10_000], vec![0, 0], vec![0, 30_000]);
    cfg.outline = vec![vec![250]];
    assert!(Chain::new(&cfg).is_err());
}

#[test]
fn build_sets_fields() {
    let cfg = straight_config(
        vec![10_000, 8_000],
        vec![0, 2_000],
        vec![0, 30_000],
    );
    let chain = Chain::new(&cfg).unwrap();
    assert_eq!(chain.circles.len(), 2);
    assert_eq!(chain.circles[0].radius, 10_000);
    assert_eq!(chain.circles[1].offset, 2_000);
    assert_eq!((chain.circles[1].position.x, chain.circles[1].position.y), (30_000, 0));
    // heading left by default
    assert_eq!((chain.circles[0].direction.x, chain.circles[0].direction.y), (-1_000, 0));
    // the default outline has one marker per half
    assert_eq!(chain.outlines_lower, vec![vec![250], vec![250]]);
    assert_eq!(chain.outlines_upper, vec![vec![750], vec![750]]);
}

#[test]
fn propagation_from_head_snaps_exact_distances() {
    let cfg = straight_config(
        vec![10_000, 8_000, 6_000],
        vec![0, 0, 0],
        vec![0, 30_000, 60_000],
    );
    let mut chain = Chain::new(&cfg).unwrap();
    chain.update_positions(0);
    // axis-aligned case: the separations are exact
    assert_eq!((chain.circles[1].position.x, chain.circles[1].position.y), (10_000, 0));
    assert_eq!((chain.circles[2].position.x, chain.circles[2].position.y), (18_000, 0));
    assert_eq!(dist(&chain.circles[0].position, &chain.circles[1].position), 10_000);
    assert_eq!(dist(&chain.circles[1].position, &chain.circles[2].position), 8_000);
}

#[test]
fn propagation_pivot_is_unmoved() {
    let cfg = straight_config(
        vec![10_000, 8_000, 6_000],
        vec![1_000, 0, 500],
        vec![0, 30_000, 61_000],
    );
    let mut chain = Chain::new(&cfg).unwrap();
    chain.update_positions(1);
    // the pivot keeps its configured position while both neighbors snap in
    assert_eq!((chain.circles[1].position.x, chain.circles[1].position.y), (30_000, 0));
    // segment 0 sits at radius(1) + offset(0) from the pivot
    assert_eq!(dist(&chain.circles[0].position, &chain.circles[1].position), 9_000);
    // segment 2 sits at radius(1) + offset(2) from the pivot
    assert_eq!(dist(&chain.circles[2].position, &chain.circles[1].position), 8_500);
}

#[test]
fn propagation_keeps_bind_distances_off_axis() {
    let cfg = ChainConfig {
        radii: vec![10_000, 8_000, 6_000],
        offsets: vec![0, 1_000, -500],
        positions: vec![
            (Some(0), Some(0)),
            (Some(25_000), Some(17_000)),
            (Some(52_000), Some(-11_000)),
        ],
        outline: Vec::new(),
    };
    let mut chain = Chain::new(&cfg).unwrap();
    chain.update_positions(0);
    // within a couple of milli-units of the bound separations
    let d01 = dist(&chain.circles[1].position, &chain.circles[0].position);
    let d12 = dist(&chain.circles[2].position, &chain.circles[1].position);
    assert!((d01 - 11_000).abs() <= 30, "d01 = {d01}");
    assert!((d12 - 7_500).abs() <= 30, "d12 = {d12}");
}

#[test]
fn tail_pulsation_round_trip() {
    let cfg = straight_config(
        vec![10_000, 8_000, 6_000],
        vec![0, 0, 0],
        vec![0, 30_000, 60_000],
    );
    let mut chain = Chain::new(&cfg).unwrap();
    for _ in 0..5 {
        chain.grow_tail();
    }
    assert_eq!(chain.circles[2].radius, 8_000);
    assert_eq!(chain.circles[1].radius, 9_000);
    for _ in 0..5 {
        chain.shrink_tail();
    }
    assert_eq!(chain.circles[2].radius, 6_000);
    assert_eq!(chain.circles[1].radius, 8_000);
    assert_eq!(chain.circles[0].radius, 10_000);
}

#[test]
fn shrink_clamps_at_floor() {
    let cfg = straight_config(
        vec![10_000, 8_000, 300],
        vec![0, 0, 0],
        vec![0, 30_000, 60_000],
    );
    let mut chain = Chain::new(&cfg).unwrap();
    chain.shrink_tail();
    // 300 − 400 would go negative; the radius is clamped to the floor
    assert_eq!(chain.circles[2].radius, 100);
    assert_eq!(chain.circles[1].radius, 7_800);
}

#[test]
fn refine_outline_normalizes_splits_and_sorts() {
    let cfg = straight_config(vec![10_000, 8_000], vec![0, 0], vec![0, 30_000]);
    let mut chain = Chain::new(&cfg).unwrap();
    // 750 and −250 normalize into the upper half; 250 and 1_250 into the lower
    chain.refine_outline(&vec![vec![750, -250, 1_250, 250], vec![]]);
    assert_eq!(chain.outlines_lower[0], vec![250, 250]);
    assert_eq!(chain.outlines_upper[0], vec![750, 750]);
    // an empty candidate list keeps the default markers
    assert_eq!(chain.outlines_lower[1], vec![250]);
    assert_eq!(chain.outlines_upper[1], vec![750]);
}

#[test]
fn refine_outline_sorts_ascending() {
    let cfg = straight_config(vec![10_000, 8_000], vec![0, 0], vec![0, 30_000]);
    let mut chain = Chain::new(&cfg).unwrap();
    chain.refine_outline(&vec![vec![400, 100, 300, 900, 600]]);
    assert_eq!(chain.outlines_lower[0], vec![100, 300, 400]);
    assert_eq!(chain.outlines_upper[0], vec![600, 900]);
}

#[test]
fn outline_trace_walks_forward_then_backward() {
    let cfg = straight_config(vec![10_000, 8_000], vec![0, 0], vec![0, 30_000]);
    let mut chain = Chain::new(&cfg).unwrap();
    chain.refine_outline(&vec![vec![100, 600], vec![200, 700]]);
    let trace = chain.outline_trace();
    assert_eq!(trace, vec![(0, 100), (1, 200), (1, 700), (0, 600)]);
}

#[test]
fn point_on_circle_scales_by_radius() {
    let cfg = straight_config(vec![10_000, 8_000], vec![0, 0], vec![0, 30_000]);
    let chain = Chain::new(&cfg).unwrap();
    let p = chain.circles[1].point_on_circle(&Vec2::new(0, 1_000));
    assert_eq!((p.x, p.y), (30_000, 8_000));
}
