use ponged::protocol::{
    default_ball_speed_mult, default_no_proof, default_rating, mirror_x, next_rank_name,
    rank_for_rating, rank_index, rank_progress, Point2, DEFAULT_RATING, RANKS,
};

fn progress(rating: i32) -> f32 {
    let p = rank_progress(rating);
    (p.done as f32 / p.of as f32).clamp(0.0, 1.0)
}

#[test]
fn rank_below_1000_is_brick() {
    assert_eq!(rank_for_rating(0), "Brick");
    assert_eq!(rank_for_rating(999), "Brick");
}

#[test]
fn rank_at_boundaries() {
    assert_eq!(rank_for_rating(1000), "Bronze");
    assert_eq!(rank_for_rating(1199), "Bronze");
    assert_eq!(rank_for_rating(1200), "Silver");
    assert_eq!(rank_for_rating(1399), "Silver");
    assert_eq!(rank_for_rating(1400), "Gold");
    assert_eq!(rank_for_rating(1599), "Gold");
    assert_eq!(rank_for_rating(1600), "Platinum");
    assert_eq!(rank_for_rating(1799), "Platinum");
    assert_eq!(rank_for_rating(1800), "Diamond");
    assert_eq!(rank_for_rating(1999), "Diamond");
    assert_eq!(rank_for_rating(2000), "Obsidian");
    assert_eq!(rank_for_rating(2199), "Obsidian");
    assert_eq!(rank_for_rating(2200), "Pong Master");
    assert_eq!(rank_for_rating(2399), "Pong Master");
}

#[test]
fn rank_top_tier() {
    assert_eq!(rank_for_rating(2400), "Pong Legend");
    assert_eq!(rank_for_rating(9999), "Pong Legend");
    assert_eq!(rank_for_rating(i32::MAX), "Pong Legend");
}

#[test]
fn negative_ratings_are_brick() {
    assert_eq!(rank_for_rating(-1), "Brick");
    assert_eq!(rank_for_rating(i32::MIN), "Brick");
}

#[test]
fn rank_progress_inside_tier() {
    assert_eq!(progress(300), 0.3);
    assert_eq!(progress(1000), 0.0);
    assert_eq!(progress(1100), 0.5);
    assert_eq!(progress(1199), 0.995);
    assert_eq!(progress(2399), 0.995);
}

#[test]
fn rank_progress_full_at_top_tier() {
    assert_eq!(progress(2400), 1.0);
    assert_eq!(progress(9999), 1.0);
}

#[test]
fn rank_progress_is_empty_below_zero() {
    assert_eq!(progress(-1), 0.0);
    assert_eq!(progress(i32::MIN), 0.0);
}

#[test]
fn next_rank_names() {
    assert_eq!(next_rank_name(300), Some("Bronze"));
    assert_eq!(next_rank_name(1100), Some("Silver"));
    assert_eq!(next_rank_name(2399), Some("Pong Legend"));
    assert_eq!(next_rank_name(2400), None);
    assert_eq!(next_rank_name(9999), None);
}

#[test]
fn ranks_grow_with_the_rating() {
    let mut last = 0;
    for rating in -200..3000 {
        let idx = rank_index(rating);
        assert!(idx >= last);
        assert_eq!(RANKS[idx], rank_for_rating(rating));
        last = idx;
    }
    assert_eq!(last, 8);
}

#[test]
fn defaults_for_missing_fields() {
    assert_eq!(default_rating(), 800);
    assert_eq!(default_rating(), DEFAULT_RATING);
    assert!(default_no_proof().is_none());
    assert_eq!(f32::from_bits(default_ball_speed_mult()), 1.0);
}

#[test]
fn mirroring_negates_x_and_undoes_itself() {
    let p = Point2 { x: 1.5f32.to_bits(), y: (-2.5f32).to_bits() };
    let m = mirror_x(p);
    assert_eq!(f32::from_bits(m.x), -1.5);
    assert_eq!(f32::from_bits(m.y), -2.5);
    assert_eq!(mirror_x(m), p);
}
