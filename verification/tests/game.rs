use better_control_panel::game::particle_effects::{Particle, ParticleEffectEngine};
use better_control_panel::game::{is_right, get_right, Game, QuadraticEquation};

#[test]
fn zero_leading_coefficient_is_rejected() {
    assert_eq!(QuadraticEquation::new(0, 1, 2), None);
    assert_eq!(
        QuadraticEquation::new(1, 2, 3),
        Some(QuadraticEquation { a: 1, b: 2, c: 3 })
    );
}

#[test]
fn equation_from_roots_expands_the_product() {
    // a(x - 2)(x - 3) with a = 1: x² - 5x + 6.
    assert_eq!(
        QuadraticEquation::from_x_and_a(2, 3, 1),
        Some(QuadraticEquation { a: 1, b: -5, c: 6 })
    );
    assert_eq!(QuadraticEquation::from_x_and_a(2, 3, 0), None);
}

#[test]
fn calculate_two_distinct_roots() {
    let q = QuadraticEquation { a: 1, b: -5, c: 6 };
    assert_eq!(q.calculate(), Some((3, 2)));
}

#[test]
fn calculate_double_root() {
    let q = QuadraticEquation { a: 1, b: -2, c: 1 };
    assert_eq!(q.calculate(), Some((1, 1)));
}

#[test]
fn calculate_no_real_roots() {
    let q = QuadraticEquation { a: 1, b: 0, c: 1 };
    assert_eq!(q.calculate(), None);
}

#[test]
fn calculate_truncates_toward_zero() {
    // 2x² - 3x - 5 = 0: roots 2.5 and -1; truncated: (3 + 7)/4 = 2 and
    // (3 - 7)/4 = -1.
    let q = QuadraticEquation { a: 2, b: -3, c: -5 };
    assert_eq!(q.calculate(), Some((2, -1)));
}

#[test]
fn fresh_game_poses_no_question() {
    let game = Game::new();
    assert!(game.current_question().is_none());
    assert_eq!(get_right(&game), None);
    assert!(!is_right(&game, 0, 0));
}

#[test]
fn created_question_is_stored_and_in_range() {
    let mut game = Game::new();
    let q = game.create_quadratic_equation();
    assert!((1..=10).contains(&q.a));
    assert!((-2000..=2000).contains(&q.b));
    assert!((-100000..=100000).contains(&q.c));
    assert_eq!(game.current_question(), Some(&q));
}

#[test]
fn generated_roots_are_accepted_in_either_order() {
    let mut game = Game::new();
    let _ = game.create_quadratic_equation();
    // A generated equation is built from two integer roots, so it always
    // has real roots, and they solve it in either order.
    let (x1, x2) = get_right(&game).expect("a generated question has real roots");
    assert!(is_right(&game, x1, x2));
    assert!(is_right(&game, x2, x1));
    assert!(!is_right(&game, x1 + 1, x2));
}

#[test]
fn particle_engine_grows_one_at_a_time() {
    let mut engine = ParticleEffectEngine::new();
    engine.add_particle(Particle {});
    engine.add_particle(Particle {});
    let _ = engine;
}
