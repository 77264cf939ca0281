use evolution::{Config, Graphics, RNG_SEED};

#[test]
fn seed_is_zero() {
    assert_eq!(RNG_SEED, 0);
    assert_eq!(Config::default().rng_seed(), 0);
}

#[test]
fn seed_does_not_depend_on_how_the_config_was_made() {
    let built = Config { graphics: Graphics {} };
    let cloned = built.clone();
    assert_eq!(built.rng_seed(), Config::default().rng_seed());
    assert_eq!(cloned.rng_seed(), built.rng_seed());
}

#[test]
fn config_can_be_shown() {
    assert_eq!(format!("{:?}", Config::default()), "Config { graphics: Graphics }");
    assert_eq!(format!("{:?}", Graphics::default()), "Graphics");
}
