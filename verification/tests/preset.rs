use mathatura::preset::{GrayScottParams, Preset, RATE_SCALE};

#[test]
fn test_presets() {
    for preset in [Preset::Spots, Preset::Stripes, Preset::Coral, Preset::Mitosis, Preset::Worms] {
        let params = preset.params();
        assert!(params.da > 0);
        assert!(params.db > 0);
        assert!(!preset.name().is_empty());
    }
}

#[test]
fn preset_rates_are_the_documented_ones() {
    assert_eq!(RATE_SCALE, 1000);
    assert_eq!(
        Preset::Spots.params(),
        GrayScottParams { da: 1000, db: 500, feed: 35, kill: 65, dt: 1000 }
    );
    assert_eq!(
        Preset::Stripes.params(),
        GrayScottParams { da: 1000, db: 500, feed: 40, kill: 60, dt: 1000 }
    );
    assert_eq!(
        Preset::Coral.params(),
        GrayScottParams { da: 1000, db: 500, feed: 60, kill: 62, dt: 1000 }
    );
    assert_eq!(
        Preset::Mitosis.params(),
        GrayScottParams { da: 1000, db: 500, feed: 28, kill: 62, dt: 1000 }
    );
    assert_eq!(
        Preset::Worms.params(),
        GrayScottParams { da: 1000, db: 500, feed: 58, kill: 65, dt: 1000 }
    );
}

#[test]
fn preset_rates_convert_to_the_decimal_fractions() {
    let p = Preset::Spots.params();
    let scale = RATE_SCALE as f64;
    assert_eq!(p.da as f64 / scale, 1.0);
    assert_eq!(p.db as f64 / scale, 0.5);
    assert_eq!(p.feed as f64 / scale, 0.035);
    assert_eq!(p.kill as f64 / scale, 0.065);
    assert_eq!(p.dt as f64 / scale, 1.0);
    assert_eq!(Preset::Stripes.params().feed as f64 / scale, 0.04);
    assert_eq!(Preset::Stripes.params().kill as f64 / scale, 0.06);
    assert_eq!(Preset::Coral.params().feed as f64 / scale, 0.06);
    assert_eq!(Preset::Coral.params().kill as f64 / scale, 0.062);
    assert_eq!(Preset::Mitosis.params().feed as f64 / scale, 0.028);
    assert_eq!(Preset::Worms.params().feed as f64 / scale, 0.058);
}

#[test]
fn presets_share_diffusion_and_time_step() {
    for preset in [Preset::Spots, Preset::Stripes, Preset::Coral, Preset::Mitosis, Preset::Worms] {
        let p = preset.params();
        assert_eq!((p.da, p.db, p.dt), (1000, 500, 1000));
    }
}

#[test]
fn preset_names() {
    assert_eq!(Preset::Spots.name(), "Leopard Spots");
    assert_eq!(Preset::Stripes.name(), "Zebra Stripes");
    assert_eq!(Preset::Coral.name(), "Brain Coral");
    assert_eq!(Preset::Mitosis.name(), "Cell Division");
    assert_eq!(Preset::Worms.name(), "Worm Solitons");
}
