use asciiart::intensity::{
    char_intensities, Coverage, GlyphRaster, Intensity, SignatureError, ToneCurve, ONE,
};

fn fx(v: f64) -> u32 {
    (v * ONE as f64).round() as u32
}

fn uniform(v: u32) -> Intensity {
    Intensity { left: v, right: v, top: v, bottom: v, middle: v }
}

fn identity_levels() -> Vec<u32> {
    (0..=ONE).collect()
}

#[test]
fn distance() {
    let a = Intensity {
        left: fx(0.5),
        right: fx(0.5),
        top: fx(0.5),
        bottom: fx(0.5),
        middle: fx(0.5),
    };
    let b = Intensity { left: fx(0.), right: fx(1.), top: fx(0.), bottom: fx(1.), middle: fx(0.) };
    assert_eq!(a.distance(&b), fx(0.5 + 0.5 + 0.5 + 0.5 + 1.5) as u64);
}

#[test]
fn distance_to_self_is_zero() {
    let c = Intensity { left: 1, right: 700, top: ONE, bottom: 0, middle: 12345 };
    assert_eq!(c.distance(&c.clone()), 0);
}

#[test]
fn distance_weighs_bottom_three_times() {
    let a = uniform(0);
    let mut b = uniform(0);
    b.bottom = 10;
    assert_eq!(a.distance(&b), 30);
    let mut c = uniform(0);
    c.top = 10;
    assert_eq!(a.distance(&c), 10);
    assert_eq!(b.distance(&a), 30);
}

#[test]
fn apply_maps_every_region() {
    let mut c = Intensity { left: 1, right: 2, top: 3, bottom: 4, middle: 5 };
    c.apply(|x| x * 10);
    assert_eq!(c, Intensity { left: 10, right: 20, top: 30, bottom: 40, middle: 50 });
}

#[test]
fn neutral_tone_curve_is_identity() {
    let curve = ToneCurve::new(ONE as i64, identity_levels()).unwrap();
    for x in 0..=ONE {
        assert_eq!(curve.map(x), x);
    }
}

#[test]
fn tone_curve_contrast_and_clamp() {
    let curve = ToneCurve::new(2 * ONE as i64, identity_levels()).unwrap();
    assert_eq!(curve.map(fx(0.5)), fx(0.5));
    assert_eq!(curve.map(fx(0.75)), ONE);
    assert_eq!(curve.map(fx(0.625)), fx(0.75));
    assert_eq!(curve.map(fx(0.1)), 0);
    let flat = ToneCurve::new(0, identity_levels()).unwrap();
    assert_eq!(flat.map(0), fx(0.5));
    let inverted = ToneCurve::new(-(ONE as i64), identity_levels()).unwrap();
    assert_eq!(inverted.map(fx(0.25)), fx(0.75));
}

#[test]
fn tone_curve_uses_gamma_levels() {
    let levels: Vec<u32> = (0..=ONE).map(|v| ((v as u64 * v as u64) / ONE as u64) as u32).collect();
    let curve = ToneCurve::new(ONE as i64, levels).unwrap();
    assert_eq!(curve.map(fx(0.5)), fx(0.25));
}

#[test]
fn tone_curve_rejects_bad_levels() {
    assert!(ToneCurve::new(ONE as i64, vec![0; 10]).is_none());
    let mut levels = identity_levels();
    levels[3] = ONE + 1;
    assert!(ToneCurve::new(ONE as i64, levels).is_none());
}

fn glyph(character: char, width: u32, origin: Option<(i32, i32)>, coverage: Vec<Coverage>) -> GlyphRaster {
    GlyphRaster { character, width, origin, coverage }
}

#[test]
fn signatures_are_normalised_and_inverted() {
    // One fully inked pixel in the top-left corner counts for both left and top.
    let a = glyph('a', 3, Some((0, 0)), vec![Coverage { x: 0, y: 0, value: ONE }]);
    let hidden = glyph('b', 3, None, vec![]);
    let table = char_intensities(&vec![a, hidden]).unwrap();
    assert_eq!(table.len(), 2);
    assert_eq!(table[0], ('a', Intensity { left: 0, right: ONE, top: 0, bottom: ONE, middle: ONE }));
    assert_eq!(table[1], (' ', Intensity::white()));
}

#[test]
fn signatures_use_region_averages() {
    // Width 6: sides are 2 pixels wide, bands 12 high.
    let bottom_right = Coverage { x: 5, y: 30, value: ONE };
    let centre = Coverage { x: 2, y: 15, value: ONE };
    let left_mid = Coverage { x: 0, y: 15, value: ONE };
    let g = glyph('q', 6, Some((0, 0)), vec![bottom_right, centre, left_mid]);
    let table = char_intensities(&vec![g]).unwrap();
    // raw: left = right = ONE / 72, bottom = ONE / 72, top = 0, middle = ONE / 24 (the peak)
    let side = ONE / 72;
    let peak = ONE / 24;
    let scaled = ONE - side * ONE / peak;
    assert_eq!(
        table[0],
        ('q', Intensity { left: scaled, right: scaled, top: ONE, bottom: scaled, middle: 0 })
    );
}

#[test]
fn origin_offsets_coverage() {
    // The pixel lies at x = 2 once the origin is added: the right side of a width-3 glyph.
    let g = glyph('r', 3, Some((2, 13)), vec![Coverage { x: 0, y: 0, value: ONE }]);
    let table = char_intensities(&vec![g]).unwrap();
    assert_eq!(table[0].1, Intensity { left: ONE, right: 0, top: ONE, bottom: ONE, middle: ONE });
}

#[test]
fn blank_alphabet_is_rejected() {
    let g = glyph('.', 4, Some((0, 0)), vec![Coverage { x: 1, y: 1, value: 0 }]);
    assert_eq!(char_intensities(&vec![g]).unwrap_err(), SignatureError::AlphabetAllBlank);
    assert_eq!(char_intensities(&vec![]).unwrap_err(), SignatureError::AlphabetAllBlank);
}

#[test]
fn narrow_glyph_is_rejected() {
    let ok = glyph('a', 3, Some((0, 0)), vec![Coverage { x: 0, y: 0, value: ONE }]);
    let narrow = glyph('i', 2, Some((0, 0)), vec![Coverage { x: 0, y: 0, value: ONE }]);
    let narrow2 = glyph('l', 1, Some((0, 0)), vec![]);
    assert_eq!(
        char_intensities(&vec![ok, narrow, narrow2]).unwrap_err(),
        SignatureError::InvalidGlyphSignature('i')
    );
    let hidden_narrow = glyph('j', 0, None, vec![]);
    let ok = glyph('a', 3, Some((0, 0)), vec![Coverage { x: 0, y: 0, value: ONE }]);
    assert!(char_intensities(&vec![hidden_narrow, ok]).is_ok());
}
