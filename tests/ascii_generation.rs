use asciiart::ascii_generation::{asciify, avg_intensity, best_match, cell_intensity, render_rows, GrayRaster};
use asciiart::intensity::{Intensity, ToneCurve, ONE};
use asciiart::text_write::TextWrite;

fn fx(v: f64) -> u32 {
    (v * ONE as f64).round() as u32
}

fn uniform(v: u32) -> Intensity {
    Intensity { left: v, right: v, top: v, bottom: v, middle: v }
}

fn neutral() -> ToneCurve {
    ToneCurve::new(ONE as i64, (0..=ONE).collect()).unwrap()
}

#[test]
fn image_intensity() {
    let image = GrayRaster::from_raw(3, 3, vec![1, 2, 3, 4, 5, 6, 7, 8, 9]).unwrap();
    assert_eq!(avg_intensity(&image, 1, 1, 2, 2), fx(7. / 256.));
    assert_eq!(avg_intensity(&image, 1, 1, 1, 1), fx(5. / 256.));
    assert_eq!(avg_intensity(&image, 0, 0, 0, 2), fx(4. / 256.));
}

#[test]
fn raster_size_must_match() {
    assert!(GrayRaster::from_raw(3, 3, vec![0; 8]).is_none());
    assert!(GrayRaster::from_raw(2, 3, vec![0; 6]).is_some());
}

#[test]
fn cell_regions() {
    let image = GrayRaster::from_raw(3, 3, vec![1, 2, 3, 4, 5, 6, 7, 8, 9]).unwrap();
    let c = cell_intensity(&image, 0, 0);
    assert_eq!(c.left, 4 * 256);
    assert_eq!(c.right, 6 * 256);
    assert_eq!(c.top, 2 * 256);
    assert_eq!(c.bottom, 8 * 256);
    assert_eq!(c.middle, 5 * 256);
}

#[test]
fn second_cell_reads_its_own_block() {
    let mut pixels = vec![0u8; 6 * 3];
    for y in 0..3 {
        for x in 3..6 {
            pixels[y * 6 + x] = 255;
        }
    }
    let image = GrayRaster::from_raw(6, 3, pixels).unwrap();
    assert_eq!(cell_intensity(&image, 0, 0), uniform(0));
    assert_eq!(cell_intensity(&image, 1, 0), uniform(255 * 256));
}

#[test]
fn single_entry_always_matches() {
    let table = vec![('#', uniform(fx(0.3)))];
    for v in [0, 1, fx(0.3), fx(0.9), ONE] {
        assert_eq!(best_match(&uniform(v), &table), '#');
    }
}

#[test]
fn two_entry_alphabet() {
    let table = vec![('X', uniform(0)), (' ', uniform(ONE))];
    assert_eq!(best_match(&uniform(fx(0.9)), &table), ' ');
    assert_eq!(best_match(&uniform(fx(0.1)), &table), 'X');
}

#[test]
fn empty_alphabet_gives_space() {
    assert_eq!(best_match(&uniform(0), &vec![]), ' ');
}

#[test]
fn ties_go_to_the_first_entry() {
    let table = vec![('a', uniform(fx(0.4))), ('b', uniform(fx(0.6))), ('c', uniform(fx(0.4)))];
    assert_eq!(best_match(&uniform(fx(0.5)), &table), 'a');
}

#[test]
fn bottom_weight_decides_match() {
    // 'b' differs only at the bottom, 't' in top and middle: the bottom counts more.
    let cell = uniform(0);
    let b = Intensity { left: 0, right: 0, top: 0, bottom: 100, middle: 0 };
    let t = Intensity { left: 0, right: 0, top: 150, bottom: 0, middle: 100 };
    assert_eq!(best_match(&cell, &vec![('b', b), ('t', t)]), 't');
}

#[test]
fn render_grid() {
    let mut pixels = vec![255u8; 6 * 6];
    for y in 3..6 {
        for x in 0..3 {
            pixels[y * 6 + x] = 0;
        }
    }
    let image = GrayRaster::from_raw(6, 6, pixels).unwrap();
    let table = vec![('#', uniform(0)), (' ', uniform(ONE))];
    let rows = render_rows(2, 2, &image, &table, &neutral());
    assert_eq!(rows, vec![vec![' ', ' '], vec!['#', ' ']]);
}

#[test]
fn render_applies_tone_curve() {
    let image = GrayRaster::from_raw(3, 3, vec![100; 9]).unwrap();
    let table = vec![('#', uniform(0)), (' ', uniform(ONE))];
    assert_eq!(render_rows(1, 1, &image, &table, &neutral()), vec![vec!['#']]);
    let inverted = ToneCurve::new(-(ONE as i64), (0..=ONE).collect()).unwrap();
    assert_eq!(render_rows(1, 1, &image, &table, &inverted), vec![vec![' ']]);
}

struct Collect {
    text: String,
    fail_after: usize,
}

impl TextWrite<&'static str> for Collect {
    fn flush(&mut self) -> Result<(), &'static str> {
        Ok(())
    }

    fn write_char(&mut self, c: char) -> Result<(), &'static str> {
        if self.text.len() >= self.fail_after {
            return Err("full");
        }
        self.text.push(c);
        Ok(())
    }

    fn write_newline(&mut self) -> Result<(), &'static str> {
        self.text.push('\n');
        Ok(())
    }
}

#[test]
fn asciify_writes_rows_and_newlines() {
    let mut pixels = vec![0u8; 6 * 3];
    for y in 0..3 {
        for x in 3..6 {
            pixels[y * 6 + x] = 255;
        }
    }
    let image = GrayRaster::from_raw(6, 3, pixels).unwrap();
    let table = vec![('#', uniform(0)), (' ', uniform(ONE))];
    let mut out = Collect { text: String::new(), fail_after: 100 };
    asciify(&mut out, 2, 1, &image, &table, &neutral()).unwrap();
    assert_eq!(out.text, "# \n");
}

#[test]
fn asciify_stops_at_first_error() {
    let image = GrayRaster::from_raw(6, 6, vec![0; 36]).unwrap();
    let table = vec![('#', uniform(0))];
    let mut out = Collect { text: String::new(), fail_after: 3 };
    assert_eq!(asciify(&mut out, 2, 2, &image, &table, &neutral()).unwrap_err(), "full");
    assert_eq!(out.text, "##\n");
}

#[test]
fn asciify_with_no_rows_writes_nothing() {
    let image = GrayRaster::from_raw(6, 0, vec![]).unwrap();
    let table = vec![('#', uniform(0))];
    let mut out = Collect { text: String::new(), fail_after: 0 };
    assert!(asciify(&mut out, 2, 0, &image, &table, &neutral()).is_ok());
    assert_eq!(out.text, "");
}
