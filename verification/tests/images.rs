use colorcycle::base::StaticImage;
use colorcycle::shared::{
    apply_cycles, draw_list, BaseData, Color, ColorCycle, Cycle, DataError, Dot, CYCLE_SPEED,
    DAY_SECS,
};

const RED: Color = Color { r: 255, g: 0, b: 0 };
const GREEN: Color = Color { r: 0, g: 255, b: 0 };
const BLUE: Color = Color { r: 0, g: 0, b: 255 };
const WHITE: Color = Color { r: 255, g: 255, b: 255 };

fn steady(low: usize, high: usize, rate: usize, style: usize) -> Cycle {
    Cycle { reverse: style, rate, low, high, wave: Vec::new() }
}

fn small(cycles: Vec<Cycle>) -> BaseData {
    BaseData { width: 2, height: 1, colors: vec![RED, GREEN, BLUE], cycles, pixels: vec![0, 1] }
}

#[test]
fn constants_have_their_values() {
    assert_eq!(DAY_SECS, 86400);
    assert_eq!(CYCLE_SPEED, 280);
}

#[test]
fn one_second_rotates_three_colors_by_one() {
    let data = small(vec![steady(0, 2, 280, 0)]);
    assert_eq!(data.validate(), Ok(()));
    let mut img = StaticImage::from_data(data);
    let palette = img.cycle(None, 1000);
    assert_eq!(palette, vec![BLUE, RED, GREEN]);
    let indices = img.get_indices();
    assert_eq!(palette[indices[0]], BLUE);
    assert_eq!(palette[indices[1]], RED);
}

#[test]
fn frame_does_not_touch_the_base_palette() {
    let mut img = StaticImage::from_data(small(vec![steady(0, 2, 280, 0)]));
    let _ = img.cycle(Some(5), 2000);
    assert_eq!(img.get_palette(), &[RED, GREEN, BLUE][..]);
    assert_eq!(img.cycle(Some(77777), 0), vec![RED, GREEN, BLUE]);
}

#[test]
fn static_image_ignores_the_time_of_day() {
    let mut img = StaticImage::from_data(small(vec![steady(0, 2, 280, 0)]));
    let a = img.cycle(None, 2000);
    let b = img.cycle(Some(40000), 2000);
    assert_eq!(a, b);
    assert_eq!(a, vec![GREEN, BLUE, RED]);
}

#[test]
fn accessors_give_what_the_description_held() {
    let data = BaseData {
        width: 3,
        height: 2,
        colors: vec![RED, GREEN, BLUE, WHITE],
        cycles: vec![steady(1, 2, 560, 2), steady(0, 0, 0, 0)],
        pixels: vec![0, 1, 2, 3, 2, 1],
    };
    assert_eq!(data.validate(), Ok(()));
    let img = StaticImage::from_data(data);
    assert_eq!(img.get_size(), (3, 2));
    assert_eq!(img.get_indices(), &[0, 1, 2, 3, 2, 1][..]);
    assert_eq!(img.get_palette(), &[RED, GREEN, BLUE, WHITE][..]);
    let cycles = img.get_cycles();
    assert_eq!(cycles.len(), 2);
    assert_eq!((cycles[0].reverse, cycles[0].rate, cycles[0].low, cycles[0].high), (2, 560, 1, 2));
    assert_eq!((cycles[1].reverse, cycles[1].rate, cycles[1].low, cycles[1].high), (0, 0, 0, 0));
}

#[test]
fn animated_indices_are_the_ranges_of_moving_cycles() {
    let data = BaseData {
        width: 1,
        height: 1,
        colors: vec![RED, GREEN, BLUE, WHITE, RED, GREEN],
        cycles: vec![steady(3, 5, 280, 0), steady(0, 1, 0, 0), steady(2, 3, 1, 1)],
        pixels: vec![0],
    };
    let img = StaticImage::from_data(data);
    assert_eq!(img.get_animated_indices(), &[3, 4, 5, 2, 3][..]);
}

#[test]
fn still_image_has_no_animated_index() {
    let img = StaticImage::from_data(small(vec![steady(0, 2, 0, 0)]));
    assert!(img.get_animated_indices().is_empty());
    let bare = StaticImage::from_data(small(Vec::new()));
    assert!(bare.get_animated_indices().is_empty());
}

#[test]
fn cycle_with_rate_zero_never_moves() {
    for style in 0..=5 {
        let mut img = StaticImage::from_data(small(vec![steady(0, 2, 0, style)]));
        for dt in [0, 1, 999, 1000, 280000, 123456789] {
            assert_eq!(img.cycle(None, dt), vec![RED, GREEN, BLUE]);
        }
    }
}

#[test]
fn entries_outside_moving_ranges_stay() {
    let data = BaseData {
        width: 1,
        height: 1,
        colors: vec![RED, GREEN, BLUE, WHITE],
        cycles: vec![steady(0, 1, 0, 0), steady(2, 3, 280, 0)],
        pixels: vec![0],
    };
    let mut img = StaticImage::from_data(data);
    for dt in [0, 1000, 2000, 3500, 99999] {
        let p = img.cycle(None, dt);
        assert_eq!(p[0], RED);
        assert_eq!(p[1], GREEN);
    }
    assert_eq!(img.cycle(None, 1000), vec![RED, GREEN, WHITE, BLUE]);
}

#[test]
fn rate_below_the_tick_rate_stands_still() {
    let mut img = StaticImage::from_data(small(vec![steady(0, 2, 279, 0)]));
    assert_eq!(img.cycle(None, 5000), vec![RED, GREEN, BLUE]);
}

#[test]
fn steady_cycle_returns_after_whole_turns() {
    let mut img = StaticImage::from_data(small(vec![steady(0, 2, 280, 0)]));
    let start = img.cycle(None, 0);
    assert_eq!(start, vec![RED, GREEN, BLUE]);
    for k in 0..6 {
        assert_eq!(img.cycle(None, k * 1000 * 3), start);
    }
    let mut fast = StaticImage::from_data(small(vec![steady(0, 2, 280 * 4, 1)]));
    for k in 0..6 {
        assert_eq!(fast.cycle(None, k * 250 * 3), start);
    }
    let mut back = StaticImage::from_data(small(vec![steady(0, 2, 280 * 5, 2)]));
    for k in 0..6 {
        assert_eq!(back.cycle(None, k * 200 * 3), start);
    }
}

#[test]
fn style_two_runs_in_reverse() {
    let mut img = StaticImage::from_data(small(vec![steady(0, 2, 280, 2)]));
    assert_eq!(img.cycle(None, 1000), vec![GREEN, BLUE, RED]);
    assert_eq!(img.cycle(None, 2000), vec![BLUE, RED, GREEN]);
}

#[test]
fn cycles_apply_in_their_order() {
    let mut p = vec![RED, GREEN, BLUE, WHITE];
    let cycles = vec![steady(0, 1, 280, 0), steady(1, 3, 280, 0)];
    apply_cycles(&mut p, &cycles, 1000);
    assert_eq!(p, vec![GREEN, WHITE, RED, BLUE]);
}

#[test]
fn sine_cycle_follows_its_wave() {
    let mut cycle = steady(0, 3, 280, 4);
    cycle.wave = vec![true, false, true, true];
    let data = BaseData {
        width: 1,
        height: 1,
        colors: vec![RED, GREEN, BLUE, WHITE],
        cycles: vec![cycle],
        pixels: vec![3],
    };
    let mut img = StaticImage::from_data(data);
    assert_eq!(img.cycle(None, 0), vec![WHITE, RED, GREEN, BLUE]);
    assert_eq!(img.cycle(None, 1000), vec![RED, GREEN, BLUE, WHITE]);
}

#[test]
fn validate_names_bad_dimensions() {
    let mut data = small(Vec::new());
    data.width = 3;
    assert_eq!(data.validate(), Err(DataError::BadDimensions));
    let mut flat = small(Vec::new());
    flat.height = 0;
    flat.pixels = Vec::new();
    assert_eq!(flat.validate(), Err(DataError::BadDimensions));
    let mut thin = small(Vec::new());
    thin.width = 0;
    thin.pixels = Vec::new();
    assert_eq!(thin.validate(), Err(DataError::BadDimensions));
}

#[test]
fn validate_names_a_malformed_range() {
    assert_eq!(small(vec![steady(0, 3, 1, 0)]).validate(), Err(DataError::MalformedRange));
    assert_eq!(small(vec![steady(2, 1, 1, 0)]).validate(), Err(DataError::MalformedRange));
    assert_eq!(
        small(vec![steady(0, 2, 1, 0), steady(3, 3, 0, 0)]).validate(),
        Err(DataError::MalformedRange)
    );
    assert_eq!(small(vec![steady(0, 2, 1, 0), steady(2, 2, 0, 0)]).validate(), Ok(()));
}

#[test]
fn validate_names_an_unknown_style() {
    assert_eq!(small(vec![steady(0, 2, 1, 6)]).validate(), Err(DataError::UnknownStyle));
    assert_eq!(small(vec![steady(0, 2, 1, 5)]).validate(), Ok(()));
}

#[test]
fn validate_names_a_pixel_out_of_range() {
    let mut data = small(Vec::new());
    data.pixels = vec![0, 3];
    assert_eq!(data.validate(), Err(DataError::PixelOutOfRange));
}

#[test]
fn validate_reports_the_first_fault() {
    let mut data = small(vec![steady(0, 9, 1, 9)]);
    data.pixels = vec![9, 9];
    assert_eq!(data.validate(), Err(DataError::MalformedRange));
    data.cycles = vec![steady(0, 1, 1, 9)];
    assert_eq!(data.validate(), Err(DataError::UnknownStyle));
    data.width = 7;
    assert_eq!(data.validate(), Err(DataError::BadDimensions));
}

fn grid() -> BaseData {
    BaseData {
        width: 3,
        height: 2,
        colors: vec![RED, GREEN, BLUE, WHITE],
        cycles: vec![steady(1, 2, 280, 0)],
        pixels: vec![0, 1, 2, 3, 2, 1],
    }
}

#[test]
fn first_drawing_paints_every_pixel() {
    let mut img = StaticImage::from_data(grid());
    let dots = draw_list(&mut img, None, 1000, true);
    assert_eq!(
        dots,
        vec![
            Dot { x: 0, y: 0, color: RED },
            Dot { x: 1, y: 0, color: BLUE },
            Dot { x: 2, y: 0, color: GREEN },
            Dot { x: 0, y: 1, color: WHITE },
            Dot { x: 1, y: 1, color: GREEN },
            Dot { x: 2, y: 1, color: BLUE },
        ]
    );
}

#[test]
fn later_drawings_paint_the_moving_pixels_only() {
    let mut img = StaticImage::from_data(grid());
    let dots = draw_list(&mut img, None, 1000, false);
    assert_eq!(
        dots,
        vec![
            Dot { x: 1, y: 0, color: BLUE },
            Dot { x: 2, y: 0, color: GREEN },
            Dot { x: 1, y: 1, color: GREEN },
            Dot { x: 2, y: 1, color: BLUE },
        ]
    );
}

#[test]
fn still_image_has_nothing_to_paint_after_the_first_drawing() {
    let mut img = StaticImage::from_data(small(vec![steady(0, 2, 0, 0)]));
    assert!(draw_list(&mut img, None, 5000, false).is_empty());
    assert_eq!(
        draw_list(&mut img, None, 5000, true),
        vec![Dot { x: 0, y: 0, color: RED }, Dot { x: 1, y: 0, color: GREEN }]
    );
}

#[test]
fn draw_list_works_through_a_boxed_image() {
    let mut img: Box<dyn ColorCycle> = Box::new(StaticImage::from_data(small(vec![steady(0, 2, 280, 0)])));
    let dots = draw_list(img.as_mut(), None, 1000, false);
    assert_eq!(dots, vec![Dot { x: 0, y: 0, color: BLUE }, Dot { x: 1, y: 0, color: RED }]);
}
