use tiny_kernel::vga::color::VgaColor;
use tiny_kernel::vga::VgaMode;

#[test]
fn pure_red_reads_as_hsl() {
    let c = VgaColor::new_rgb(255, 0, 0);
    assert_eq!(c.red_val(), 255);
    assert_eq!(c.green_val(), 0);
    assert_eq!(c.blue_val(), 0);
    assert_eq!(c.hue(), 0);
    assert_eq!(c.saturation(), 100);
    assert_eq!(c.lightness(), 50);
}

#[test]
fn pure_green_and_blue_hues() {
    let g = VgaColor::new_rgb(0, 255, 0);
    assert_eq!(g.hue(), 120);
    assert_eq!(g.saturation(), 100);
    assert_eq!(g.lightness(), 50);
    let b = VgaColor::new_rgb(0, 0, 255);
    assert_eq!(b.hue(), 240);
    assert_eq!(b.saturation(), 100);
    assert_eq!(b.lightness(), 50);
}

#[test]
fn achromatic_colors_have_no_hue_or_saturation() {
    let white = VgaColor::white();
    assert_eq!(white.hue(), 0);
    assert_eq!(white.saturation(), 0);
    assert_eq!(white.lightness(), 100);
    let black = VgaColor::black();
    assert_eq!(black.hue(), 0);
    assert_eq!(black.saturation(), 0);
    assert_eq!(black.lightness(), 0);
    let gray = VgaColor::new_rgb(128, 128, 128);
    assert_eq!(gray.hue(), 0);
    assert_eq!(gray.saturation(), 0);
    assert_eq!(gray.lightness(), 50);
}

#[test]
fn mixed_channels_give_exact_readings() {
    let yellow = VgaColor::yellow();
    assert_eq!(yellow.hue(), 60);
    assert_eq!(yellow.saturation(), 100);
    assert_eq!(yellow.lightness(), 50);
    let dark_red = VgaColor::dark_red();
    assert_eq!(dark_red.red_val(), 127);
    assert_eq!(dark_red.hue(), 0);
    assert_eq!(dark_red.saturation(), 100);
    assert_eq!(dark_red.lightness(), 24);
}

#[test]
fn primary_hues_convert_back_to_rgb() {
    let red = VgaColor::new_hsl(0, 100, 50);
    assert_eq!(
        (red.red_val(), red.green_val(), red.blue_val()),
        (255, 0, 0)
    );
    assert_eq!((red.hue(), red.saturation(), red.lightness()), (0, 100, 50));
    let green = VgaColor::new_hsl(120, 100, 50);
    assert_eq!(
        (green.red_val(), green.green_val(), green.blue_val()),
        (0, 255, 0)
    );
    let blue = VgaColor::new_hsl(240, 100, 50);
    assert_eq!(
        (blue.red_val(), blue.green_val(), blue.blue_val()),
        (0, 0, 255)
    );
    let yellow = VgaColor::new_hsl(60, 100, 50);
    assert_eq!(
        (yellow.red_val(), yellow.green_val(), yellow.blue_val()),
        (255, 255, 0)
    );
}

#[test]
fn out_of_range_hue_yields_black() {
    let c = VgaColor::new_hsl(400, 50, 50);
    assert_eq!((c.red_val(), c.green_val(), c.blue_val()), (0, 0, 0));
    assert_eq!(c.hue(), 400);
}

#[test]
fn saturation_and_lightness_are_clamped() {
    let c = VgaColor::new_hsl(0, 255, 50);
    assert_eq!((c.red_val(), c.green_val(), c.blue_val()), (255, 0, 0));
    let full = VgaColor::new_hsl(0, 0, 100);
    assert_eq!(
        (full.red_val(), full.green_val(), full.blue_val()),
        (255, 255, 255)
    );
    let none = VgaColor::new_hsl(0, 0, 0);
    assert_eq!((none.red_val(), none.green_val(), none.blue_val()), (0, 0, 0));
}

#[test]
fn channel_setters_rederive_the_hsl_reading() {
    let mut c = VgaColor::black();
    c.set_red(255);
    assert_eq!(c.red_val(), 255);
    assert_eq!(c.green_val(), 0);
    assert_eq!(c.blue_val(), 0);
    assert_eq!(c.hue(), 0);
    assert_eq!(c.saturation(), 100);
    assert_eq!(c.lightness(), 50);
    c.set_green(255);
    assert_eq!(c.hue(), 60);
    c.set_blue(255);
    assert_eq!(c.saturation(), 0);
    assert_eq!(c.lightness(), 100);
}

#[test]
fn hsl_setters_rederive_the_channels() {
    let mut c = VgaColor::new_hsl(0, 100, 50);
    c.set_lightness(100);
    assert_eq!((c.red_val(), c.green_val(), c.blue_val()), (255, 255, 255));
    let mut d = VgaColor::new_hsl(0, 100, 50);
    d.set_hue(120);
    assert_eq!((d.red_val(), d.green_val(), d.blue_val()), (0, 255, 0));
    let mut e = VgaColor::new_hsl(0, 100, 50);
    e.set_saturation(0);
    assert_eq!((e.red_val(), e.green_val(), e.blue_val()), (127, 127, 127));
}

#[test]
fn named_colors_carry_their_channels() {
    let cases = [
        (VgaColor::black(), (0u8, 0u8, 0u8)),
        (VgaColor::dark_green(), (0, 127, 0)),
        (VgaColor::dark_yellow(), (127, 127, 0)),
        (VgaColor::dark_blue(), (127, 0, 0)),
        (VgaColor::dark_magenta(), (127, 0, 127)),
        (VgaColor::dark_cyan(), (0, 127, 127)),
        (VgaColor::light_gray(), (192, 192, 192)),
        (VgaColor::dark_gray(), (128, 128, 128)),
        (VgaColor::red(), (255, 0, 0)),
        (VgaColor::green(), (0, 255, 0)),
        (VgaColor::blue(), (0, 0, 255)),
        (VgaColor::magenta(), (255, 0, 255)),
        (VgaColor::cyan(), (0, 255, 255)),
        (VgaColor::white(), (255, 255, 255)),
    ];
    for (color, (r, g, b)) in cases {
        assert_eq!(color.red_val(), r);
        assert_eq!(color.green_val(), g);
        assert_eq!(color.blue_val(), b);
    }
}

#[test]
fn saturating_add_caps_each_channel() {
    let a = VgaColor::new_rgb(200, 100, 0);
    let b = VgaColor::new_rgb(100, 50, 3);
    let sum = a.saturating_add(&b);
    assert_eq!(sum.red_val(), 255);
    assert_eq!(sum.green_val(), 150);
    assert_eq!(sum.blue_val(), 3);
    // the HSL reading is re-derived from the summed channels
    let same = VgaColor::new_rgb(255, 150, 3);
    assert_eq!(sum.hue(), same.hue());
    assert_eq!(sum.saturation(), same.saturation());
    assert_eq!(sum.lightness(), same.lightness());
}

#[test]
fn vga_modes_are_distinct() {
    assert_ne!(VgaMode::Text, VgaMode::Pixels);
    assert_eq!(VgaMode::Text, VgaMode::Text);
}
