//! An RGB colour that also carries its hue/saturation/lightness reading.
//!
//! Both colour spaces are kept in integer form: red, green and blue as
//! `0..=255` channel values, hue as degrees `0..360`, saturation and
//! lightness as percentages `0..=100`. The conversions are the standard
//! HSL formulas carried out in integer arithmetic, truncating on division.

use vstd::prelude::*;

verus! {

use vstd::arithmetic::div_mod::{
    lemma_div_is_ordered,
    lemma_div_multiples_vanish,
    lemma_div_pos_is_pos,
    lemma_fundamental_div_mod,
    lemma_mod_division_less_than_divisor,
};
use vstd::arithmetic::mul::lemma_mul_inequality;

/// The sum of two channel values, capped at the channel maximum.
pub open spec fn saturating_channel(a: int, b: int) -> int {
    if a + b <= 255 {
        a + b
    } else {
        255
    }
}

/// A quantity at most `b * q` divided by `b` stays at most `q`.
proof fn lemma_div_bound(x: int, b: int, q: int)
    requires
        0 <= x,
        1 <= b,
        x <= b * q,
    ensures
        0 <= x / b <= q,
{
    lemma_div_is_ordered(x, b * q, b);
    lemma_div_multiples_vanish(q, b);
    lemma_div_pos_is_pos(x, b);
}

/// A colour, stored both as RGB channels and as the HSL reading derived from
/// them (or, after an HSL-side update, the RGB channels derived from HSL).
#[derive(Debug, Clone, Copy, PartialEq, Eq, Structural)]
pub struct VgaColor {
    red: u8,
    green: u8,
    blue: u8,

    hue: u16,
    saturation: u8,
    lightness: u8,
}

/// Largest of three channel values.
pub open spec fn max3(r: int, g: int, b: int) -> int {
    if r >= g && r >= b {
        r
    } else if g >= b {
        g
    } else {
        b
    }
}

/// Smallest of three channel values.
pub open spec fn min3(r: int, g: int, b: int) -> int {
    if r <= g && r <= b {
        r
    } else if g <= b {
        g
    } else {
        b
    }
}

/// Lightness percentage of an RGB colour: the mean of the largest and
/// smallest channel, rescaled from `0..=255` to `0..=100`.
pub open spec fn lightness_of_rgb(r: int, g: int, b: int) -> int {
    (max3(r, g, b) + min3(r, g, b)) * 50 / 255
}

/// Saturation percentage of an RGB colour.
pub open spec fn saturation_of_rgb(r: int, g: int, b: int) -> int {
    let mx = max3(r, g, b);
    let mn = min3(r, g, b);
    let t = mx + mn;
    if mx == mn {
        0
    } else if t <= 255 {
        (mx - mn) * 100 / t
    } else {
        (mx - mn) * 100 / (510 - t)
    }
}

/// Hue in degrees `0..360` of an RGB colour, `0` for the achromatic case.
pub open spec fn hue_of_rgb(r: int, g: int, b: int) -> int {
    let mx = max3(r, g, b);
    let mn = min3(r, g, b);
    let d = mx - mn;
    if d == 0 {
        0
    } else if mx == r && g >= b {
        60 * (g - b) / d
    } else if mx == r {
        if 60 * (b - g) / d == 0 {
            0
        } else {
            360 - 60 * (b - g) / d
        }
    } else if mx == g {
        if b >= r {
            120 + 60 * (b - r) / d
        } else {
            120 - 60 * (r - b) / d
        }
    } else {
        if r >= g {
            240 + 60 * (r - g) / d
        } else {
            240 - 60 * (g - r) / d
        }
    }
}

/// Chroma of an HSL colour, on the `0..=100` scale, after clamping
/// saturation and lightness to `0..=100`.
pub open spec fn chroma_of_hsl(s: int, l: int) -> int {
    let sc = if s <= 100 { s } else { 100 };
    let lc = if l <= 100 { l } else { 100 };
    (if 2 * lc <= 100 {
        2 * lc
    } else {
        200 - 2 * lc
    }) * sc / 100
}

/// Secondary component of an HSL colour, on the `0..=100` scale.
pub open spec fn second_of_hsl(h: int, s: int, l: int) -> int {
    let c = chroma_of_hsl(s, l);
    let hm = h % 120;
    c * (if hm <= 60 {
        hm
    } else {
        120 - hm
    }) / 60
}

/// Base offset added to every channel of an HSL colour, on the `0..=100`
/// scale.
pub open spec fn base_of_hsl(s: int, l: int) -> int {
    let lc = if l <= 100 { l } else { 100 };
    lc - chroma_of_hsl(s, l) / 2
}

/// A `0..=100` channel reading rescaled to `0..=255`.
pub open spec fn channel_scale(v: int) -> int {
    v * 255 / 100
}

/// Red channel of an HSL colour. A hue of `360` degrees or more yields black
/// on every channel.
pub open spec fn red_of_hsl(h: int, s: int, l: int) -> int {
    if h >= 360 {
        0
    } else {
        let c = chroma_of_hsl(s, l);
        let x = second_of_hsl(h, s, l);
        let m = base_of_hsl(s, l);
        if h < 60 {
            channel_scale(c + m)
        } else if h < 120 {
            channel_scale(x + m)
        } else if h < 240 {
            channel_scale(m)
        } else if h < 300 {
            channel_scale(x + m)
        } else {
            channel_scale(c + m)
        }
    }
}

/// Green channel of an HSL colour.
pub open spec fn green_of_hsl(h: int, s: int, l: int) -> int {
    if h >= 360 {
        0
    } else {
        let c = chroma_of_hsl(s, l);
        let x = second_of_hsl(h, s, l);
        let m = base_of_hsl(s, l);
        if h < 60 {
            channel_scale(x + m)
        } else if h < 180 {
            channel_scale(c + m)
        } else if h < 240 {
            channel_scale(x + m)
        } else {
            channel_scale(m)
        }
    }
}

/// Blue channel of an HSL colour.
pub open spec fn blue_of_hsl(h: int, s: int, l: int) -> int {
    if h >= 360 {
        0
    } else {
        let c = chroma_of_hsl(s, l);
        let x = second_of_hsl(h, s, l);
        let m = base_of_hsl(s, l);
        if h < 120 {
            channel_scale(m)
        } else if h < 180 {
            channel_scale(x + m)
        } else if h < 300 {
            channel_scale(c + m)
        } else {
            channel_scale(x + m)
        }
    }
}

impl VgaColor {
    /// Red channel value.
    pub closed spec fn red_spec(&self) -> u8 {
        self.red
    }

    /// Green channel value.
    pub closed spec fn green_spec(&self) -> u8 {
        self.green
    }

    /// Blue channel value.
    pub closed spec fn blue_spec(&self) -> u8 {
        self.blue
    }

    /// Hue in degrees.
    pub closed spec fn hue_spec(&self) -> u16 {
        self.hue
    }

    /// Saturation percentage.
    pub closed spec fn saturation_spec(&self) -> u8 {
        self.saturation
    }

    /// Lightness percentage.
    pub closed spec fn lightness_spec(&self) -> u8 {
        self.lightness
    }

    /// The colour's HSL fields agree with the conversion of its RGB fields.
    pub open spec fn hsl_from_rgb(&self) -> bool {
        &&& self.hue_spec() == hue_of_rgb(
            self.red_spec() as int,
            self.green_spec() as int,
            self.blue_spec() as int,
        )
        &&& self.saturation_spec() == saturation_of_rgb(
            self.red_spec() as int,
            self.green_spec() as int,
            self.blue_spec() as int,
        )
        &&& self.lightness_spec() == lightness_of_rgb(
            self.red_spec() as int,
            self.green_spec() as int,
            self.blue_spec() as int,
        )
    }

    /// Converts RGB channel values to the integer HSL reading: hue in
    /// degrees `0..360`, saturation and lightness as percentages `0..=100`.
    pub fn rgb_to_hsl(red: u8, green: u8, blue: u8) -> (r: (u16, u8, u8))
        ensures
            r.0 == hue_of_rgb(red as int, green as int, blue as int),
            r.1 == saturation_of_rgb(red as int, green as int, blue as int),
            r.2 == lightness_of_rgb(red as int, green as int, blue as int),
            r.0 < 360,
            r.1 <= 100,
            r.2 <= 100,
    {
        let r32 = red as u32;
        let g32 = green as u32;
        let b32 = blue as u32;
        let mx = if r32 >= g32 && r32 >= b32 {
            r32
        } else if g32 >= b32 {
            g32
        } else {
            b32
        };
        let mn = if r32 <= g32 && r32 <= b32 {
            r32
        } else if g32 <= b32 {
            g32
        } else {
            b32
        };
        let t = mx + mn;
        proof {
            lemma_div_bound(t as int * 50, 255, 100);
        }
        let light = t * 50 / 255;
        let sat: u32 = if mx == mn {
            0
        } else {
            let d = mx - mn;
            let denom = if t <= 255 {
                t
            } else {
                510 - t
            };
            proof {
                lemma_div_bound(d as int * 100, denom as int, 100);
            }
            d * 100 / denom
        };
        let hue: u32 = if mx == mn {
            0
        } else {
            let d = mx - mn;
            if mx == r32 && g32 >= b32 {
                proof {
                    lemma_div_bound(60 * ((g32 - b32) as int), d as int, 60);
                }
                60 * (g32 - b32) / d
            } else if mx == r32 {
                proof {
                    lemma_div_bound(60 * ((b32 - g32) as int), d as int, 60);
                }
                let w = 60 * (b32 - g32) / d;
                if w == 0 {
                    0
                } else {
                    360 - w
                }
            } else if mx == g32 {
                if b32 >= r32 {
                    proof {
                        lemma_div_bound(60 * ((b32 - r32) as int), d as int, 60);
                    }
                    120 + 60 * (b32 - r32) / d
                } else {
                    proof {
                        lemma_div_bound(60 * ((r32 - b32) as int), d as int, 60);
                    }
                    120 - 60 * (r32 - b32) / d
                }
            } else {
                if r32 >= g32 {
                    proof {
                        lemma_div_bound(60 * ((r32 - g32) as int), d as int, 60);
                    }
                    240 + 60 * (r32 - g32) / d
                } else {
                    proof {
                        lemma_div_bound(60 * ((g32 - r32) as int), d as int, 60);
                    }
                    240 - 60 * (g32 - r32) / d
                }
            }
        };
        (hue as u16, sat as u8, light as u8)
    }

    /// Converts an integer HSL reading back to RGB channel values. A hue of
    /// `360` degrees or more yields black; saturation and lightness are
    /// clamped to `0..=100` first.
    #[verifier::rlimit(50)]
    pub fn hsl_to_rgb(hue: u16, saturation: u8, lightness: u8) -> (r: (u8, u8, u8))
        ensures
            r.0 == red_of_hsl(hue as int, saturation as int, lightness as int),
            r.1 == green_of_hsl(hue as int, saturation as int, lightness as int),
            r.2 == blue_of_hsl(hue as int, saturation as int, lightness as int),
    {
        if hue >= 360 {
            return (0, 0, 0);
        }
        let h = hue as u32;
        let sc: u32 = if saturation <= 100 {
            saturation as u32
        } else {
            100
        };
        let lc: u32 = if lightness <= 100 {
            lightness as u32
        } else {
            100
        };
        let cfac = if 2 * lc <= 100 {
            2 * lc
        } else {
            200 - 2 * lc
        };
        proof {
            lemma_mul_inequality(sc as int, 100, cfac as int);
            lemma_div_bound(cfac as int * sc as int, 100, cfac as int);
        }
        let c = cfac * sc / 100;
        let hm = h % 120;
        proof {
            lemma_mod_division_less_than_divisor(h as int, 120);
        }
        let xfac = if hm <= 60 {
            hm
        } else {
            120 - hm
        };
        proof {
            lemma_mul_inequality(xfac as int, 60, c as int);
            lemma_div_bound(c as int * xfac as int, 60, c as int);
            // half the chroma never exceeds the clamped lightness, and the
            // chroma plus the base offset never exceeds the full scale
            lemma_fundamental_div_mod(c as int, 2);
            lemma_mod_division_less_than_divisor(c as int, 2);
        }
        let x = c * xfac / 60;
        assert(c / 2 <= lc);
        assert(c + (lc - c / 2) <= 100);
        let m = lc - c / 2;
        let (r1, g1, b1): (u32, u32, u32) = if h < 60 {
            (c, x, 0)
        } else if h < 120 {
            (x, c, 0)
        } else if h < 180 {
            (0, c, x)
        } else if h < 240 {
            (0, x, c)
        } else if h < 300 {
            (x, 0, c)
        } else {
            (c, 0, x)
        };
        proof {
            lemma_div_bound((r1 + m) as int * 255, 100, 255);
            lemma_div_bound((g1 + m) as int * 255, 100, 255);
            lemma_div_bound((b1 + m) as int * 255, 100, 255);
        }
        let rr = (r1 + m) * 255 / 100;
        let gg = (g1 + m) * 255 / 100;
        let bb = (b1 + m) * 255 / 100;
        (rr as u8, gg as u8, bb as u8)
    }

    /// A colour built from RGB channels; the HSL reading is derived.
    pub fn new_rgb(red: u8, green: u8, blue: u8) -> (r: Self)
        ensures
            r.red_spec() == red,
            r.green_spec() == green,
            r.blue_spec() == blue,
            r.hsl_from_rgb(),
    {
        let (hue, saturation, lightness) = Self::rgb_to_hsl(red, green, blue);
        Self { red, green, blue, hue, saturation, lightness }
    }

    /// A colour built from an HSL reading; the RGB channels are derived.
    pub fn new_hsl(hue: u16, saturation: u8, lightness: u8) -> (r: Self)
        ensures
            r.hue_spec() == hue,
            r.saturation_spec() == saturation,
            r.lightness_spec() == lightness,
            r.rgb_from_hsl(),
    {
        let (red, green, blue) = Self::hsl_to_rgb(hue, saturation, lightness);
        Self { red, green, blue, hue, saturation, lightness }
    }

    /// Red channel value.
    pub fn red_val(&self) -> (r: u8)
        ensures
            r == self.red_spec(),
    {
        self.red
    }

    /// Green channel value.
    pub fn green_val(&self) -> (r: u8)
        ensures
            r == self.green_spec(),
    {
        self.green
    }

    /// Blue channel value.
    pub fn blue_val(&self) -> (r: u8)
        ensures
            r == self.blue_spec(),
    {
        self.blue
    }

    /// Hue in degrees.
    pub fn hue(&self) -> (r: u16)
        ensures
            r == self.hue_spec(),
    {
        self.hue
    }

    /// Saturation percentage.
    pub fn saturation(&self) -> (r: u8)
        ensures
            r == self.saturation_spec(),
    {
        self.saturation
    }

    /// Lightness percentage.
    pub fn lightness(&self) -> (r: u8)
        ensures
            r == self.lightness_spec(),
    {
        self.lightness
    }

    /// Replaces the red channel and re-derives the HSL reading.
    pub fn set_red(&mut self, red: u8)
        ensures
            final(self).red_spec() == red,
            final(self).green_spec() == old(self).green_spec(),
            final(self).blue_spec() == old(self).blue_spec(),
            final(self).hsl_from_rgb(),
    {
        self.red = red;
        let (hue, saturation, lightness) = Self::rgb_to_hsl(self.red, self.green, self.blue);
        self.hue = hue;
        self.saturation = saturation;
        self.lightness = lightness;
    }

    /// Replaces the green channel and re-derives the HSL reading.
    pub fn set_green(&mut self, green: u8)
        ensures
            final(self).red_spec() == old(self).red_spec(),
            final(self).green_spec() == green,
            final(self).blue_spec() == old(self).blue_spec(),
            final(self).hsl_from_rgb(),
    {
        self.green = green;
        let (hue, saturation, lightness) = Self::rgb_to_hsl(self.red, self.green, self.blue);
        self.hue = hue;
        self.saturation = saturation;
        self.lightness = lightness;
    }

    /// Replaces the blue channel and re-derives the HSL reading.
    pub fn set_blue(&mut self, blue: u8)
        ensures
            final(self).red_spec() == old(self).red_spec(),
            final(self).green_spec() == old(self).green_spec(),
            final(self).blue_spec() == blue,
            final(self).hsl_from_rgb(),
    {
        self.blue = blue;
        let (hue, saturation, lightness) = Self::rgb_to_hsl(self.red, self.green, self.blue);
        self.hue = hue;
        self.saturation = saturation;
        self.lightness = lightness;
    }

    /// Replaces the hue and re-derives the RGB channels.
    pub fn set_hue(&mut self, hue: u16)
        ensures
            final(self).hue_spec() == hue,
            final(self).saturation_spec() == old(self).saturation_spec(),
            final(self).lightness_spec() == old(self).lightness_spec(),
            final(self).rgb_from_hsl(),
    {
        self.hue = hue;
        let (red, green, blue) = Self::hsl_to_rgb(self.hue, self.saturation, self.lightness);
        self.red = red;
        self.green = green;
        self.blue = blue;
    }

    /// Replaces the saturation and re-derives the RGB channels.
    pub fn set_saturation(&mut self, saturation: u8)
        ensures
            final(self).hue_spec() == old(self).hue_spec(),
            final(self).saturation_spec() == saturation,
            final(self).lightness_spec() == old(self).lightness_spec(),
            final(self).rgb_from_hsl(),
    {
        self.saturation = saturation;
        let (red, green, blue) = Self::hsl_to_rgb(self.hue, self.saturation, self.lightness);
        self.red = red;
        self.green = green;
        self.blue = blue;
    }

    /// Replaces the lightness and re-derives the RGB channels.
    pub fn set_lightness(&mut self, lightness: u8)
        ensures
            final(self).hue_spec() == old(self).hue_spec(),
            final(self).saturation_spec() == old(self).saturation_spec(),
            final(self).lightness_spec() == lightness,
            final(self).rgb_from_hsl(),
    {
        self.lightness = lightness;
        let (red, green, blue) = Self::hsl_to_rgb(self.hue, self.saturation, self.lightness);
        self.red = red;
        self.green = green;
        self.blue = blue;
    }

    /// Combines two colours by per-channel saturating addition and
    /// re-derives the HSL reading from the summed channels.
    pub fn saturating_add(&self, rhs: &VgaColor) -> (r: VgaColor)
        ensures
            r.red_spec() == saturating_channel(self.red_spec() as int, rhs.red_spec() as int),
            r.green_spec() == saturating_channel(
                self.green_spec() as int,
                rhs.green_spec() as int,
            ),
            r.blue_spec() == saturating_channel(self.blue_spec() as int, rhs.blue_spec() as int),
            r.hsl_from_rgb(),
    {
        let red_sum = self.red as u16 + rhs.red as u16;
        let green_sum = self.green as u16 + rhs.green as u16;
        let blue_sum = self.blue as u16 + rhs.blue as u16;
        Self::new_rgb(
            if red_sum > 255 {
                255
            } else {
                red_sum as u8
            },
            if green_sum > 255 {
                255
            } else {
                green_sum as u8
            },
            if blue_sum > 255 {
                255
            } else {
                blue_sum as u8
            },
        )
    }

    /// The colour's RGB fields agree with the conversion of its HSL fields.
    pub open spec fn rgb_from_hsl(&self) -> bool {
        &&& self.red_spec() == red_of_hsl(
            self.hue_spec() as int,
            self.saturation_spec() as int,
            self.lightness_spec() as int,
        )
        &&& self.green_spec() == green_of_hsl(
            self.hue_spec() as int,
            self.saturation_spec() as int,
            self.lightness_spec() as int,
        )
        &&& self.blue_spec() == blue_of_hsl(
            self.hue_spec() as int,
            self.saturation_spec() as int,
            self.lightness_spec() as int,
        )
    }

    /// The fields a named colour constructor yields for given channels.
    pub open spec fn is_rgb(&self, red: int, green: int, blue: int) -> bool {
        &&& self.red_spec() == red
        &&& self.green_spec() == green
        &&& self.blue_spec() == blue
        &&& self.hsl_from_rgb()
    }
}

impl VgaColor {
    pub fn black() -> (r: Self)
        ensures
            r.is_rgb(0, 0, 0),
    {
        Self::new_rgb(0, 0, 0)
    }

    pub fn dark_red() -> (r: Self)
        ensures
            r.is_rgb(127, 0, 0),
    {
        Self::new_rgb(127, 0, 0)
    }

    pub fn dark_green() -> (r: Self)
        ensures
            r.is_rgb(0, 127, 0),
    {
        Self::new_rgb(0, 127, 0)
    }

    pub fn dark_yellow() -> (r: Self)
        ensures
            r.is_rgb(127, 127, 0),
    {
        Self::new_rgb(127, 127, 0)
    }

    /// Shares `dark_red`'s channels: a quirk of the palette, kept as it is.
    pub fn dark_blue() -> (r: Self)
        ensures
            r.is_rgb(127, 0, 0),
    {
        Self::new_rgb(127, 0, 0)
    }

    pub fn dark_magenta() -> (r: Self)
        ensures
            r.is_rgb(127, 0, 127),
    {
        Self::new_rgb(127, 0, 127)
    }

    pub fn dark_cyan() -> (r: Self)
        ensures
            r.is_rgb(0, 127, 127),
    {
        Self::new_rgb(0, 127, 127)
    }

    pub fn light_gray() -> (r: Self)
        ensures
            r.is_rgb(192, 192, 192),
    {
        Self::new_rgb(192, 192, 192)
    }

    pub fn dark_gray() -> (r: Self)
        ensures
            r.is_rgb(128, 128, 128),
    {
        Self::new_rgb(128, 128, 128)
    }

    pub fn red() -> (r: Self)
        ensures
            r.is_rgb(255, 0, 0),
    {
        Self::new_rgb(255, 0, 0)
    }

    pub fn green() -> (r: Self)
        ensures
            r.is_rgb(0, 255, 0),
    {
        Self::new_rgb(0, 255, 0)
    }

    pub fn yellow() -> (r: Self)
        ensures
            r.is_rgb(255, 255, 0),
    {
        Self::new_rgb(255, 255, 0)
    }

    pub fn blue() -> (r: Self)
        ensures
            r.is_rgb(0, 0, 255),
    {
        Self::new_rgb(0, 0, 255)
    }

    pub fn magenta() -> (r: Self)
        ensures
            r.is_rgb(255, 0, 255),
    {
        Self::new_rgb(255, 0, 255)
    }

    pub fn cyan() -> (r: Self)
        ensures
            r.is_rgb(0, 255, 255),
    {
        Self::new_rgb(0, 255, 255)
    }

    pub fn white() -> (r: Self)
        ensures
            r.is_rgb(255, 255, 255),
    {
        Self::new_rgb(255, 255, 255)
    }
}

} // verus!
