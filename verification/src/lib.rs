//! Procedural generation of captcha images.
//!
//! The pipeline draws a random alphanumeric code onto a noisy off-white
//! canvas, overlays sinusoidal interference lines and speckle, and finally
//! resamples the canvas through a horizontal wave distortion. All geometry is
//! computed over fixed-point integers; randomness comes from a caller-supplied
//! seedable generator, and glyph coverage masks come in as plain rasters, so
//! that every stage of the pipeline is verified.

use rand::rngs::StdRng;
use vstd::prelude::*;

pub mod background;
pub mod buffer;
pub mod code;
pub mod codec;
pub mod dots;
pub mod lines;
pub mod rng;
pub mod text;
pub mod trig;
pub mod wave;

use crate::background::{background_like, create_background};
use crate::buffer::PixelBuffer;
use crate::code::{alphabet, generate_code};
use crate::codec::{encode_png, png_encoding, CodecError};
use crate::dots::{add_noise_dots, dots_drawn};
use crate::lines::{add_interference_lines, lines_drawn};
use crate::text::{draw_text, text_drawn, ModelFont};
use crate::wave::{add_wave_distortion, wave_drawn};

verus! {

/// Tunables of the pipeline. Dimensions are in pixels, the font size in whole
/// points, the wave amplitude range in tenths of a pixel; `interference_lines`
/// and `wave_amplitude` are half-open (min, max) ranges.
#[derive(Debug)]
pub struct CaptchaConfig {
    pub width: u32,
    pub height: u32,
    pub code_length: usize,
    pub font_size: u32,
    pub interference_lines: (u32, u32),
    pub noise_dots: usize,
    pub wave_amplitude: (u32, u32),
}

/// The stock configuration: 280 x 100 pixels, six characters, a 52-point
/// font, two to four interference lines, a hundred noise dots, and a wave
/// amplitude between 1.5 and 2.5 pixels.
pub open spec fn default_config() -> CaptchaConfig {
    CaptchaConfig {
        width: 280,
        height: 100,
        code_length: 6,
        font_size: 52,
        interference_lines: (2, 4),
        noise_dots: 100,
        wave_amplitude: (15, 25),
    }
}

impl CaptchaConfig {
    /// A configuration the pipeline accepts: a positive canvas whose bytes
    /// fit in one allocation.
    pub open spec fn valid(self) -> bool {
        &&& 1 <= self.width
        &&& 1 <= self.height
        &&& 3 * (self.width as int) * (self.height as int) <= usize::MAX
    }
}

impl Default for CaptchaConfig {
    fn default() -> (c: CaptchaConfig)
        ensures
            c == default_config(),
    {
        CaptchaConfig {
            width: 280,
            height: 100,
            code_length: 6,
            font_size: 52,
            interference_lines: (2, 4),
            noise_dots: 100,
            wave_amplitude: (15, 25),
        }
    }
}

/// A generated captcha: the code text for server-side validation, and the
/// rendered canvas for presentation.
pub struct Captcha {
    pub code: String,
    pub image: PixelBuffer,
}

/// What generation guarantees for a configuration: the code has exactly the
/// configured length and stays within the fixed alphabet, the canvas has
/// exactly the configured dimensions, and the image is the pipeline's
/// composition for that code, configuration and font.
pub open spec fn generated_for(c: Captcha, config: CaptchaConfig, font: ModelFont) -> bool {
    &&& c.code@.len() == config.code_length
    &&& forall|i: int| 0 <= i < c.code@.len() ==> alphabet().contains(#[trigger] c.code@[i])
    &&& c.image.wf()
    &&& c.image.width == config.width
    &&& c.image.height == config.height
    &&& pipeline_applied(c.image, c.code@, config, font)
}

/// Two captchas generated for the same configuration, whatever randomness and
/// font each run used, have identical dimensions.
pub proof fn lemma_dimensions_deterministic(
    a: Captcha,
    b: Captcha,
    config: CaptchaConfig,
    font_a: ModelFont,
    font_b: ModelFont,
)
    requires
        generated_for(a, config, font_a),
        generated_for(b, config, font_b),
    ensures
        a.image.width == b.image.width,
        a.image.height == b.image.height,
{
}

/// The image is the composition the pipeline promises, in its fixed order:
/// some background canvas of the configured dimensions, the code drawn onto
/// it, the interference strokes, the noise dots, and finally one wave
/// resampling of the result.
pub open spec fn pipeline_applied(
    img: PixelBuffer,
    code: Seq<char>,
    config: CaptchaConfig,
    font: ModelFont,
) -> bool {
    exists|after_background: PixelBuffer, after_text: PixelBuffer, after_lines: PixelBuffer, after_dots: PixelBuffer|
        {
            &&& #[trigger] background_like(after_background, config.width, config.height)
            &&& #[trigger] text_drawn(
                after_background,
                after_text,
                font,
                code,
                config.font_size as int,
            )
            &&& #[trigger] lines_drawn(
                after_text,
                after_lines,
                config.interference_lines.0,
                config.interference_lines.1,
            )
            &&& #[trigger] dots_drawn(after_lines, after_dots, config.noise_dots as int)
            &&& wave_drawn(after_dots, img, config.wave_amplitude.0, config.wave_amplitude.1)
        }
}

/// Build the image for a given code: background, text, interference lines,
/// noise dots, then the wave distortion, in that fixed order. Every stage
/// keeps the configured dimensions, and the result is exactly that
/// composition.
pub fn generate_captcha_image(
    code: &str,
    config: &CaptchaConfig,
    font: &ModelFont,
    rng: &mut StdRng,
) -> (img: PixelBuffer)
    requires
        config.valid(),
        font.wf(),
    ensures
        img.wf(),
        img.width == config.width,
        img.height == config.height,
        pipeline_applied(img, code@, *config, *font),
{
    let mut img = create_background(config.width, config.height, rng);
    let ghost after_background = img;
    draw_text(&mut img, code, font, config.font_size, rng);
    let ghost after_text = img;
    add_interference_lines(&mut img, config.interference_lines.0, config.interference_lines.1, rng);
    let ghost after_lines = img;
    add_noise_dots(&mut img, config.noise_dots, rng);
    let ghost after_dots = img;
    let out = add_wave_distortion(&img, config.wave_amplitude.0, config.wave_amplitude.1, rng);
    proof {
        assert(background_like(after_background, config.width, config.height));
        assert(text_drawn(after_background, after_text, *font, code@, config.font_size as int));
        assert(lines_drawn(
            after_text,
            after_lines,
            config.interference_lines.0,
            config.interference_lines.1,
        ));
        assert(dots_drawn(after_lines, after_dots, config.noise_dots as int));
        assert(wave_drawn(after_dots, out, config.wave_amplitude.0, config.wave_amplitude.1));
    }
    out
}

impl Captcha {
    /// Generate a captcha with the default configuration.
    pub fn new(font: &ModelFont, rng: &mut StdRng) -> (c: Captcha)
        requires
            font.wf(),
        ensures
            generated_for(c, default_config(), *font),
    {
        Captcha::with_config(CaptchaConfig::default(), font, rng)
    }

    /// Generate a captcha: a fresh code of the configured length, and the
    /// image built for it.
    pub fn with_config(config: CaptchaConfig, font: &ModelFont, rng: &mut StdRng) -> (c: Captcha)
        requires
            config.valid(),
            font.wf(),
        ensures
            generated_for(c, config, *font),
    {
        let code = generate_code(config.code_length, rng);
        let image = generate_captcha_image(code.as_str(), &config, font, rng);
        Captcha { code, image }
    }

    /// The canvas encoded as PNG bytes. Encoding is the only fallible step,
    /// and it fails exactly on a zero-dimension canvas.
    pub fn to_png_bytes(&self) -> (r: Result<Vec<u8>, CodecError>)
        requires
            self.image.wf(),
        ensures
            r matches Ok(b) ==> b@ == png_encoding(
                self.image.width,
                self.image.height,
                self.image.data@,
            ),
            r is Ok <==> 1 <= self.image.width && 1 <= self.image.height,
    {
        encode_png(&self.image)
    }
}

} // verus!
