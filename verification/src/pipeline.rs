//! Image pipeline and video backend types: errors, processing options, load
//! progress, and the HTTP loader's URL and retry rules.
use vstd::prelude::*;
use vstd::arithmetic::power2::{pow2, lemma_pow2_strictly_increases};
use crate::image_types::ImageSize;
use crate::text::{chars_of, matches_at, owned, concat};

verus! {

/// Errors that can occur in the image pipeline.
#[derive(Debug, Clone)]
pub enum ImagePipelineError {
    Network(String),
    Decode(String),
    Processing(String),
    Cache(String),
    UrlResolution(String),
    Timeout,
    Cancelled,
}

/// The human-readable message of a pipeline error.
pub open spec fn pipeline_error_text(e: ImagePipelineError) -> Seq<char> {
    match e {
        ImagePipelineError::Network(m) => "Network error: "@ + m@,
        ImagePipelineError::Decode(m) => "Decode error: "@ + m@,
        ImagePipelineError::Processing(m) => "Processing error: "@ + m@,
        ImagePipelineError::Cache(m) => "Cache error: "@ + m@,
        ImagePipelineError::UrlResolution(m) => "URL resolution error: "@ + m@,
        ImagePipelineError::Timeout => "Timeout error"@,
        ImagePipelineError::Cancelled => "Cancelled"@,
    }
}

impl ImagePipelineError {
    /// The error's message.
    pub fn message(&self) -> (r: String)
        ensures
            r@ == pipeline_error_text(*self),
    {
        match self {
            ImagePipelineError::Network(m) => concat("Network error: ", m.as_str()),
            ImagePipelineError::Decode(m) => concat("Decode error: ", m.as_str()),
            ImagePipelineError::Processing(m) => concat("Processing error: ", m.as_str()),
            ImagePipelineError::Cache(m) => concat("Cache error: ", m.as_str()),
            ImagePipelineError::UrlResolution(m) => concat("URL resolution error: ", m.as_str()),
            ImagePipelineError::Timeout => owned("Timeout error"),
            ImagePipelineError::Cancelled => owned("Cancelled"),
        }
    }
}

/// Options for processing images.
#[derive(Debug, Clone, Copy, PartialEq, Eq, Structural)]
pub struct ProcessOptions {
    /// Target size for the processed image.
    pub size: ImageSize,
    /// Generate thumbnail versions.
    pub generate_thumbnail: bool,
    /// Calculate the dominant colour.
    pub calculate_dominant_color: bool,
    /// Maximum file size before re-encoding.
    pub max_file_size: Option<usize>,
    /// JPEG quality for re-encoding (0-100).
    pub jpeg_quality: u8,
}

/// Stages of image loading.
#[derive(Debug, Clone, Copy, PartialEq, Eq, Structural)]
pub enum LoadStage {
    Starting,
    Downloading,
    Decoding,
    Processing,
    Caching,
    Complete,
}

/// Progress information for image loading.
#[derive(Debug, Clone, Copy, PartialEq, Eq, Structural)]
pub struct LoadProgress {
    /// Bytes downloaded so far.
    pub downloaded: u64,
    /// Total bytes to download, if known.
    pub total: Option<u64>,
    /// Current stage.
    pub stage: LoadStage,
}

impl LoadProgress {
    /// An attempt is starting.
    pub fn starting() -> (p: LoadProgress)
        ensures
            p == (LoadProgress { downloaded: 0, total: None, stage: LoadStage::Starting }),
    {
        LoadProgress { downloaded: 0, total: None, stage: LoadStage::Starting }
    }

    /// The response arrived; `total` is its announced length, if any.
    pub fn downloading(total: Option<u64>) -> (p: LoadProgress)
        ensures
            p == (LoadProgress { downloaded: 0, total, stage: LoadStage::Downloading }),
    {
        LoadProgress { downloaded: 0, total, stage: LoadStage::Downloading }
    }

    /// `len` bytes were loaded.
    pub fn complete(len: u64) -> (p: LoadProgress)
        ensures
            p == (LoadProgress { downloaded: len, total: Some(len), stage: LoadStage::Complete }),
    {
        LoadProgress { downloaded: len, total: Some(len), stage: LoadStage::Complete }
    }
}

/// Whether a URL is one the HTTP loader handles.
pub open spec fn http_url(url: Seq<char>) -> bool {
    ("http://"@.len() <= url.len() && url.take("http://"@.len() as int) == "http://"@)
        || ("https://"@.len() <= url.len() && url.take("https://"@.len() as int) == "https://"@)
}

fn has_prefix(v: &Vec<char>, p: &str) -> (b: bool)
    ensures
        b == (p@.len() <= v@.len() && v@.take(p@.len() as int) == p@),
{
    let pv = chars_of(p);
    if pv.len() > v.len() {
        return false;
    }
    let r = matches_at(v, &pv, 0);
    proof {
        assert(v@.subrange(0, pv@.len() as int) == v@.take(p@.len() as int));
    }
    r
}

/// Whether the HTTP loader handles `url`: it starts with `http://` or `https://`.
pub fn supports_url(url: &str) -> (b: bool)
    ensures
        b == http_url(url@),
{
    let v = chars_of(url);
    has_prefix(&v, "http://") || has_prefix(&v, "https://")
}

/// Milliseconds to wait before retry `attempt` (counting from 0) of a load:
/// `100 * 2^attempt`, doubling each time.
pub open spec fn retry_delay(attempt: u32) -> nat {
    100 * pow2(attempt as nat)
}

/// The wait before retry `attempt` of a load (the first attempt waits not).
/// From attempt 58 on the product no longer fits in a `u64`.
pub fn retry_delay_ms(attempt: u32) -> (d: u64)
    requires
        attempt <= 57,
    ensures
        d == retry_delay(attempt),
{
    let mut p: u64 = 1;
    let mut k: u32 = 0;
    proof {
        vstd::arithmetic::power2::lemma2_to64();
        vstd::arithmetic::power2::lemma2_to64_rest();
    }
    while k < attempt
        invariant
            k <= attempt <= 57,
            p == pow2(k as nat),
            pow2(57) == 0x200000000000000,
        decreases attempt - k,
    {
        proof {
            vstd::arithmetic::power2::lemma_pow2_unfold((k + 1) as nat);
            if k + 1 < 57 {
                lemma_pow2_strictly_increases((k + 1) as nat, 57);
            }
        }
        p = p * 2;
        k += 1;
    }
    proof {
        if attempt < 57 {
            lemma_pow2_strictly_increases(attempt as nat, 57);
        }
    }
    100 * p
}

/// What a load does after attempt `attempt` (counting from 0) failed, when it
/// may make `max_retries` attempts in all: wait the returned milliseconds and
/// try again, or give up (`None`).
pub fn after_failed_attempt(attempt: u32, max_retries: u32) -> (next: Option<u64>)
    requires
        max_retries <= 58,
    ensures
        next == (if attempt + 1 < max_retries {
            Some(retry_delay((attempt + 1) as u32) as u64)
        } else {
            None::<u64>
        }),
{
    if attempt < max_retries && attempt + 1 < max_retries {
        Some(retry_delay_ms(attempt + 1))
    } else {
        None
    }
}

/// Whether pixel `j` of an image is sampled for its dominant colour: every
/// tenth pixel, and only when it is mostly opaque (alpha above 128).
pub open spec fn sampled(px: Seq<(u8, u8, u8, u8)>, j: int) -> bool {
    j % 10 == 0 && px[j].3 > 128
}

/// Sums of the red, green and blue channels, and the number, of the sampled
/// pixels among the first `n`.
pub open spec fn channel_sums(px: Seq<(u8, u8, u8, u8)>, n: nat) -> (nat, nat, nat, nat)
    decreases n,
{
    if n == 0 {
        (0, 0, 0, 0)
    } else {
        let prev = channel_sums(px, (n - 1) as nat);
        let j = n - 1;
        if sampled(px, j) {
            (prev.0 + px[j].0 as nat, prev.1 + px[j].1 as nat, prev.2 + px[j].2 as nat, prev.3 + 1)
        } else {
            prev
        }
    }
}

/// The dominant colour of an image given by its RGBA pixels in row order: the
/// average of the sampled pixels, rounded down, or mid grey when none is sampled.
pub open spec fn dominant_color_of(px: Seq<(u8, u8, u8, u8)>) -> (u8, u8, u8) {
    let s = channel_sums(px, px.len());
    if s.3 == 0 {
        (128, 128, 128)
    } else {
        ((s.0 / s.3) as u8, (s.1 / s.3) as u8, (s.2 / s.3) as u8)
    }
}

proof fn lemma_channel_sums_bounded(px: Seq<(u8, u8, u8, u8)>, n: nat)
    requires
        n <= px.len(),
    ensures
        channel_sums(px, n).0 <= 255 * channel_sums(px, n).3,
        channel_sums(px, n).1 <= 255 * channel_sums(px, n).3,
        channel_sums(px, n).2 <= 255 * channel_sums(px, n).3,
        channel_sums(px, n).3 <= n,
    decreases n,
{
    if n > 0 {
        lemma_channel_sums_bounded(px, (n - 1) as nat);
    }
}

proof fn lemma_average_fits(sum: nat, count: nat)
    requires
        count > 0,
        sum <= 255 * count,
    ensures
        sum / count <= 255,
{
    assert(sum / count <= 255) by (nonlinear_arith)
        requires
            count > 0,
            sum <= 255 * count,
    {
        vstd::arithmetic::div_mod::lemma_div_is_ordered(sum as int, 255 * count as int, count as int);
        vstd::arithmetic::div_mod::lemma_div_multiples_vanish(255, count as int);
    }
}

/// The dominant colour of an image from its RGBA pixels (row order): the
/// average colour of every tenth pixel that is mostly opaque, or mid grey
/// when there is none. Beyond 2^56 pixels the channel sums could leave a `u64`.
pub fn dominant_color(pixels: &Vec<(u8, u8, u8, u8)>) -> (c: (u8, u8, u8))
    requires
        pixels@.len() < 0x100000000000000,
    ensures
        c == dominant_color_of(pixels@),
{
    let mut r: u64 = 0;
    let mut g: u64 = 0;
    let mut b: u64 = 0;
    let mut count: u64 = 0;
    let mut i: usize = 0;
    while i < pixels.len()
        invariant
            i <= pixels@.len() < 0x100000000000000,
            (r as nat, g as nat, b as nat, count as nat) == channel_sums(pixels@, i as nat),
        decreases pixels@.len() - i,
    {
        proof {
            lemma_channel_sums_bounded(pixels@, i as nat);
        }
        let p = pixels[i];
        if i % 10 == 0 && p.3 > 128 {
            r = r + p.0 as u64;
            g = g + p.1 as u64;
            b = b + p.2 as u64;
            count = count + 1;
        }
        i += 1;
    }
    proof {
        lemma_channel_sums_bounded(pixels@, pixels@.len());
    }
    if count == 0 {
        (128, 128, 128)
    } else {
        proof {
            lemma_average_fits(r as nat, count as nat);
            lemma_average_fits(g as nat, count as nat);
            lemma_average_fits(b as nat, count as nat);
        }
        ((r / count) as u8, (g / count) as u8, (b / count) as u8)
    }
}

/// Unified error type for video operations.
#[derive(Debug, Clone)]
pub enum VideoError {
    Wayland(String),
    Standard(String),
    Unsupported(String),
}

/// The human-readable message of a video error.
pub open spec fn video_error_text(e: VideoError) -> Seq<char> {
    match e {
        VideoError::Wayland(m) => "Wayland video error: "@ + m@,
        VideoError::Standard(m) => "Standard video error: "@ + m@,
        VideoError::Unsupported(m) => "Unsupported operation: "@ + m@,
    }
}

impl VideoError {
    /// The error's message.
    pub fn message(&self) -> (r: String)
        ensures
            r@ == video_error_text(*self),
    {
        match self {
            VideoError::Wayland(m) => concat("Wayland video error: ", m.as_str()),
            VideoError::Standard(m) => concat("Standard video error: ", m.as_str()),
            VideoError::Unsupported(m) => concat("Unsupported operation: ", m.as_str()),
        }
    }
}

} // verus!
