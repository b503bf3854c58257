//! Image analysis: which images a platform turn may show to a vision
//! model, the per-turn budget of context-image fetches, calls and bytes,
//! the caches that make one image cost one fetch, and the small formats
//! (print sizes, data URLs, MIME types) around them.
//!
//! The model calls, downloads and files are the host's.

use vstd::prelude::*;
use crate::codec::{base64_standard_encode, encode_base64};
use crate::hashing::{hex_encode, hex_lower, sha256, sha256_of};
use crate::lookup::{first_index, lemma_first_index, lemma_first_index_bounds, lemma_first_index_push};
use crate::path::{extension, extension_of, same_path, same_path_exec};
use crate::text::{
    chars_of, copy_vec, decimal, has_prefix, lower_ascii, lower_chars, push_all, push_range,
    push_str, str_eq, string_of, trim, trim_bounds, u64_decimal,
};

verus! {

/// Largest image, in bytes, that is read, downloaded or fetched.
pub const MAX_IMAGE_BYTES: usize = 10485760;

/// Context images one platform turn may fetch.
pub const MAX_SCOPED_CONTEXT_FETCHES: usize = 4;

/// Bytes of context images one platform turn may hold.
pub const MAX_SCOPED_TOTAL_BYTES: usize = 20971520;

/// `vision_analyze` calls one platform turn may make.
pub const MAX_SCOPED_VISION_CALLS: usize = 6;

/// The instruction used when the caller gives none.
pub const DEFAULT_ANALYSIS_PROMPT: &'static str = "请简洁描述这张图片，并指出重要细节。";

// ---------------------------------------------------------------------
// Print sizes

/// The print size the caller asked for: width and height are capped at
/// 300 and 200 cells; with neither given, the trimmed `size` text, if any.
pub open spec fn requested_print_size_spec(width: u64, height: u64, size: Option<Seq<char>>) -> Option<
    Seq<char>,
> {
    let w: nat = if width > 300 {
        300
    } else {
        width as nat
    };
    let h: nat = if height > 200 {
        200
    } else {
        height as nat
    };
    if w == 0 && h == 0 {
        match size {
            Some(s) => if trim(s).len() > 0 {
                Some(trim(s))
            } else {
                None
            },
            None => None,
        }
    } else if h == 0 {
        Some(decimal(w) + seq!['x'])
    } else if w == 0 {
        Some(seq!['x'] + decimal(h))
    } else {
        Some(decimal(w) + seq!['x'] + decimal(h))
    }
}

/// The explicit print size of a `print_image` call (absent width or height
/// count as 0).
pub fn requested_print_size(width: u64, height: u64, size: Option<&str>) -> (r: Option<String>)
    ensures
        match r {
            Some(s) => requested_print_size_spec(width, height, match size {
                Some(t) => Some(t@),
                None => None,
            }) == Some(s@),
            None => requested_print_size_spec(width, height, match size {
                Some(t) => Some(t@),
                None => None,
            }) is None,
        },
{
    let w: u64 = if width > 300 {
        300
    } else {
        width
    };
    let h: u64 = if height > 200 {
        200
    } else {
        height
    };
    if w == 0 && h == 0 {
        match size {
            Some(s) => {
                let v = chars_of(s);
                let (lo, hi) = trim_bounds(&v, 0, v.len());
                assert(v@.subrange(0, v@.len() as int) =~= v@);
                if lo == hi {
                    None
                } else {
                    let mut out: Vec<char> = Vec::new();
                    push_range(&mut out, &v, lo, hi);
                    Some(string_of(&out))
                }
            },
            None => None,
        }
    } else {
        let mut out: Vec<char> = Vec::new();
        if w > 0 {
            let d = u64_decimal(w);
            push_all(&mut out, &d);
        }
        out.push('x');
        if h > 0 {
            let d = u64_decimal(h);
            push_all(&mut out, &d);
        }
        proof {
            if h == 0 {
                assert(out@ =~= decimal(w as nat) + seq!['x']);
            } else if w == 0 {
                assert(out@ =~= seq!['x'] + decimal(h as nat));
            } else {
                assert(out@ =~= decimal(w as nat) + seq!['x'] + decimal(h as nat));
            }
        }
        Some(string_of(&out))
    }
}

/// The configured print size for a terminal of `cols` x `rows` cells: the
/// configured percentages of each, at least 1 and at most 300 x 200.
pub open spec fn configured_print_size_spec(
    cols: u16,
    rows: u16,
    width_percent: u16,
    height_percent: u16,
) -> Seq<char> {
    let w0 = (cols as nat * width_percent as nat) / 100;
    let h0 = (rows as nat * height_percent as nat) / 100;
    let w: nat = if w0 < 1 {
        1
    } else if w0 > 300 {
        300
    } else {
        w0
    };
    let h: nat = if h0 < 1 {
        1
    } else if h0 > 200 {
        200
    } else {
        h0
    };
    decimal(w) + seq!['x'] + decimal(h)
}

/// The print size from the configured percentages of the terminal.
pub fn configured_print_size(cols: u16, rows: u16, width_percent: u16, height_percent: u16) -> (r:
    String)
    ensures
        r@ == configured_print_size_spec(cols, rows, width_percent, height_percent),
{
    assert(cols as u64 * width_percent as u64 <= 65535 * 65535) by (nonlinear_arith);
    assert(rows as u64 * height_percent as u64 <= 65535 * 65535) by (nonlinear_arith);
    let w0: u64 = (cols as u64 * width_percent as u64) / 100;
    let h0: u64 = (rows as u64 * height_percent as u64) / 100;
    let w: u64 = if w0 < 1 {
        1
    } else if w0 > 300 {
        300
    } else {
        w0
    };
    let h: u64 = if h0 < 1 {
        1
    } else if h0 > 200 {
        200
    } else {
        h0
    };
    let mut out = u64_decimal(w);
    out.push('x');
    let d = u64_decimal(h);
    push_all(&mut out, &d);
    assert(out@ =~= decimal(w as nat) + seq!['x'] + decimal(h as nat));
    string_of(&out)
}

// ---------------------------------------------------------------------
// MIME types and data URLs

/// The MIME type for an image file extension (compared lower-cased).
pub open spec fn image_mime_for(ext: Seq<char>) -> Option<Seq<char>> {
    let e = lower_chars(ext);
    if e == "jpg"@ || e == "jpeg"@ {
        Some("image/jpeg"@)
    } else if e == "png"@ {
        Some("image/png"@)
    } else if e == "webp"@ {
        Some("image/webp"@)
    } else if e == "gif"@ {
        Some("image/gif"@)
    } else {
        None
    }
}

/// The extension of a path, lower-cased, or empty.
pub open spec fn path_extension_lower(path: Seq<char>) -> Seq<char> {
    match extension_of(path) {
        Some(e) => lower_chars(e),
        None => Seq::empty(),
    }
}

/// The error for an image path whose extension is not supported.
pub open spec fn unsupported_extension_message(ext: Seq<char>) -> Seq<char> {
    "unsupported image extension: "@ + ext + "; supported: jpg, jpeg, png, webp, gif"@
}

/// The MIME type of an image file by its extension, or the error naming
/// the (lower-cased) extension that is not supported.
pub fn mime_from_path(path: &str) -> (r: Result<String, String>)
    ensures
        match image_mime_for(path_extension_lower(path@)) {
            Some(m) => r == Ok::<String, String>(r->Ok_0) && r->Ok_0@ == m,
            None => r is Err && r->Err_0@ == unsupported_extension_message(
                path_extension_lower(path@),
            ),
        },
{
    let ext: Vec<char> = match extension(path) {
        Some(e) => lower_ascii(&e),
        None => Vec::new(),
    };
    assert(ext@ == path_extension_lower(path@));
    assert(lower_chars(ext@) =~= ext@);
    let s = string_of(&ext);
    let e = s.as_str();
    if str_eq(e, "jpg") || str_eq(e, "jpeg") {
        Ok(string_of(&chars_of("image/jpeg")))
    } else if str_eq(e, "png") {
        Ok(string_of(&chars_of("image/png")))
    } else if str_eq(e, "webp") {
        Ok(string_of(&chars_of("image/webp")))
    } else if str_eq(e, "gif") {
        Ok(string_of(&chars_of("image/gif")))
    } else {
        let mut m: Vec<char> = Vec::new();
        push_str(&mut m, "unsupported image extension: ");
        push_all(&mut m, &ext);
        push_str(&mut m, "; supported: jpg, jpeg, png, webp, gif");
        Err(string_of(&m))
    }
}

/// A `data:` URL carrying `data` as base64 under `mime`.
pub open spec fn image_data_url_spec(mime: Seq<char>, data: Seq<u8>) -> Seq<char> {
    "data:"@ + mime + ";base64,"@ + base64_standard_encode(data)
}

/// The `data:` URL of an image.
pub fn image_data_url(mime: &str, data: &Vec<u8>) -> (r: String)
    ensures
        r@ == image_data_url_spec(mime@, data@),
{
    let encoded = encode_base64(data);
    let mut v: Vec<char> = Vec::new();
    push_str(&mut v, "data:");
    push_str(&mut v, mime);
    push_str(&mut v, ";base64,");
    push_str(&mut v, encoded.as_str());
    string_of(&v)
}

/// The `data:` URL of a local image file read as `bytes`, typed by the
/// file's extension; the extension error when it is not an image's.
pub fn local_image_data_url(path: &str, bytes: &Vec<u8>) -> (r: Result<String, String>)
    ensures
        match image_mime_for(path_extension_lower(path@)) {
            Some(m) => r is Ok && r->Ok_0@ == image_data_url_spec(m, bytes@),
            None => r is Err && r->Err_0@ == unsupported_extension_message(
                path_extension_lower(path@),
            ),
        },
{
    match mime_from_path(path) {
        Ok(m) => Ok(image_data_url(m.as_str(), bytes)),
        Err(e) => Err(e),
    }
}

/// The image MIME type of a download: the media type of `Content-Type`
/// before any parameters, trimmed, when it is an `image/` type, else
/// `image/png`.
pub open spec fn download_mime_spec(content_type: Option<Seq<char>>) -> Seq<char> {
    match content_type {
        Some(v) => {
            let k = crate::text::find_from(v, seq![';'], 0);
            let media = if k >= 0 {
                v.take(k)
            } else {
                v
            };
            if has_prefix(trim(media), "image/"@) {
                trim(media)
            } else {
                "image/png"@
            }
        },
        None => "image/png"@,
    }
}

/// The MIME type of a downloaded reference image.
pub fn download_mime(content_type: Option<&str>) -> (r: String)
    ensures
        r@ == download_mime_spec(match content_type {
            Some(t) => Some(t@),
            None => None,
        }),
{
    match content_type {
        None => string_of(&chars_of("image/png")),
        Some(value) => {
            let v = chars_of(value);
            let semi = chars_of(";");
            proof {
                reveal_strlit(";");
            }
            assert(semi@ =~= seq![';']);
            let end: usize = match crate::text::find_chars(&v, &semi, 0) {
                Some(k) => k,
                None => v.len(),
            };
            proof {
                crate::text::lemma_find_from(v@, seq![';'], 0);
                if crate::text::find_from(v@, seq![';'], 0) < 0 {
                    assert(v@.take(v@.len() as int) =~= v@);
                }
            }
            let (lo, hi) = trim_bounds(&v, 0, end);
            assert(v@.subrange(0, end as int) =~= v@.take(end as int));
            let mut t: Vec<char> = Vec::new();
            push_range(&mut t, &v, lo, hi);
            let prefix = chars_of("image/");
            if crate::text::has_prefix_in(&t, 0, t.len(), &prefix) {
                assert(t@.subrange(0, t@.len() as int) =~= t@);
                string_of(&t)
            } else {
                assert(t@.subrange(0, t@.len() as int) =~= t@);
                string_of(&chars_of("image/png"))
            }
        },
    }
}

/// Whether a reference names an `http://` or `https://` resource.
pub open spec fn is_remote_spec(s: Seq<char>) -> bool {
    has_prefix(s, "http://"@) || has_prefix(s, "https://"@)
}

pub fn is_remote(s: &str) -> (r: bool)
    ensures
        r == is_remote_spec(s@),
{
    let v = chars_of(s);
    let a = chars_of("http://");
    let b = chars_of("https://");
    assert(v@.subrange(0, v@.len() as int) =~= v@);
    crate::text::has_prefix_in(&v, 0, v.len(), &a) || crate::text::has_prefix_in(
        &v,
        0,
        v.len(),
        &b,
    )
}

/// The analysis instruction: the given prompt, trimmed, unless it is
/// missing or blank.
pub open spec fn analysis_prompt_spec(prompt: Option<Seq<char>>) -> Seq<char> {
    match prompt {
        Some(p) => if trim(p).len() > 0 {
            trim(p)
        } else {
            DEFAULT_ANALYSIS_PROMPT@
        },
        None => DEFAULT_ANALYSIS_PROMPT@,
    }
}

/// How long a vision model call may take: the configured seconds, at
/// least one.
pub fn image_timeout_seconds(timeout_seconds: u64) -> (r: u64)
    ensures
        r == if timeout_seconds < 1 {
            1
        } else {
            timeout_seconds
        },
{
    if timeout_seconds < 1 {
        1
    } else {
        timeout_seconds
    }
}

/// The error of a vision model call that ran out of time.
pub fn image_timeout_message(timeout_seconds: u64) -> (r: String)
    ensures
        r@ == "vision model pool timed out after "@ + decimal(
            (if timeout_seconds < 1 {
                1
            } else {
                timeout_seconds
            }) as nat,
        ) + " seconds"@,
{
    let mut v = chars_of("vision model pool timed out after ");
    let n = u64_decimal(image_timeout_seconds(timeout_seconds));
    push_all(&mut v, &n);
    push_str(&mut v, " seconds");
    string_of(&v)
}

pub fn analysis_prompt(prompt: Option<&str>) -> (r: String)
    ensures
        r@ == analysis_prompt_spec(match prompt {
            Some(p) => Some(p@),
            None => None,
        }),
{
    match prompt {
        Some(p) => {
            let v = chars_of(p);
            let (lo, hi) = trim_bounds(&v, 0, v.len());
            assert(v@.subrange(0, v@.len() as int) =~= v@);
            if lo < hi {
                let mut out: Vec<char> = Vec::new();
                push_range(&mut out, &v, lo, hi);
                return string_of(&out);
            }
        },
        None => {},
    }
    string_of(&chars_of(DEFAULT_ANALYSIS_PROMPT))
}

/// Where an unscoped `vision_analyze` call takes its image from.
pub enum ImageSource {
    /// The trimmed `http(s)` URL, handed to the model as it is.
    Url(String),
    /// A local path (trimmed), to be read and sent as a data URL.
    Local(String),
}

/// Why an analysis or a reference image is refused.
#[derive(PartialEq, Eq, Structural, Debug, Clone, Copy)]
pub enum VisionError {
    /// The vision plugin is switched off.
    Disabled,
    /// No image was named.
    ImageRequired,
    /// The turn has used up its `vision_analyze` calls.
    CallLimit,
    /// A URL that is neither attached to the turn nor a trusted avatar.
    NotInTurn,
    /// A local path that is not among the turn's images.
    NotAttached,
    /// A context image id the turn does not list.
    UnknownContextImage,
    /// The turn has no platform to fetch context images from.
    LookupUnavailable,
    /// The turn has used up its context-image fetches.
    FetchLimit,
    /// The platform could not return the message holding the image.
    LookupFailed,
    /// The message no longer holds the image.
    NoLongerAvailable,
    /// The fetched image is larger than `MAX_IMAGE_BYTES`; its size.
    TooLarge(usize),
    /// The turn's context images would exceed `MAX_SCOPED_TOTAL_BYTES`.
    ByteLimit,
    /// The fetched image could not be written to the cache.
    CacheFailed,
    /// An empty reference image.
    ReferenceEmpty,
    /// A reference URL that is neither attached nor a trusted avatar.
    ReferenceNotInTurn,
    /// A reference path that is not among the turn's images.
    ReferenceNotAttached,
}

/// The image source of an unscoped analysis, or why there is none.
pub fn analysis_source(enabled: bool, image: &str) -> (r: Result<ImageSource, VisionError>)
    ensures
        !enabled ==> r == Err::<ImageSource, VisionError>(VisionError::Disabled),
        enabled && trim(image@).len() == 0 ==> r == Err::<ImageSource, VisionError>(
            VisionError::ImageRequired,
        ),
        enabled && trim(image@).len() > 0 ==> match r {
            Ok(ImageSource::Url(u)) => is_remote_spec(trim(image@)) && u@ == trim(image@),
            Ok(ImageSource::Local(p)) => !is_remote_spec(trim(image@)) && p@ == trim(image@),
            Err(_) => false,
        },
{
    if !enabled {
        return Err(VisionError::Disabled);
    }
    let t = trimmed(image);
    if t.as_str().is_empty() {
        return Err(VisionError::ImageRequired);
    }
    if is_remote(t.as_str()) {
        Ok(ImageSource::Url(t))
    } else {
        Ok(ImageSource::Local(t))
    }
}

fn trimmed(s: &str) -> (r: String)
    ensures
        r@ == trim(s@),
{
    let v = chars_of(s);
    let (lo, hi) = trim_bounds(&v, 0, v.len());
    assert(v@.subrange(0, v@.len() as int) =~= v@);
    let mut out: Vec<char> = Vec::new();
    push_range(&mut out, &v, lo, hi);
    string_of(&out)
}

// ---------------------------------------------------------------------
// Model choice

/// One provider/model pair of a pool, and whether the model takes image
/// input.
pub struct ModelChoice {
    pub provider_id: String,
    pub model: String,
    pub accepts_images: bool,
}

pub open spec fn choice_view(c: ModelChoice) -> (Seq<char>, Seq<char>, bool) {
    (c.provider_id@, c.model@, c.accepts_images)
}

pub open spec fn choices_view(v: Seq<ModelChoice>) -> Seq<(Seq<char>, Seq<char>, bool)> {
    Seq::new(v.len(), |i: int| choice_view(v[i]))
}

fn copy_choice(c: &ModelChoice) -> (r: ModelChoice)
    ensures
        choice_view(r) == choice_view(*c),
{
    ModelChoice {
        provider_id: string_of(&chars_of(c.provider_id.as_str())),
        model: string_of(&chars_of(c.model.as_str())),
        accepts_images: c.accepts_images,
    }
}

/// Whether every model of a non-empty pool takes images.
pub open spec fn pool_sees(pool: Seq<(Seq<char>, Seq<char>, bool)>) -> bool {
    pool.len() > 0 && forall|i: int| 0 <= i < pool.len() ==> #[trigger] pool[i].2
}

fn all_accept_images(pool: &Vec<ModelChoice>) -> (r: bool)
    ensures
        r == pool_sees(choices_view(pool@)),
{
    if pool.len() == 0 {
        return false;
    }
    let mut i: usize = 0;
    while i < pool.len()
        invariant
            i <= pool@.len(),
            forall|k: int| 0 <= k < i ==> #[trigger] pool@[k].accepts_images,
        decreases pool.len() - i,
    {
        if !pool[i].accepts_images {
            assert(!choices_view(pool@)[i as int].2);
            return false;
        }
        i = i + 1;
    }
    assert forall|k: int| 0 <= k < choices_view(pool@).len() implies #[trigger] choices_view(
        pool@,
    )[k].2 by {
        assert(pool@[k].accepts_images);
    }
    true
}

/// The active text pool, when the current model is preferred for images
/// and every model of the (non-empty) pool takes images: a pool is load
/// balanced, so one blind model would make some calls fail.
pub fn active_text_pool_for_vision(prefer_current: bool, pool: Vec<ModelChoice>) -> (r: Option<
    Vec<ModelChoice>,
>)
    ensures
        match r {
            Some(p) => prefer_current && pool_sees(choices_view(pool@)) && choices_view(p@)
                == choices_view(pool@),
            None => !(prefer_current && pool_sees(choices_view(pool@))),
        },
{
    if !prefer_current {
        return None;
    }
    if all_accept_images(&pool) {
        Some(pool)
    } else {
        None
    }
}

/// The models a `vision_analyze` call goes to.
pub enum VisionProvider {
    /// The active text pool, which can see.
    TextPool(Vec<ModelChoice>),
    /// The active multimodal pool, its image-capable models only.
    MultimodalPool(Vec<ModelChoice>),
    /// The configured vision provider.
    Configured,
}

/// The image-capable choices of `pool`, in order.
pub open spec fn image_capable(pool: Seq<(Seq<char>, Seq<char>, bool)>) -> Seq<
    (Seq<char>, Seq<char>, bool),
>
    decreases pool.len(),
{
    if pool.len() == 0 {
        pool
    } else {
        let rest = image_capable(pool.drop_last());
        if pool.last().2 {
            rest.push(pool.last())
        } else {
            rest
        }
    }
}

/// Which models analyse images. An explicit vision provider keeps
/// precedence; without one, the active text pool where it can see, else
/// the image-capable part of the multimodal pool where there is one, else
/// the configured vision provider.
pub fn vision_provider(
    explicit_provider_id: &str,
    prefer_current: bool,
    text_pool: Vec<ModelChoice>,
    multimodal_pool: Vec<ModelChoice>,
) -> (r: VisionProvider)
    ensures
        trim(explicit_provider_id@).len() > 0 ==> r is Configured,
        trim(explicit_provider_id@).len() == 0 ==> {
            if prefer_current && pool_sees(choices_view(text_pool@)) {
                r matches VisionProvider::TextPool(p) && choices_view(p@) == choices_view(
                    text_pool@,
                )
            } else if image_capable(choices_view(multimodal_pool@)).len() > 0 {
                r matches VisionProvider::MultimodalPool(p) && choices_view(p@) == image_capable(
                    choices_view(multimodal_pool@),
                )
            } else {
                r is Configured
            }
        },
{
    let e = trimmed(explicit_provider_id);
    if !e.as_str().is_empty() {
        return VisionProvider::Configured;
    }
    if let Some(p) = active_text_pool_for_vision(prefer_current, text_pool) {
        return VisionProvider::TextPool(p);
    }
    let mut chosen: Vec<ModelChoice> = Vec::new();
    let mut i: usize = 0;
    while i < multimodal_pool.len()
        invariant
            i <= multimodal_pool@.len(),
            choices_view(chosen@) == image_capable(choices_view(multimodal_pool@).take(i as int)),
        decreases multimodal_pool.len() - i,
    {
        let ghost before = choices_view(chosen@);
        proof {
            let m = choices_view(multimodal_pool@);
            assert(m.take(i as int + 1).drop_last() =~= m.take(i as int));
            assert(m.take(i as int + 1).last() == m[i as int]);
            assert(image_capable(m.take(i as int + 1)) == if m[i as int].2 {
                image_capable(m.take(i as int)).push(m[i as int])
            } else {
                image_capable(m.take(i as int))
            });
        }
        if multimodal_pool[i].accepts_images {
            let c = copy_choice(&multimodal_pool[i]);
            chosen.push(c);
            assert(choices_view(chosen@) =~= before.push(choice_view(multimodal_pool@[i as int])));
        } else {
            assert(choices_view(chosen@) =~= before);
        }
        i = i + 1;
    }
    assert(choices_view(multimodal_pool@).take(multimodal_pool@.len() as int) =~= choices_view(
        multimodal_pool@,
    ));
    if chosen.len() > 0 {
        VisionProvider::MultimodalPool(chosen)
    } else {
        VisionProvider::Configured
    }
}

// ---------------------------------------------------------------------
// Scoped analysis for platform turns

/// An image listed in the turn's chat history: its id (`context_image_N`),
/// the message that holds it and its 1-based position there.
pub struct ContextImageRef {
    pub id: String,
    pub message_id: String,
    pub image_index: usize,
}

/// Image bytes with their MIME type.
pub struct ImageData {
    pub mime: String,
    pub data: Vec<u8>,
}

/// A context image made ready for analysis: its bytes, their hex SHA-256
/// digest, and the cache file they were written to.
pub struct ResolvedContextImage {
    pub mime: String,
    pub data: Vec<u8>,
    pub digest: String,
    pub cache_path: String,
}

pub open spec fn resolved_view(r: ResolvedContextImage) -> (Seq<char>, Seq<u8>, Seq<char>, Seq<char>) {
    (r.mime@, r.data@, r.digest@, r.cache_path@)
}

fn copy_string(s: &String) -> (r: String)
    ensures
        r@ == s@,
{
    string_of(&chars_of(s.as_str()))
}

fn copy_resolved(r: &ResolvedContextImage) -> (c: ResolvedContextImage)
    ensures
        resolved_view(c) == resolved_view(*r),
{
    ResolvedContextImage {
        mime: copy_string(&r.mime),
        data: copy_vec(&r.data),
        digest: copy_string(&r.digest),
        cache_path: copy_string(&r.cache_path),
    }
}

/// The hex SHA-256 digest that names an image's content.
pub open spec fn content_digest(data: Seq<u8>) -> Seq<char> {
    hex_lower(sha256_of(data))
}

/// Where a scoped `vision_analyze` call takes its image from.
pub enum ScopedImage {
    /// A context image of the turn, by id.
    Context(String),
    /// Any image, as an unscoped call would take it (trimmed reference).
    General(String),
    /// A local path (trimmed) that must resolve to one of the turn's images.
    Local(String),
}

/// Where a reference image for generation comes from.
pub enum ReferenceSource {
    /// A context image of the turn, by id.
    Context(String),
    /// An `http(s)` URL to download.
    Download(String),
    /// A local path to read.
    File(String),
    /// A local path that must resolve to one of the turn's images.
    AttachedFile(String),
}

/// The next step of making a context image ready.
pub enum ResolveStep {
    /// Already resolved in this turn.
    Ready(ResolvedContextImage),
    /// Fetch the images of this message from the platform.
    Fetch { message_id: String, image_index: usize },
    /// Refused.
    Failed(VisionError),
}

/// What a fetched message's images amount to.
pub enum FetchStep {
    /// The same content was resolved before under another id.
    Ready(ResolvedContextImage),
    /// New content: write `image` to the cache under `digest`.
    Store { image: ImageData, digest: String },
    /// Refused.
    Failed(VisionError),
}

/// The images one platform turn may analyse, and what it has spent.
pub struct ScopedVisionState {
    allowed_paths: Vec<String>,
    context_images: Vec<ContextImageRef>,
    has_platform_context: bool,
    allow_general_access: bool,
    resolved_ids: Vec<String>,
    resolved: Vec<ResolvedContextImage>,
    content: Vec<ResolvedContextImage>,
    analysis_keys: Vec<(String, String)>,
    analysis_results: Vec<String>,
    calls: usize,
    fetches: usize,
    total_bytes: usize,
}

impl ScopedVisionState {
    /// Parallel tables line up and the budgets hold.
    pub closed spec fn wf(self) -> bool {
        &&& self.resolved_ids@.len() == self.resolved@.len()
        &&& self.analysis_keys@.len() == self.analysis_results@.len()
        &&& self.fetches <= MAX_SCOPED_CONTEXT_FETCHES
        &&& self.total_bytes <= MAX_SCOPED_TOTAL_BYTES
    }

    pub closed spec fn calls(self) -> nat {
        self.calls as nat
    }

    pub closed spec fn fetches(self) -> nat {
        self.fetches as nat
    }

    pub closed spec fn total_bytes(self) -> nat {
        self.total_bytes as nat
    }

    pub closed spec fn general_access(self) -> bool {
        self.allow_general_access
    }

    pub closed spec fn platform_lookup(self) -> bool {
        self.has_platform_context
    }

    /// The paths of the turn's own images.
    pub closed spec fn allowed(self) -> Seq<Seq<char>> {
        Seq::new(self.allowed_paths@.len(), |i: int| self.allowed_paths@[i]@)
    }

    closed spec fn context_ids(self) -> Seq<Seq<char>> {
        Seq::new(self.context_images@.len(), |i: int| self.context_images@[i].id@)
    }

    /// The message and position of a listed context image.
    pub closed spec fn context_ref_of(self, id: Seq<char>) -> Option<(Seq<char>, usize)> {
        let k = first_index(self.context_ids(), id);
        if k < self.context_images@.len() {
            Some((self.context_images@[k].message_id@, self.context_images@[k].image_index))
        } else {
            None
        }
    }

    closed spec fn resolved_keys(self) -> Seq<Seq<char>> {
        Seq::new(self.resolved_ids@.len(), |i: int| self.resolved_ids@[i]@)
    }

    /// The image an id was resolved to in this turn.
    pub closed spec fn resolved_of(self, id: Seq<char>) -> Option<
        (Seq<char>, Seq<u8>, Seq<char>, Seq<char>),
    > {
        let k = first_index(self.resolved_keys(), id);
        if k < self.resolved@.len() {
            Some(resolved_view(self.resolved@[k]))
        } else {
            None
        }
    }

    closed spec fn content_keys(self) -> Seq<Seq<char>> {
        Seq::new(self.content@.len(), |i: int| self.content@[i].digest@)
    }

    /// The image resolved in this turn with content `digest`.
    pub closed spec fn content_of(self, digest: Seq<char>) -> Option<
        (Seq<char>, Seq<u8>, Seq<char>, Seq<char>),
    > {
        let k = first_index(self.content_keys(), digest);
        if k < self.content@.len() {
            Some(resolved_view(self.content@[k]))
        } else {
            None
        }
    }

    closed spec fn analysis_index(self) -> Seq<(Seq<char>, Seq<char>)> {
        Seq::new(self.analysis_keys@.len(), |i: int| (self.analysis_keys@[i].0@, self.analysis_keys@[i].1@))
    }

    /// The analysis already made of content `digest` under `prompt`.
    pub closed spec fn analysis_of(self, digest: Seq<char>, prompt: Seq<char>) -> Option<Seq<char>> {
        let k = first_index(self.analysis_index(), (digest, prompt));
        if k < self.analysis_results@.len() {
            Some(self.analysis_results@[k]@)
        } else {
            None
        }
    }

    /// The same turn scope, with only what `other` may differ in set aside.
    pub open spec fn same_scope(self, other: Self) -> bool {
        &&& self.allowed() == other.allowed()
        &&& forall|id: Seq<char>| #[trigger] self.context_ref_of(id) == other.context_ref_of(id)
        &&& self.general_access() == other.general_access()
        &&& self.platform_lookup() == other.platform_lookup()
    }

    /// Same caches.
    pub open spec fn same_caches(self, other: Self) -> bool {
        &&& forall|id: Seq<char>| #[trigger] self.resolved_of(id) == other.resolved_of(id)
        &&& forall|d: Seq<char>| #[trigger] self.content_of(d) == other.content_of(d)
        &&& forall|d: Seq<char>, p: Seq<char>| #[trigger]
            self.analysis_of(d, p) == other.analysis_of(d, p)
    }

    /// A scope over the turn's attached image paths and listed context
    /// images, with nothing spent.
    pub fn new(
        allowed_paths: Vec<String>,
        context_images: Vec<ContextImageRef>,
        has_platform_context: bool,
        allow_general_access: bool,
    ) -> (r: Self)
        ensures
            r.wf(),
            r.allowed() == Seq::new(allowed_paths@.len(), |i: int| allowed_paths@[i]@),
            forall|id: Seq<char>| #[trigger] r.context_ref_of(id) == {
                let ids = Seq::new(context_images@.len(), |i: int| context_images@[i].id@);
                let k = first_index(ids, id);
                if k < context_images@.len() {
                    Some((context_images@[k].message_id@, context_images@[k].image_index))
                } else {
                    None
                }
            },
            r.platform_lookup() == has_platform_context,
            r.general_access() == allow_general_access,
            r.calls() == 0,
            r.fetches() == 0,
            r.total_bytes() == 0,
            forall|id: Seq<char>| #[trigger] r.resolved_of(id) is None,
            forall|d: Seq<char>| #[trigger] r.content_of(d) is None,
            forall|d: Seq<char>, p: Seq<char>| #[trigger] r.analysis_of(d, p) is None,
    {
        let r = ScopedVisionState {
            allowed_paths,
            context_images,
            has_platform_context,
            allow_general_access,
            resolved_ids: Vec::new(),
            resolved: Vec::new(),
            content: Vec::new(),
            analysis_keys: Vec::new(),
            analysis_results: Vec::new(),
            calls: 0,
            fetches: 0,
            total_bytes: 0,
        };
        proof {
            assert forall|id: Seq<char>| #[trigger] r.resolved_of(id) is None by {
                lemma_first_index_bounds(r.resolved_keys(), id);
            }
            assert forall|d: Seq<char>| #[trigger] r.content_of(d) is None by {
                lemma_first_index_bounds(r.content_keys(), d);
            }
            assert forall|d: Seq<char>, p: Seq<char>| #[trigger] r.analysis_of(d, p) is None by {
                lemma_first_index_bounds(r.analysis_index(), (d, p));
            }
        }
        r
    }

    /// `vision_analyze` calls counted so far.
    pub fn calls_made(&self) -> (r: usize)
        ensures
            r == self.calls(),
    {
        self.calls
    }

    /// Context-image fetches counted so far.
    pub fn fetches_made(&self) -> (r: usize)
        ensures
            r == self.fetches(),
    {
        self.fetches
    }

    /// Bytes of context images held so far.
    pub fn bytes_held(&self) -> (r: usize)
        ensures
            r == self.total_bytes(),
    {
        self.total_bytes
    }

    fn find_context(&self, id: &str) -> (r: Option<usize>)
        ensures
            match r {
                Some(k) => k < self.context_images@.len() && first_index(self.context_ids(), id@)
                    == k,
                None => first_index(self.context_ids(), id@) == self.context_images@.len(),
            },
    {
        let n = self.context_images.len();
        let mut i: usize = 0;
        while i < n
            invariant
                n == self.context_images@.len(),
                i <= n,
                forall|k: int| 0 <= k < i ==> self.context_ids()[k] != id@,
            decreases n - i,
        {
            if str_eq(self.context_images[i].id.as_str(), id) {
                proof {
                    lemma_first_index(self.context_ids(), id@, i as int);
                }
                return Some(i);
            }
            i = i + 1;
        }
        proof {
            lemma_first_index(self.context_ids(), id@, n as int);
        }
        None
    }

    fn find_resolved(&self, id: &str) -> (r: Option<usize>)
        requires
            self.wf(),
        ensures
            match r {
                Some(k) => k < self.resolved@.len() && first_index(self.resolved_keys(), id@) == k,
                None => first_index(self.resolved_keys(), id@) == self.resolved@.len(),
            },
    {
        let n = self.resolved_ids.len();
        let mut i: usize = 0;
        while i < n
            invariant
                n == self.resolved_ids@.len(),
                self.wf(),
                i <= n,
                forall|k: int| 0 <= k < i ==> self.resolved_keys()[k] != id@,
            decreases n - i,
        {
            if str_eq(self.resolved_ids[i].as_str(), id) {
                proof {
                    lemma_first_index(self.resolved_keys(), id@, i as int);
                }
                return Some(i);
            }
            i = i + 1;
        }
        proof {
            lemma_first_index(self.resolved_keys(), id@, n as int);
        }
        None
    }

    fn find_content(&self, digest: &str) -> (r: Option<usize>)
        ensures
            match r {
                Some(k) => k < self.content@.len() && first_index(self.content_keys(), digest@)
                    == k,
                None => first_index(self.content_keys(), digest@) == self.content@.len(),
            },
    {
        let n = self.content.len();
        let mut i: usize = 0;
        while i < n
            invariant
                n == self.content@.len(),
                i <= n,
                forall|k: int| 0 <= k < i ==> self.content_keys()[k] != digest@,
            decreases n - i,
        {
            if str_eq(self.content[i].digest.as_str(), digest) {
                proof {
                    lemma_first_index(self.content_keys(), digest@, i as int);
                }
                return Some(i);
            }
            i = i + 1;
        }
        proof {
            lemma_first_index(self.content_keys(), digest@, n as int);
        }
        None
    }

    fn find_analysis(&self, digest: &str, prompt: &str) -> (r: Option<usize>)
        requires
            self.wf(),
        ensures
            match r {
                Some(k) => k < self.analysis_results@.len() && first_index(
                    self.analysis_index(),
                    (digest@, prompt@),
                ) == k,
                None => first_index(self.analysis_index(), (digest@, prompt@))
                    == self.analysis_results@.len(),
            },
    {
        let n = self.analysis_keys.len();
        let mut i: usize = 0;
        while i < n
            invariant
                n == self.analysis_keys@.len(),
                self.wf(),
                i <= n,
                forall|k: int| 0 <= k < i ==> self.analysis_index()[k] != (digest@, prompt@),
            decreases n - i,
        {
            if str_eq(self.analysis_keys[i].0.as_str(), digest) && str_eq(
                self.analysis_keys[i].1.as_str(),
                prompt,
            ) {
                proof {
                    lemma_first_index(self.analysis_index(), (digest@, prompt@), i as int);
                }
                return Some(i);
            }
            i = i + 1;
        }
        proof {
            lemma_first_index(self.analysis_index(), (digest@, prompt@), n as int);
        }
        None
    }

    /// Whether `canonical` is one of the turn's attached image paths
    /// (compared as paths, component by component).
    pub fn allows(&self, canonical: &str) -> (r: bool)
        ensures
            r == exists|i: int| 0 <= i < self.allowed().len() && same_path(
                #[trigger] self.allowed()[i],
                canonical@,
            ),
    {
        let n = self.allowed_paths.len();
        let mut i: usize = 0;
        while i < n
            invariant
                n == self.allowed_paths@.len(),
                i <= n,
                forall|k: int| 0 <= k < i ==> !same_path(#[trigger] self.allowed()[k], canonical@),
            decreases n - i,
        {
            if same_path_exec(self.allowed_paths[i].as_str(), canonical) {
                assert(same_path(self.allowed()[i as int], canonical@));
                return true;
            }
            i = i + 1;
        }
        false
    }

    /// Admits one `vision_analyze` call for `image`, counting it, and says
    /// where the image comes from: a listed context image; with general
    /// access, anything; a URL only when it is a trusted avatar; otherwise a
    /// local path that must be one of the turn's images. An empty reference
    /// is refused before it counts.
    pub fn begin_analysis(&mut self, image: &str, avatar_trusted: bool) -> (r: Result<
        ScopedImage,
        VisionError,
    >)
        requires
            old(self).wf(),
        ensures
            final(self).wf(),
            final(self).same_scope(*old(self)),
            final(self).same_caches(*old(self)),
            final(self).fetches() == old(self).fetches(),
            final(self).total_bytes() == old(self).total_bytes(),
            trim(image@).len() == 0 ==> r == Err::<ScopedImage, VisionError>(
                VisionError::ImageRequired,
            ) && final(self).calls() == old(self).calls(),
            trim(image@).len() > 0 ==> {
                &&& final(self).calls() == if old(self).calls() < usize::MAX {
                    old(self).calls() + 1
                } else {
                    old(self).calls()
                }
                &&& if old(self).calls() >= MAX_SCOPED_VISION_CALLS {
                    r == Err::<ScopedImage, VisionError>(VisionError::CallLimit)
                } else if old(self).context_ref_of(trim(image@)) is Some {
                    r matches Ok(ScopedImage::Context(id)) && id@ == trim(image@)
                } else if old(self).general_access() {
                    r matches Ok(ScopedImage::General(g)) && g@ == trim(image@)
                } else if is_remote_spec(trim(image@)) {
                    if avatar_trusted {
                        r matches Ok(ScopedImage::General(g)) && g@ == trim(image@)
                    } else {
                        r == Err::<ScopedImage, VisionError>(VisionError::NotInTurn)
                    }
                } else {
                    r matches Ok(ScopedImage::Local(p)) && p@ == trim(image@)
                }
            },
    {
        let t = trimmed(image);
        if t.as_str().is_empty() {
            return Err(VisionError::ImageRequired);
        }
        let previous = self.calls;
        if self.calls < usize::MAX {
            self.calls = self.calls + 1;
        }
        if previous >= MAX_SCOPED_VISION_CALLS {
            return Err(VisionError::CallLimit);
        }
        if self.find_context(t.as_str()).is_some() {
            return Ok(ScopedImage::Context(t));
        }
        if self.allow_general_access {
            return Ok(ScopedImage::General(t));
        }
        if is_remote(t.as_str()) {
            if avatar_trusted {
                Ok(ScopedImage::General(t))
            } else {
                Err(VisionError::NotInTurn)
            }
        } else {
            Ok(ScopedImage::Local(t))
        }
    }

    /// Where a generation reference image comes from in this scope: a
    /// listed context image; with general access, any URL or path; a URL
    /// only when it is a trusted avatar; otherwise a path that must be one
    /// of the turn's images.
    pub fn reference_source(&self, reference: &str, avatar_trusted: bool) -> (r: Result<
        ReferenceSource,
        VisionError,
    >)
        ensures
            trim(reference@).len() == 0 ==> r == Err::<ReferenceSource, VisionError>(
                VisionError::ReferenceEmpty,
            ),
            trim(reference@).len() > 0 ==> {
                let t = trim(reference@);
                if self.context_ref_of(t) is Some {
                    r matches Ok(ReferenceSource::Context(id)) && id@ == t
                } else if self.general_access() {
                    if is_remote_spec(t) {
                        r matches Ok(ReferenceSource::Download(u)) && u@ == t
                    } else {
                        r matches Ok(ReferenceSource::File(p)) && p@ == t
                    }
                } else if is_remote_spec(t) {
                    if avatar_trusted {
                        r matches Ok(ReferenceSource::Download(u)) && u@ == t
                    } else {
                        r == Err::<ReferenceSource, VisionError>(VisionError::ReferenceNotInTurn)
                    }
                } else {
                    r matches Ok(ReferenceSource::AttachedFile(p)) && p@ == t
                }
            },
    {
        let t = trimmed(reference);
        if t.as_str().is_empty() {
            return Err(VisionError::ReferenceEmpty);
        }
        if self.find_context(t.as_str()).is_some() {
            return Ok(ReferenceSource::Context(t));
        }
        let remote = is_remote(t.as_str());
        if self.allow_general_access {
            if remote {
                return Ok(ReferenceSource::Download(t));
            } else {
                return Ok(ReferenceSource::File(t));
            }
        }
        if remote {
            if avatar_trusted {
                Ok(ReferenceSource::Download(t))
            } else {
                Err(VisionError::ReferenceNotInTurn)
            }
        } else {
            Ok(ReferenceSource::AttachedFile(t))
        }
    }

    /// The analysis already made of content `digest` under `prompt`.
    pub fn cached_analysis(&self, digest: &str, prompt: &str) -> (r: Option<String>)
        requires
            self.wf(),
        ensures
            match r {
                Some(a) => self.analysis_of(digest@, prompt@) == Some(a@),
                None => self.analysis_of(digest@, prompt@) is None,
            },
    {
        match self.find_analysis(digest, prompt) {
            Some(k) => Some(copy_string(&self.analysis_results[k])),
            None => None,
        }
    }

    /// Keeps the analysis of content `digest` under `prompt`, replacing an
    /// earlier one.
    pub fn remember_analysis(&mut self, digest: &str, prompt: &str, result: String)
        requires
            old(self).wf(),
        ensures
            final(self).wf(),
            final(self).same_scope(*old(self)),
            final(self).calls() == old(self).calls(),
            final(self).fetches() == old(self).fetches(),
            final(self).total_bytes() == old(self).total_bytes(),
            forall|id: Seq<char>| #[trigger] final(self).resolved_of(id) == old(self).resolved_of(id),
            forall|d: Seq<char>| #[trigger] final(self).content_of(d) == old(self).content_of(d),
            final(self).analysis_of(digest@, prompt@) == Some(result@),
            forall|d: Seq<char>, p: Seq<char>|
                (d, p) != (digest@, prompt@) ==> #[trigger] final(self).analysis_of(d, p) == old(self).analysis_of(d, p),
    {
        let ghost old_index = self.analysis_index();
        proof {
            lemma_first_index_bounds(old_index, (digest@, prompt@));
        }
        match self.find_analysis(digest, prompt) {
            Some(k) => {
                self.analysis_results.set(k, result);
                proof {
                    assert(self.analysis_index() =~= old_index);
                    assert forall|d: Seq<char>, p: Seq<char>|
                        (d, p) != (digest@, prompt@) implies #[trigger] self.analysis_of(d, p)
                        == old(self).analysis_of(d, p) by {
                        lemma_first_index_bounds(old_index, (d, p));
                        let f = first_index(old_index, (d, p));
                        if f < old_index.len() {
                            assert(old_index[f] == (d, p));
                            assert(f != k);
                        }
                    }
                }
            },
            None => {
                let key = (copy_string_of(digest), copy_string_of(prompt));
                self.analysis_keys.push(key);
                self.analysis_results.push(result);
                proof {
                    assert(self.analysis_index() =~= old_index.push((digest@, prompt@)));
                    lemma_first_index_push(old_index, (digest@, prompt@), (digest@, prompt@));
                    assert forall|d: Seq<char>, p: Seq<char>|
                        (d, p) != (digest@, prompt@) implies #[trigger] self.analysis_of(d, p)
                        == old(self).analysis_of(d, p) by {
                        lemma_first_index_push(old_index, (d, p), (digest@, prompt@));
                        lemma_first_index_bounds(old_index, (d, p));
                    }
                }
            },
        }
    }

    fn insert_resolved(&mut self, id: &str, image: ResolvedContextImage)
        requires
            old(self).wf(),
        ensures
            final(self).wf(),
            final(self).same_scope(*old(self)),
            final(self).calls() == old(self).calls(),
            final(self).fetches() == old(self).fetches(),
            final(self).total_bytes() == old(self).total_bytes(),
            final(self).resolved_of(id@) == Some(resolved_view(image)),
            forall|k: Seq<char>|
                k != id@ ==> #[trigger] final(self).resolved_of(k) == old(self).resolved_of(k),
            forall|d: Seq<char>| #[trigger] final(self).content_of(d) == old(self).content_of(d),
            forall|d: Seq<char>, p: Seq<char>| #[trigger]
                final(self).analysis_of(d, p) == old(self).analysis_of(d, p),
    {
        let ghost old_keys = self.resolved_keys();
        proof {
            lemma_first_index_bounds(old_keys, id@);
        }
        match self.find_resolved(id) {
            Some(k) => {
                self.resolved.set(k, image);
                proof {
                    assert(self.resolved_keys() =~= old_keys);
                    assert forall|q: Seq<char>| q != id@ implies #[trigger] self.resolved_of(q)
                        == old(self).resolved_of(q) by {
                        lemma_first_index_bounds(old_keys, q);
                        let f = first_index(old_keys, q);
                        if f < old_keys.len() {
                            assert(old_keys[f] == q);
                            assert(f != k);
                        }
                    }
                }
            },
            None => {
                self.resolved_ids.push(copy_string_of(id));
                self.resolved.push(image);
                proof {
                    assert(self.resolved_keys() =~= old_keys.push(id@));
                    lemma_first_index_push(old_keys, id@, id@);
                    assert forall|q: Seq<char>| q != id@ implies #[trigger] self.resolved_of(q)
                        == old(self).resolved_of(q) by {
                        lemma_first_index_push(old_keys, q, id@);
                        lemma_first_index_bounds(old_keys, q);
                    }
                }
            },
        }
    }

    fn insert_content(&mut self, image: ResolvedContextImage)
        requires
            old(self).wf(),
        ensures
            final(self).wf(),
            final(self).same_scope(*old(self)),
            final(self).calls() == old(self).calls(),
            final(self).fetches() == old(self).fetches(),
            final(self).total_bytes() == old(self).total_bytes(),
            final(self).content_of(image.digest@) == Some(resolved_view(image)),
            forall|d: Seq<char>|
                d != image.digest@ ==> #[trigger] final(self).content_of(d) == old(self).content_of(
                    d,
                ),
            forall|k: Seq<char>| #[trigger] final(self).resolved_of(k) == old(self).resolved_of(k),
            forall|d: Seq<char>, p: Seq<char>| #[trigger]
                final(self).analysis_of(d, p) == old(self).analysis_of(d, p),
    {
        let ghost old_keys = self.content_keys();
        let ghost key = image.digest@;
        proof {
            lemma_first_index_bounds(old_keys, key);
        }
        match self.find_content(image.digest.as_str()) {
            Some(k) => {
                self.content.set(k, image);
                proof {
                    assert(self.content_keys() =~= old_keys);
                    assert forall|q: Seq<char>| q != key implies #[trigger] self.content_of(q)
                        == old(self).content_of(q) by {
                        lemma_first_index_bounds(old_keys, q);
                        let f = first_index(old_keys, q);
                        if f < old_keys.len() {
                            assert(old_keys[f] == q);
                            assert(f != k);
                        }
                    }
                }
            },
            None => {
                self.content.push(image);
                proof {
                    assert(self.content_keys() =~= old_keys.push(key));
                    lemma_first_index_push(old_keys, key, key);
                    assert forall|q: Seq<char>| q != key implies #[trigger] self.content_of(q)
                        == old(self).content_of(q) by {
                        lemma_first_index_push(old_keys, q, key);
                        lemma_first_index_bounds(old_keys, q);
                    }
                }
            },
        }
    }

    fn release_fetch(&mut self)
        requires
            old(self).wf(),
        ensures
            final(self).wf(),
            final(self).same_scope(*old(self)),
            final(self).same_caches(*old(self)),
            final(self).calls() == old(self).calls(),
            final(self).total_bytes() == old(self).total_bytes(),
            final(self).fetches() == released(old(self).fetches()),
    {
        if self.fetches > 0 {
            self.fetches = self.fetches - 1;
        }
    }

    /// The first step of making context image `image_id` ready: the image
    /// it was already resolved to; else, for a listed image of a turn that
    /// can look images up, a fetch of its message, counted against the
    /// turn's fetch budget; else why not.
    pub fn begin_resolve(&mut self, image_id: &str) -> (r: ResolveStep)
        requires
            old(self).wf(),
        ensures
            final(self).wf(),
            final(self).same_scope(*old(self)),
            final(self).same_caches(*old(self)),
            final(self).calls() == old(self).calls(),
            final(self).total_bytes() == old(self).total_bytes(),
            match old(self).resolved_of(image_id@) {
                Some(v) => r matches ResolveStep::Ready(x) && resolved_view(x) == v && final(self).fetches() == old(self).fetches(),
                None => match old(self).context_ref_of(image_id@) {
                    None => r == ResolveStep::Failed(VisionError::UnknownContextImage) && final(self).fetches() == old(self).fetches(),
                    Some(source) => if !old(self).platform_lookup() {
                        r == ResolveStep::Failed(VisionError::LookupUnavailable) && final(self).fetches() == old(self).fetches()
                    } else if old(self).fetches() < MAX_SCOPED_CONTEXT_FETCHES {
                        &&& r matches ResolveStep::Fetch { message_id, image_index }
                            && message_id@ == source.0 && image_index == source.1
                        &&& final(self).fetches() == old(self).fetches() + 1
                    } else {
                        r == ResolveStep::Failed(VisionError::FetchLimit) && final(self).fetches()
                            == old(self).fetches()
                    },
                },
            },
    {
        match self.find_resolved(image_id) {
            Some(k) => {
                return ResolveStep::Ready(copy_resolved(&self.resolved[k]));
            },
            None => {},
        }
        let c = match self.find_context(image_id) {
            Some(c) => c,
            None => {
                return ResolveStep::Failed(VisionError::UnknownContextImage);
            },
        };
        if !self.has_platform_context {
            return ResolveStep::Failed(VisionError::LookupUnavailable);
        }
        if self.fetches >= MAX_SCOPED_CONTEXT_FETCHES {
            return ResolveStep::Failed(VisionError::FetchLimit);
        }
        self.fetches = self.fetches + 1;
        ResolveStep::Fetch {
            message_id: copy_string(&self.context_images[c].message_id),
            image_index: self.context_images[c].image_index,
        }
    }

    /// The second step, once the platform answered a fetch for
    /// `image_id` with the message's images (`None`: the lookup failed).
    /// The image at 1-based `image_index` is taken; a failure gives the
    /// fetch back. New content counts against the byte budget and is to be
    /// cached; content already resolved is reused under this id.
    pub fn finish_fetch(
        &mut self,
        image_id: &str,
        image_index: usize,
        fetched: Option<Vec<ImageData>>,
    ) -> (r: FetchStep)
        requires
            old(self).wf(),
        ensures
            final(self).wf(),
            final(self).same_scope(*old(self)),
            final(self).calls() == old(self).calls(),
            forall|d: Seq<char>| #[trigger] final(self).content_of(d) == old(self).content_of(d),
            forall|d: Seq<char>, p: Seq<char>| #[trigger]
                final(self).analysis_of(d, p) == old(self).analysis_of(d, p),
            match fetched {
                None => {
                    &&& r == FetchStep::Failed(VisionError::LookupFailed)
                    &&& final(self).fetches() == released(old(self).fetches())
                    &&& final(self).total_bytes() == old(self).total_bytes()
                    &&& forall|k: Seq<char>| #[trigger]
                        final(self).resolved_of(k) == old(self).resolved_of(k)
                },
                Some(images) => {
                    let pos: int = if image_index == 0 {
                        0
                    } else {
                        image_index - 1
                    };
                    if pos >= images@.len() {
                        &&& r == FetchStep::Failed(VisionError::NoLongerAvailable)
                        &&& final(self).fetches() == released(old(self).fetches())
                        &&& final(self).total_bytes() == old(self).total_bytes()
                        &&& forall|k: Seq<char>| #[trigger]
                            final(self).resolved_of(k) == old(self).resolved_of(k)
                    } else {
                        let img = images@[pos];
                        let d = content_digest(img.data@);
                        if img.data@.len() > MAX_IMAGE_BYTES {
                            &&& r == FetchStep::Failed(VisionError::TooLarge(img.data@.len() as usize))
                            &&& final(self).fetches() == released(old(self).fetches())
                            &&& final(self).total_bytes() == old(self).total_bytes()
                            &&& forall|k: Seq<char>| #[trigger]
                                final(self).resolved_of(k) == old(self).resolved_of(k)
                        } else {
                            match old(self).content_of(d) {
                                Some(v) => {
                                    &&& r matches FetchStep::Ready(x) && resolved_view(x) == v
                                    &&& final(self).fetches() == old(self).fetches()
                                    &&& final(self).total_bytes() == old(self).total_bytes()
                                    &&& final(self).resolved_of(image_id@) == Some(v)
                                    &&& forall|k: Seq<char>|
                                        k != image_id@ ==> #[trigger] final(self).resolved_of(k)
                                            == old(self).resolved_of(k)
                                },
                                None => if old(self).total_bytes() + img.data@.len()
                                    > MAX_SCOPED_TOTAL_BYTES {
                                    &&& r == FetchStep::Failed(VisionError::ByteLimit)
                                    &&& final(self).fetches() == released(old(self).fetches())
                                    &&& final(self).total_bytes() == old(self).total_bytes()
                                    &&& forall|k: Seq<char>| #[trigger]
                                        final(self).resolved_of(k) == old(self).resolved_of(k)
                                } else {
                                    &&& r matches FetchStep::Store { image, digest }
                                        && image.mime@ == img.mime@ && image.data@ == img.data@
                                        && digest@ == d
                                    &&& final(self).fetches() == old(self).fetches()
                                    &&& final(self).total_bytes() == old(self).total_bytes()
                                        + img.data@.len()
                                    &&& forall|k: Seq<char>| #[trigger]
                                        final(self).resolved_of(k) == old(self).resolved_of(k)
                                },
                            }
                        }
                    }
                },
            },
    {
        let mut images = match fetched {
            None => {
                self.release_fetch();
                return FetchStep::Failed(VisionError::LookupFailed);
            },
            Some(images) => images,
        };
        let pos: usize = if image_index == 0 {
            0
        } else {
            image_index - 1
        };
        if pos >= images.len() {
            self.release_fetch();
            return FetchStep::Failed(VisionError::NoLongerAvailable);
        }
        let ghost chosen = images@[pos as int];
        let image = images.remove(pos);
        assert(image == chosen);
        let len = image.data.len();
        if len > MAX_IMAGE_BYTES {
            self.release_fetch();
            return FetchStep::Failed(VisionError::TooLarge(len));
        }
        let digest = hex_encode(sha256(image.data.as_slice()).as_slice());
        match self.find_content(digest.as_str()) {
            Some(k) => {
                let existing = copy_resolved(&self.content[k]);
                let again = copy_resolved(&self.content[k]);
                self.insert_resolved(image_id, existing);
                return FetchStep::Ready(again);
            },
            None => {},
        }
        if self.total_bytes + len > MAX_SCOPED_TOTAL_BYTES {
            self.release_fetch();
            return FetchStep::Failed(VisionError::ByteLimit);
        }
        self.total_bytes = self.total_bytes + len;
        FetchStep::Store { image, digest }
    }

    /// The last step, once the host tried to write `image` (with content
    /// `digest`) to the cache: on success it is resolved under `image_id`
    /// and under its content; on failure its bytes and its fetch are given
    /// back.
    pub fn commit_cache(
        &mut self,
        image_id: &str,
        image: ImageData,
        digest: String,
        cache_path: Option<String>,
    ) -> (r: Result<ResolvedContextImage, VisionError>)
        requires
            old(self).wf(),
        ensures
            final(self).wf(),
            final(self).same_scope(*old(self)),
            final(self).calls() == old(self).calls(),
            forall|d: Seq<char>, p: Seq<char>| #[trigger]
                final(self).analysis_of(d, p) == old(self).analysis_of(d, p),
            match cache_path {
                None => {
                    &&& r == Err::<ResolvedContextImage, VisionError>(VisionError::CacheFailed)
                    &&& final(self).fetches() == released(old(self).fetches())
                    &&& final(self).total_bytes() == if old(self).total_bytes() >= image.data@.len() {
                        old(self).total_bytes() - image.data@.len()
                    } else {
                        0
                    }
                    &&& final(self).same_caches(*old(self))
                },
                Some(p) => {
                    let v = (image.mime@, image.data@, digest@, p@);
                    &&& r matches Ok(x) && resolved_view(x) == v
                    &&& final(self).fetches() == old(self).fetches()
                    &&& final(self).total_bytes() == old(self).total_bytes()
                    &&& final(self).resolved_of(image_id@) == Some(v)
                    &&& forall|k: Seq<char>|
                        k != image_id@ ==> #[trigger] final(self).resolved_of(k) == old(self).resolved_of(k)
                    &&& final(self).content_of(digest@) == Some(v)
                    &&& forall|d: Seq<char>|
                        d != digest@ ==> #[trigger] final(self).content_of(d) == old(self).content_of(d)
                },
            },
    {
        match cache_path {
            None => {
                let len = image.data.len();
                if self.total_bytes >= len {
                    self.total_bytes = self.total_bytes - len;
                } else {
                    self.total_bytes = 0;
                }
                self.release_fetch();
                Err(VisionError::CacheFailed)
            },
            Some(p) => {
                let resolved = ResolvedContextImage {
                    mime: image.mime,
                    data: image.data,
                    digest,
                    cache_path: p,
                };
                let a = copy_resolved(&resolved);
                let b = copy_resolved(&resolved);
                self.insert_resolved(image_id, a);
                self.insert_content(b);
                Ok(resolved)
            },
        }
    }
}

/// The budgets of a scope hold in every state it can reach: at most
/// `MAX_SCOPED_CONTEXT_FETCHES` fetches and `MAX_SCOPED_TOTAL_BYTES` bytes.
pub proof fn scoped_budgets_hold(s: ScopedVisionState)
    requires
        s.wf(),
    ensures
        s.fetches() <= MAX_SCOPED_CONTEXT_FETCHES,
        s.total_bytes() <= MAX_SCOPED_TOTAL_BYTES,
{
}

/// A fetch count with one fetch given back.
pub open spec fn released(fetches: nat) -> nat {
    if fetches > 0 {
        (fetches - 1) as nat
    } else {
        0
    }
}

fn copy_string_of(s: &str) -> (r: String)
    ensures
        r@ == s@,
{
    string_of(&chars_of(s))
}

} // verus!
