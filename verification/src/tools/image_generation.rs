//! Image generation: which API route and payload a request takes, the
//! output file name, and what the model is told afterwards.
//!
//! HTTP, files and terminal output belong to the host.

use vstd::prelude::*;
use crate::codec::{base64_standard_decode, base64_standard_encode, decode_base64, encode_base64};
use crate::config::ImageGenerationPluginConfig;
use crate::text::{
    ascii_lower, chars_of, find_chars, find_from, is_whitespace, is_ws, lower_ascii, lower_chars,
    push_all, push_range,
    push_str, str_eq, string_of, to_ascii_lower, trim, trim_bounds,
};

verus! {

/// The instruction returned when the image was also printed in the terminal.
pub const PRINTED_INSTRUCTION: &'static str = "The generated image has already been emitted to the host and printed in the terminal. Do not call send_message_to_user or print_image for the same image unless the user explicitly asks to resend or redisplay it. Do not put the local file path in your reply.";

/// The instruction returned when the image was only emitted.
pub const EMITTED_INSTRUCTION: &'static str = "The generated image was saved to disk and emitted as an image event. Messaging platforms deliver emitted images automatically, so do not call send_message_to_user for the same image unless the user explicitly asks to resend it. Do not call print_image unless the user explicitly asks to display it. Do not put the local file path in your reply.";

/// What the model is told after a generation.
pub fn assistant_instruction(printed: bool) -> (r: &'static str)
    ensures
        r@ == if printed {
            PRINTED_INSTRUCTION@
        } else {
            EMITTED_INSTRUCTION@
        },
{
    if printed {
        PRINTED_INSTRUCTION
    } else {
        EMITTED_INSTRUCTION
    }
}

/// How reference images reach the backend. When neither route fits, the
/// references are ignored and the call falls back to text-to-image.
#[derive(Clone, Copy, Debug, PartialEq, Eq, Structural)]
pub enum ReferenceMode {
    /// RightCode: `/v1/images/generations` JSON with `image: [base64…]`.
    GenerationsJson,
    /// OpenAI GPT Image: `/v1/images/edits` multipart with `image[]`.
    EditsMultipart,
    Unsupported,
}

/// The model name, ASCII-lowercased, contains `gpt-image`.
pub open spec fn looks_gpt_image_spec(model: Seq<char>) -> bool {
    find_from(lower_chars(model), "gpt-image"@, 0) >= 0
}

pub open spec fn reference_mode_spec(provider_type: Seq<char>, model: Seq<char>) -> ReferenceMode {
    if provider_type == "rightcode"@ {
        ReferenceMode::GenerationsJson
    } else if looks_gpt_image_spec(model) {
        ReferenceMode::EditsMultipart
    } else {
        ReferenceMode::Unsupported
    }
}

fn lower_vec(s: &str) -> (r: Vec<char>)
    ensures
        r@ == lower_chars(s@),
{
    lower_ascii(&chars_of(s))
}

pub fn looks_gpt_image_model(model: &str) -> (r: bool)
    ensures
        r == looks_gpt_image_spec(model@),
{
    let lower = lower_vec(model);
    let needle = chars_of("gpt-image");
    match find_chars(&lower, &needle, 0) {
        Some(_) => true,
        None => false,
    }
}

/// The route reference images take for this backend.
pub fn reference_mode(plugin: &ImageGenerationPluginConfig) -> (r: ReferenceMode)
    ensures
        r == reference_mode_spec(plugin.provider_type@, plugin.model@),
{
    if str_eq(plugin.provider_type.as_str(), "rightcode") {
        ReferenceMode::GenerationsJson
    } else if looks_gpt_image_model(plugin.model.as_str()) {
        ReferenceMode::EditsMultipart
    } else {
        ReferenceMode::Unsupported
    }
}

/// RightCode sizes of an aspect ratio: `(2K or 4K, otherwise)`.
pub open spec fn rightcode_sizes(aspect_ratio: Seq<char>) -> Option<(Seq<char>, Seq<char>)> {
    if aspect_ratio == "1:1"@ {
        Some(("2048x2048"@, "1024x1024"@))
    } else if aspect_ratio == "3:2"@ {
        Some(("2048x1365"@, "1536x1024"@))
    } else if aspect_ratio == "16:9"@ {
        Some(("2048x1152"@, "1536x864"@))
    } else if aspect_ratio == "4:3"@ {
        Some(("2048x1536"@, "1365x1024"@))
    } else if aspect_ratio == "5:4"@ {
        Some(("2048x1638"@, "1280x1024"@))
    } else if aspect_ratio == "21:9"@ {
        Some(("2048x878"@, "1536x658"@))
    } else if aspect_ratio == "2:3"@ {
        Some(("1365x2048"@, "1024x1536"@))
    } else if aspect_ratio == "3:4"@ {
        Some(("1536x2048"@, "1024x1365"@))
    } else if aspect_ratio == "9:16"@ {
        Some(("1152x2048"@, "864x1536"@))
    } else if aspect_ratio == "4:5"@ {
        Some(("1638x2048"@, "1024x1280"@))
    } else {
        None
    }
}

fn rightcode_sizes_of(aspect_ratio: &str) -> (r: Option<(&'static str, &'static str)>)
    ensures
        match r {
            Some((hi, lo)) => rightcode_sizes(aspect_ratio@) == Some((hi@, lo@)),
            None => rightcode_sizes(aspect_ratio@) is None,
        },
{
    if str_eq(aspect_ratio, "1:1") {
        Some(("2048x2048", "1024x1024"))
    } else if str_eq(aspect_ratio, "3:2") {
        Some(("2048x1365", "1536x1024"))
    } else if str_eq(aspect_ratio, "16:9") {
        Some(("2048x1152", "1536x864"))
    } else if str_eq(aspect_ratio, "4:3") {
        Some(("2048x1536", "1365x1024"))
    } else if str_eq(aspect_ratio, "5:4") {
        Some(("2048x1638", "1280x1024"))
    } else if str_eq(aspect_ratio, "21:9") {
        Some(("2048x878", "1536x658"))
    } else if str_eq(aspect_ratio, "2:3") {
        Some(("1365x2048", "1024x1536"))
    } else if str_eq(aspect_ratio, "3:4") {
        Some(("1536x2048", "1024x1365"))
    } else if str_eq(aspect_ratio, "9:16") {
        Some(("1152x2048", "864x1536"))
    } else if str_eq(aspect_ratio, "4:5") {
        Some(("1638x2048", "1024x1280"))
    } else {
        None
    }
}

/// GPT Image sizes: square, portrait or landscape, else `auto`.
pub open spec fn gpt_image_size(aspect_ratio: Seq<char>) -> Seq<char> {
    if aspect_ratio == "1:1"@ {
        "1024x1024"@
    } else if aspect_ratio == "2:3"@ || aspect_ratio == "3:4"@ || aspect_ratio == "9:16"@
        || aspect_ratio == "4:5"@ {
        "1024x1536"@
    } else if aspect_ratio == "3:2"@ || aspect_ratio == "16:9"@ || aspect_ratio == "4:3"@
        || aspect_ratio == "5:4"@ || aspect_ratio == "21:9"@ {
        "1536x1024"@
    } else {
        "auto"@
    }
}

/// DALL·E-style sizes: portrait, landscape, else square.
pub open spec fn classic_size(aspect_ratio: Seq<char>) -> Seq<char> {
    if aspect_ratio == "2:3"@ || aspect_ratio == "3:4"@ || aspect_ratio == "9:16"@
        || aspect_ratio == "4:5"@ {
        "1024x1792"@
    } else if aspect_ratio == "3:2"@ || aspect_ratio == "16:9"@ || aspect_ratio == "4:3"@
        || aspect_ratio == "5:4"@ || aspect_ratio == "21:9"@ {
        "1792x1024"@
    } else {
        "1024x1024"@
    }
}

/// The `size` a request asks for; `None` only for a RightCode ratio it does
/// not know.
pub open spec fn resolve_size_spec(
    provider_type: Seq<char>,
    model: Seq<char>,
    aspect_ratio: Seq<char>,
    resolution: Seq<char>,
) -> Option<Seq<char>> {
    if provider_type == "rightcode"@ {
        match rightcode_sizes(aspect_ratio) {
            Some((hi, lo)) => Some(
                if resolution == "2K"@ || resolution == "4K"@ {
                    hi
                } else {
                    lo
                },
            ),
            None => None,
        }
    } else if looks_gpt_image_spec(model) {
        Some(gpt_image_size(aspect_ratio))
    } else {
        Some(classic_size(aspect_ratio))
    }
}

fn literal_string(s: &'static str) -> (r: String)
    ensures
        r@ == s@,
{
    let mut v: Vec<char> = Vec::new();
    push_str(&mut v, s);
    string_of(&v)
}

pub fn resolve_size(plugin: &ImageGenerationPluginConfig, aspect_ratio: &str, resolution: &str) -> (r:
    Option<String>)
    ensures
        match r {
            Some(s) => resolve_size_spec(
                plugin.provider_type@,
                plugin.model@,
                aspect_ratio@,
                resolution@,
            ) == Some(s@),
            None => resolve_size_spec(
                plugin.provider_type@,
                plugin.model@,
                aspect_ratio@,
                resolution@,
            ) is None,
        },
{
    if str_eq(plugin.provider_type.as_str(), "rightcode") {
        return match rightcode_sizes_of(aspect_ratio) {
            Some((hi, lo)) => {
                if str_eq(resolution, "2K") || str_eq(resolution, "4K") {
                    Some(literal_string(hi))
                } else {
                    Some(literal_string(lo))
                }
            },
            None => None,
        };
    }
    let portrait = str_eq(aspect_ratio, "2:3") || str_eq(aspect_ratio, "3:4") || str_eq(
        aspect_ratio,
        "9:16",
    ) || str_eq(aspect_ratio, "4:5");
    let landscape = str_eq(aspect_ratio, "3:2") || str_eq(aspect_ratio, "16:9") || str_eq(
        aspect_ratio,
        "4:3",
    ) || str_eq(aspect_ratio, "5:4") || str_eq(aspect_ratio, "21:9");
    if looks_gpt_image_model(plugin.model.as_str()) {
        let size = if str_eq(aspect_ratio, "1:1") {
            "1024x1024"
        } else if portrait {
            "1024x1536"
        } else if landscape {
            "1536x1024"
        } else {
            "auto"
        };
        Some(literal_string(size))
    } else {
        let size = if portrait {
            "1024x1792"
        } else if landscape {
            "1792x1024"
        } else {
            "1024x1024"
        };
        Some(literal_string(size))
    }
}

/// Longest file-name slug, in characters.
pub const MAX_SLUG_CHARS: usize = 48;

pub open spec fn is_ascii_alnum(c: char) -> bool {
    ('0' <= c && c <= '9') || ('a' <= c && c <= 'z') || ('A' <= c && c <= 'Z')
}

/// `char::is_ascii_whitespace`.
pub open spec fn is_ascii_ws(c: char) -> bool {
    c == ' ' || c == '\t' || c == '\n' || c == '\x0C' || c == '\r'
}

/// The slug character of `c`: letters and digits lowercased, whitespace,
/// `-` and `_` as `-`, anything else dropped.
pub open spec fn slug_char(c: char) -> Option<char> {
    if is_ascii_alnum(c) {
        Some(ascii_lower(c))
    } else if is_ascii_ws(c) || c == '-' || c == '_' {
        Some('-')
    } else {
        None
    }
}

/// The slug characters of `s`, with each run of `-` shortened to one.
pub open spec fn slug_body(s: Seq<char>) -> Seq<char>
    decreases s.len(),
{
    if s.len() == 0 {
        Seq::empty()
    } else {
        let p = slug_body(s.drop_last());
        match slug_char(s.last()) {
            Some(c) => if c == '-' && p.len() > 0 && p.last() == '-' {
                p
            } else {
                p.push(c)
            },
            None => p,
        }
    }
}

/// `s` without leading and trailing `-`.
pub open spec fn trim_dashes(s: Seq<char>) -> Seq<char>
    decreases s.len(),
{
    if s.len() > 0 && s[0] == '-' {
        trim_dashes(s.drop_first())
    } else if s.len() > 0 && s.last() == '-' {
        trim_dashes(s.drop_last())
    } else {
        s
    }
}

/// The file-name slug of a prompt: `image` when nothing usable is left.
pub open spec fn slug_spec(s: Seq<char>) -> Seq<char> {
    let t = trim_dashes(slug_body(s));
    if t.len() == 0 {
        "image"@
    } else if t.len() > MAX_SLUG_CHARS {
        t.take(MAX_SLUG_CHARS as int)
    } else {
        t
    }
}

fn slug_char_of(c: char) -> (r: Option<char>)
    ensures
        r == slug_char(c),
{
    if ('0' <= c && c <= '9') || ('a' <= c && c <= 'z') || ('A' <= c && c <= 'Z') {
        Some(to_ascii_lower(c))
    } else if c == ' ' || c == '\t' || c == '\n' || c == '\x0C' || c == '\r' || c == '-' || c == '_' {
        Some('-')
    } else {
        None
    }
}

proof fn lemma_trim_dashes_range(s: Seq<char>, a: int, b: int)
    requires
        0 <= a <= b <= s.len(),
        forall|i: int| 0 <= i < a ==> s[i] == '-',
        forall|i: int| b <= i < s.len() ==> s[i] == '-',
        a == b || (s[a] != '-' && s[b - 1] != '-'),
    ensures
        trim_dashes(s) == s.subrange(a, b),
    decreases s.len(),
{
    if s.len() > 0 && s[0] == '-' {
        if a == 0 {
            assert(b == 0);
        }
        let t = s.drop_first();
        if a == 0 {
            lemma_trim_dashes_range(t, 0, 0);
            assert(t.subrange(0, 0) =~= s.subrange(a, b));
        } else {
            lemma_trim_dashes_range(t, a - 1, b - 1);
            assert(t.subrange(a - 1, b - 1) =~= s.subrange(a, b));
        }
    } else if s.len() > 0 && s.last() == '-' {
        let t = s.drop_last();
        if b == s.len() {
            assert(a == b);
            lemma_trim_dashes_range(t, a - 1, a - 1);
            assert(t.subrange(a - 1, a - 1) =~= s.subrange(a, b));
        } else {
            lemma_trim_dashes_range(t, a, b);
            assert(t.subrange(a, b) =~= s.subrange(a, b));
        }
    } else {
        if a > 0 {
            assert(s[0] == '-');
        }
        if b < s.len() {
            assert(s[s.len() - 1] == '-');
        }
        assert(s.subrange(0, s.len() as int) =~= s);
    }
}

/// The file-name slug of a prompt.
pub fn slug(value: &str) -> (r: String)
    ensures
        r@ == slug_spec(value@),
{
    let v = chars_of(value);
    let mut out: Vec<char> = Vec::new();
    let mut i: usize = 0;
    while i < v.len()
        invariant
            i <= v@.len(),
            v@ == value@,
            out@ == slug_body(v@.take(i as int)),
        decreases v.len() - i,
    {
        assert(v@.take(i + 1).drop_last() =~= v@.take(i as int));
        match slug_char_of(v[i]) {
            Some(c) => {
                if !(c == '-' && out.len() > 0 && out[out.len() - 1] == '-') {
                    out.push(c);
                }
            },
            None => {},
        }
        i = i + 1;
    }
    assert(v@.take(v@.len() as int) =~= v@);
    let mut a: usize = 0;
    while a < out.len() && out[a] == '-'
        invariant
            a <= out@.len(),
            forall|k: int| 0 <= k < a ==> out@[k] == '-',
        decreases out.len() - a,
    {
        a = a + 1;
    }
    let mut b: usize = out.len();
    while b > a && out[b - 1] == '-'
        invariant
            a <= b <= out@.len(),
            forall|k: int| b <= k < out@.len() ==> out@[k] == '-',
        decreases b,
    {
        b = b - 1;
    }
    proof {
        if a == out@.len() {
            assert(a == b);
        }
        lemma_trim_dashes_range(out@, a as int, b as int);
    }
    if a == b {
        return literal_string("image");
    }
    let end = if b - a > MAX_SLUG_CHARS {
        a + MAX_SLUG_CHARS
    } else {
        b
    };
    let mut t: Vec<char> = Vec::new();
    push_range(&mut t, &out, a, end);
    assert(t@ =~= slug_spec(value@));
    string_of(&t)
}

/// `s` with whitespace runs collapsed to one space and dropped at both
/// ends (`split_whitespace` joined by spaces), over the first `n`
/// characters; the flag says a space is due before the next word.
pub open spec fn squash_ws_prefix(s: Seq<char>, n: int) -> (Seq<char>, bool)
    decreases n,
{
    if n <= 0 {
        (Seq::empty(), false)
    } else {
        let (o, pending) = squash_ws_prefix(s, n - 1);
        let c = s[n - 1];
        if is_ws(c) {
            (o, o.len() > 0)
        } else if pending {
            (o.push(' ').push(c), false)
        } else {
            (o.push(c), false)
        }
    }
}

pub open spec fn squash_ws(s: Seq<char>) -> Seq<char> {
    squash_ws_prefix(s, s.len() as int).0
}

/// A one-line preview of at most `limit` characters, `...` marking a cut.
pub open spec fn preview_spec(s: Seq<char>, limit: usize) -> Seq<char> {
    let n = squash_ws(s);
    if n.len() <= limit {
        n
    } else {
        n.take(limit as int) + "..."@
    }
}

pub fn preview(value: &str, limit: usize) -> (r: String)
    ensures
        r@ == preview_spec(value@, limit),
{
    let v = chars_of(value);
    let mut out: Vec<char> = Vec::new();
    let mut pending = false;
    let mut i: usize = 0;
    while i < v.len()
        invariant
            i <= v@.len(),
            v@ == value@,
            (out@, pending) == squash_ws_prefix(v@, i as int),
        decreases v.len() - i,
    {
        let c = v[i];
        if is_whitespace(c) {
            pending = out.len() > 0;
        } else {
            if pending {
                out.push(' ');
            }
            out.push(c);
            pending = false;
        }
        i = i + 1;
    }
    if out.len() <= limit {
        string_of(&out)
    } else {
        let mut t: Vec<char> = Vec::new();
        push_range(&mut t, &out, 0, limit);
        push_str(&mut t, "...");
        assert(t@ =~= out@.take(limit as int) + "..."@);
        string_of(&t)
    }
}

/// Where a generation request goes, and with which key.
pub struct ImageRequestPlan {
    pub api_key: String,
    pub endpoint: String,
    /// How the references travel (`Unsupported` when there are none).
    pub mode: ReferenceMode,
}

/// The first key that is not blank, trimmed.
pub open spec fn first_key(keys: Seq<String>) -> Option<Seq<char>>
    decreases keys.len(),
{
    if keys.len() == 0 {
        None
    } else if trim(keys[0]@).len() > 0 {
        Some(trim(keys[0]@))
    } else {
        first_key(keys.drop_first())
    }
}

/// `s` without trailing `/`.
pub open spec fn strip_trailing_slashes(s: Seq<char>) -> Seq<char>
    decreases s.len(),
{
    if s.len() > 0 && s.last() == '/' {
        strip_trailing_slashes(s.drop_last())
    } else {
        s
    }
}

/// The request a generation with `reference_count` references makes, as
/// `(api key, endpoint, mode)`, or the configuration error.
pub open spec fn request_plan_spec(
    plugin: ImageGenerationPluginConfig,
    reference_count: nat,
) -> Result<(Seq<char>, Seq<char>, ReferenceMode), Seq<char>> {
    match first_key(plugin.api_keys@) {
        None => Err("plugins.image_generation.api_keys is empty"@),
        Some(key) => {
            let base = strip_trailing_slashes(trim(plugin.base_url@));
            if base.len() == 0 {
                Err("plugins.image_generation.base_url is empty"@)
            } else {
                let mode = if reference_count == 0 {
                    ReferenceMode::Unsupported
                } else {
                    reference_mode_spec(plugin.provider_type@, plugin.model@)
                };
                let path = if mode == ReferenceMode::EditsMultipart {
                    "/v1/images/edits"@
                } else {
                    "/v1/images/generations"@
                };
                Ok((key, base + path, mode))
            }
        },
    }
}

fn trimmed(s: &str) -> (r: Vec<char>)
    ensures
        r@ == trim(s@),
{
    let v = chars_of(s);
    let (a, b) = trim_bounds(&v, 0, v.len());
    assert(v@.subrange(0, v@.len() as int) =~= v@);
    let mut out: Vec<char> = Vec::new();
    push_range(&mut out, &v, a, b);
    out
}

/// Plans the HTTP request of a generation.
pub fn plan_request(plugin: &ImageGenerationPluginConfig, reference_count: usize) -> (r: Result<
    ImageRequestPlan,
    String,
>)
    ensures
        match (r, request_plan_spec(*plugin, reference_count as nat)) {
            (Ok(p), Ok((key, endpoint, mode))) => p.api_key@ == key && p.endpoint@ == endpoint
                && p.mode == mode,
            (Err(e), Err(m)) => e@ == m,
            _ => false,
        },
{
    let keys = &plugin.api_keys;
    let mut i: usize = 0;
    let mut key: Option<Vec<char>> = None;
    assert(keys@.skip(0) =~= keys@);
    while key.is_none() && i < keys.len()
        invariant
            i <= keys@.len(),
            keys == &plugin.api_keys,
            key is None ==> first_key(keys@.skip(i as int)) == first_key(keys@),
            key matches Some(k) ==> first_key(keys@) == Some(k@),
        decreases keys.len() - i,
    {
        assert(keys@.skip(i as int).drop_first() =~= keys@.skip(i + 1));
        let t = trimmed(keys[i].as_str());
        if t.len() > 0 {
            key = Some(t);
        }
        i = i + 1;
    }
    let key = match key {
        Some(k) => k,
        None => {
            assert(keys@.skip(i as int) =~= Seq::<String>::empty());
            return Err(literal_string("plugins.image_generation.api_keys is empty"));
        },
    };
    let base_all = trimmed(plugin.base_url.as_str());
    let mut n: usize = base_all.len();
    assert(base_all@.take(n as int) =~= base_all@);
    while n > 0 && base_all[n - 1] == '/'
        invariant
            n <= base_all@.len(),
            strip_trailing_slashes(base_all@) == strip_trailing_slashes(base_all@.take(n as int)),
        decreases n,
    {
        assert(base_all@.take(n as int).drop_last() =~= base_all@.take(n - 1));
        n = n - 1;
    }
    assert(base_all@.take(base_all@.len() as int) =~= base_all@);
    if n == 0 {
        return Err(literal_string("plugins.image_generation.base_url is empty"));
    }
    let mode = if reference_count == 0 {
        ReferenceMode::Unsupported
    } else {
        reference_mode(plugin)
    };
    let mut endpoint: Vec<char> = Vec::new();
    push_range(&mut endpoint, &base_all, 0, n);
    assert(endpoint@ =~= base_all@.take(n as int));
    match mode {
        ReferenceMode::EditsMultipart => push_str(&mut endpoint, "/v1/images/edits"),
        _ => push_str(&mut endpoint, "/v1/images/generations"),
    }
    Ok(ImageRequestPlan { api_key: string_of(&key), endpoint: string_of(&endpoint), mode })
}

/// The JSON body fields of a generations request beyond model, prompt and
/// `n`.
pub struct PayloadPlan {
    pub size: Option<String>,
    /// RightCode's own aspect-ratio field.
    pub aspect_ratio: Option<String>,
    /// Reference images, base64-encoded.
    pub images: Vec<String>,
    pub response_format: Option<&'static str>,
}

pub open spec fn payload_aspect_ratio(provider_type: Seq<char>, aspect_ratio: Seq<char>) -> Option<
    Seq<char>,
> {
    if provider_type == "rightcode"@ && aspect_ratio.len() > 0 && aspect_ratio != "自动"@ {
        Some(aspect_ratio)
    } else {
        None
    }
}

/// With references the backend answers with a URL; without them, classic
/// OpenAI models are asked for base64 data.
pub open spec fn payload_response_format(
    provider_type: Seq<char>,
    model: Seq<char>,
    has_references: bool,
) -> Option<Seq<char>> {
    if has_references {
        Some("url"@)
    } else if provider_type != "rightcode"@ && !looks_gpt_image_spec(model) {
        Some("b64_json"@)
    } else {
        None
    }
}

pub open spec fn encoded_images(references: Seq<Vec<u8>>) -> Seq<Seq<char>> {
    references.map_values(|r: Vec<u8>| base64_standard_encode(r@))
}

pub open spec fn string_views(v: Seq<String>) -> Seq<Seq<char>> {
    v.map_values(|s: String| s@)
}

/// Plans a generations payload; `references` are only those the backend
/// takes inline.
pub fn plan_payload(
    plugin: &ImageGenerationPluginConfig,
    aspect_ratio: &str,
    resolution: &str,
    references: &Vec<Vec<u8>>,
) -> (r: PayloadPlan)
    ensures
        match r.size {
            Some(s) => resolve_size_spec(
                plugin.provider_type@,
                plugin.model@,
                aspect_ratio@,
                resolution@,
            ) == Some(s@),
            None => resolve_size_spec(
                plugin.provider_type@,
                plugin.model@,
                aspect_ratio@,
                resolution@,
            ) is None,
        },
        crate::platforms::onebot::opt_view(r.aspect_ratio) == payload_aspect_ratio(
            plugin.provider_type@,
            aspect_ratio@,
        ),
        string_views(r.images@) == encoded_images(references@),
        match r.response_format {
            Some(f) => payload_response_format(
                plugin.provider_type@,
                plugin.model@,
                references@.len() > 0,
            ) == Some(f@),
            None => payload_response_format(
                plugin.provider_type@,
                plugin.model@,
                references@.len() > 0,
            ) is None,
        },
{
    let rightcode = str_eq(plugin.provider_type.as_str(), "rightcode");
    let size = resolve_size(plugin, aspect_ratio, resolution);
    let ratio = if rightcode && !aspect_ratio.is_empty() && !str_eq(aspect_ratio, "自动") {
        Some(literal_of(aspect_ratio))
    } else {
        None
    };
    let mut images: Vec<String> = Vec::new();
    let mut i: usize = 0;
    while i < references.len()
        invariant
            i <= references@.len(),
            string_views(images@) == encoded_images(references@.take(i as int)),
        decreases references.len() - i,
    {
        let e = encode_base64(&references[i]);
        let ghost before = images@;
        images.push(e);
        assert(string_views(images@) =~= string_views(before).push(e@));
        assert(encoded_images(references@.take(i + 1)) =~= encoded_images(references@.take(i as int)).push(
            base64_standard_encode(references@[i as int]@),
        ));
        i = i + 1;
    }
    assert(references@.take(references@.len() as int) =~= references@);
    let response_format = if references.len() > 0 {
        Some("url")
    } else if !rightcode && !looks_gpt_image_model(plugin.model.as_str()) {
        Some("b64_json")
    } else {
        None
    };
    PayloadPlan { size, aspect_ratio: ratio, images, response_format }
}

fn literal_of(s: &str) -> (r: String)
    ensures
        r@ == s@,
{
    let v = chars_of(s);
    string_of(&v)
}

/// The prompt of a generation request, trimmed; refused when the plugin
/// is off or the prompt is blank.
pub fn validate_generation(plugin: &ImageGenerationPluginConfig, prompt: &str) -> (r: Result<
    String,
    String,
>)
    ensures
        !plugin.enabled ==> (r matches Err(e) && e@ == "image generation plugin is disabled"@),
        plugin.enabled && trim(prompt@).len() == 0 ==> (r matches Err(e) && e@
            == "prompt is required"@),
        plugin.enabled && trim(prompt@).len() > 0 ==> (r matches Ok(p) && p@ == trim(prompt@)),
{
    if !plugin.enabled {
        return Err(literal_string("image generation plugin is disabled"));
    }
    let t = trimmed(prompt);
    if t.len() == 0 {
        return Err(literal_string("prompt is required"));
    }
    Ok(string_of(&t))
}

/// A request option: the argument when given, else the configured
/// default, trimmed.
pub fn option_or_default(argument: &Option<String>, default: &String) -> (r: String)
    ensures
        r@ == trim(
            match argument {
                Some(a) => a@,
                None => default@,
            },
        ),
{
    let t = match argument {
        Some(a) => trimmed(a.as_str()),
        None => trimmed(default.as_str()),
    };
    string_of(&t)
}

/// The reference entries of the first `n` items that are not blank.
pub open spec fn nonblank_prefix(items: Seq<String>, n: int) -> Seq<Seq<char>>
    decreases n,
{
    if n <= 0 {
        Seq::empty()
    } else if trim(items[n - 1]@).len() == 0 {
        nonblank_prefix(items, n - 1)
    } else {
        nonblank_prefix(items, n - 1).push(items[n - 1]@)
    }
}

/// The reference images to resolve: the entries that are not blank, as
/// given.
pub fn reference_inputs(items: &Vec<String>) -> (r: Vec<String>)
    ensures
        string_views(r@) == nonblank_prefix(items@, items@.len() as int),
{
    let mut out: Vec<String> = Vec::new();
    let mut i: usize = 0;
    while i < items.len()
        invariant
            i <= items@.len(),
            string_views(out@) == nonblank_prefix(items@, i as int),
        decreases items.len() - i,
    {
        let t = trimmed(items[i].as_str());
        if t.len() > 0 {
            out.push(items[i].clone());
            assert(string_views(out@) =~= nonblank_prefix(items@, i + 1));
        }
        i = i + 1;
    }
    out
}

// ------------------------------ the API's answer ------------------------------

/// One entry of the `data` array of an image API answer: its `b64_json`
/// and `url` fields where they are strings.
pub struct ImageDatum {
    pub b64_json: Option<String>,
    pub url: Option<String>,
}

/// An image API answer: its `data` field where it is an array.
pub struct ImageResponse {
    pub data: Option<Vec<ImageDatum>>,
}

/// Where the generated image comes from: bytes that were in the answer, or a
/// URL to download.
pub enum GeneratedImage {
    Bytes(Vec<u8>),
    Download(String),
}

pub const MISSING_DATA: &'static str = "image response missing data array";

pub const EMPTY_DATA: &'static str = "image response data is empty";

pub const BAD_B64: &'static str = "failed to decode b64_json image";

pub const NO_IMAGE: &'static str = "image response contains neither b64_json nor url";

/// The first entry of `data` decides: inline base64 wins over a URL.
pub open spec fn extract_image_spec(response: ImageResponse) -> Result<Result<Seq<u8>, Seq<char>>, Seq<char>> {
    match response.data {
        None => Err(MISSING_DATA@),
        Some(items) => if items@.len() == 0 {
            Err(EMPTY_DATA@)
        } else {
            let first = items@[0];
            match first.b64_json {
                Some(b) => match base64_standard_decode(b@) {
                    Some(bytes) => Ok(Ok(bytes)),
                    None => Err(BAD_B64@),
                },
                None => match first.url {
                    Some(u) => Ok(Err(u@)),
                    None => Err(NO_IMAGE@),
                },
            }
        },
    }
}

/// Takes the image out of an image API answer (see `extract_image_spec`;
/// `Ok(Ok(bytes))` stands for the bytes, `Ok(Err(url))` for a download).
pub fn extract_image(response: &ImageResponse) -> (r: Result<GeneratedImage, String>)
    ensures
        match extract_image_spec(*response) {
            Ok(Ok(bytes)) => r matches Ok(GeneratedImage::Bytes(b)) && b@ == bytes,
            Ok(Err(url)) => r matches Ok(GeneratedImage::Download(u)) && u@ == url,
            Err(e) => r matches Err(m) && m@ == e,
        },
{
    let items = match &response.data {
        None => {
            return Err(literal_of(MISSING_DATA));
        },
        Some(items) => items,
    };
    if items.len() == 0 {
        return Err(literal_of(EMPTY_DATA));
    }
    let first = &items[0];
    match &first.b64_json {
        Some(b) => match decode_base64(b.as_str()) {
            Some(bytes) => Ok(GeneratedImage::Bytes(bytes)),
            None => Err(literal_of(BAD_B64)),
        },
        None => match &first.url {
            Some(u) => Ok(GeneratedImage::Download(string_of(&chars_of(u.as_str())))),
            None => Err(literal_of(NO_IMAGE)),
        },
    }
}

/// How much of an error body an API error quotes.
pub const API_ERROR_PREVIEW: usize = 500;

/// The error for an answer whose status is not a success: the status as
/// written by the HTTP client, and the start of the body.
pub fn image_api_error(status: &str, body: &str) -> (r: String)
    ensures
        r@ == "image API error ("@ + status@ + "): "@ + preview_spec(body@, API_ERROR_PREVIEW),
{
    let mut v = chars_of("image API error (");
    push_str(&mut v, status);
    push_str(&mut v, "): ");
    let p = preview(body, API_ERROR_PREVIEW);
    push_str(&mut v, p.as_str());
    string_of(&v)
}

/// The file a generated image is saved as: the prompt's slug, then the
/// local time stamp (`%Y%m%d-%H%M%S`).
pub fn image_file_name(prompt: &str, stamp: &str) -> (r: String)
    ensures
        r@ == slug_spec(prompt@) + "-"@ + stamp@ + ".png"@,
{
    let s = slug(prompt);
    let mut v = chars_of(s.as_str());
    push_str(&mut v, "-");
    push_str(&mut v, stamp);
    push_str(&mut v, ".png");
    string_of(&v)
}

} // verus!
