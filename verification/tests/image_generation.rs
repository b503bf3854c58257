use miyu::config::ImageGenerationPluginConfig;
use miyu::tools::image_generation::{
    assistant_instruction, looks_gpt_image_model, option_or_default, plan_payload, plan_request,
    preview, reference_inputs, reference_mode, resolve_size, slug, validate_generation,
    ReferenceMode, EMITTED_INSTRUCTION, PRINTED_INSTRUCTION,
};
use miyu::tools::image_generation::{
    extract_image, image_api_error, image_file_name, GeneratedImage, ImageDatum, ImageResponse,
    BAD_B64, EMPTY_DATA, MISSING_DATA, NO_IMAGE,
};

fn plugin(provider_type: &str, model: &str) -> ImageGenerationPluginConfig {
    ImageGenerationPluginConfig {
        enabled: true,
        provider_type: provider_type.to_string(),
        model: model.to_string(),
        api_keys: vec!["  ".to_string(), " key-1 ".to_string()],
        base_url: " https://api.example/// ".to_string(),
        default_aspect_ratio: "1:1".to_string(),
        default_resolution: "1K".to_string(),
    }
}

#[test]
fn reference_mode_follows_the_backend() {
    assert_eq!(reference_mode(&plugin("rightcode", "gpt-image-2")), ReferenceMode::GenerationsJson);
    assert_eq!(reference_mode(&plugin("openai", "gpt-image-1")), ReferenceMode::EditsMultipart);
    assert_eq!(reference_mode(&plugin("openai", "dall-e-3")), ReferenceMode::Unsupported);
}

#[test]
fn generations_payload_carries_reference_images_only_when_given() {
    let plugin = plugin("rightcode", "gpt-image-2");
    let bare = plan_payload(&plugin, "1:1", "1K", &Vec::new());
    assert!(bare.images.is_empty());
    assert_eq!(bare.response_format, None);

    let with_reference = plan_payload(&plugin, "1:1", "1K", &vec![vec![1, 2, 3]]);
    assert_eq!(with_reference.images.len(), 1);
    assert_eq!(with_reference.images[0], "AQID");
    assert_eq!(with_reference.response_format, Some("url"));
}

#[test]
fn the_reply_is_never_asked_to_quote_the_local_path() {
    for instruction in [PRINTED_INSTRUCTION, EMITTED_INSTRUCTION] {
        assert!(
            instruction.contains("Do not put the local file path in your reply"),
            "{instruction}"
        );
        assert!(!instruction.contains("include the exact local image path"), "{instruction}");
        assert!(!instruction.contains("final_response_must_include_path"), "{instruction}");
    }
    assert_eq!(assistant_instruction(true), PRINTED_INSTRUCTION);
    assert_eq!(assistant_instruction(false), EMITTED_INSTRUCTION);
}

#[test]
fn sizes_follow_provider_ratio_and_resolution() {
    let rc = plugin("rightcode", "x");
    assert_eq!(resolve_size(&rc, "16:9", "4K").as_deref(), Some("2048x1152"));
    assert_eq!(resolve_size(&rc, "16:9", "1K").as_deref(), Some("1536x864"));
    assert_eq!(resolve_size(&rc, "自动", "1K"), None);
    let gpt = plugin("openai", "GPT-Image-1");
    assert!(looks_gpt_image_model("GPT-Image-1"));
    assert_eq!(resolve_size(&gpt, "9:16", "").as_deref(), Some("1024x1536"));
    assert_eq!(resolve_size(&gpt, "自动", "").as_deref(), Some("auto"));
    let classic = plugin("openai", "dall-e-3");
    assert_eq!(resolve_size(&classic, "21:9", "").as_deref(), Some("1792x1024"));
    assert_eq!(resolve_size(&classic, "1:1", "").as_deref(), Some("1024x1024"));
}

#[test]
fn payload_fields_depend_on_the_backend() {
    let classic = plan_payload(&plugin("openai", "dall-e-3"), "3:2", "1K", &Vec::new());
    assert_eq!(classic.response_format, Some("b64_json"));
    assert_eq!(classic.aspect_ratio, None);
    let rc = plan_payload(&plugin("rightcode", "m"), "16:9", "2K", &Vec::new());
    assert_eq!(rc.aspect_ratio.as_deref(), Some("16:9"));
    let auto = plan_payload(&plugin("rightcode", "m"), "自动", "2K", &Vec::new());
    assert_eq!(auto.aspect_ratio, None);
}

#[test]
fn requests_pick_key_endpoint_and_route() {
    let gpt = plugin("openai", "gpt-image-1");
    let plan = plan_request(&gpt, 2).unwrap();
    assert_eq!(plan.api_key, "key-1");
    assert_eq!(plan.endpoint, "https://api.example/v1/images/edits");
    assert_eq!(plan.mode, ReferenceMode::EditsMultipart);
    let plain = plan_request(&gpt, 0).unwrap();
    assert_eq!(plain.endpoint, "https://api.example/v1/images/generations");
    assert_eq!(plain.mode, ReferenceMode::Unsupported);

    let mut no_key = plugin("openai", "x");
    no_key.api_keys = vec![" ".to_string()];
    assert_eq!(
        plan_request(&no_key, 0).err().as_deref(),
        Some("plugins.image_generation.api_keys is empty")
    );
    let mut no_base = plugin("openai", "x");
    no_base.base_url = " /// ".to_string();
    assert_eq!(
        plan_request(&no_base, 0).err().as_deref(),
        Some("plugins.image_generation.base_url is empty")
    );
}

#[test]
fn prompts_options_and_references_are_cleaned() {
    let mut p = plugin("openai", "x");
    assert_eq!(validate_generation(&p, "  a cat ").unwrap(), "a cat");
    assert_eq!(validate_generation(&p, "   ").err().as_deref(), Some("prompt is required"));
    p.enabled = false;
    assert_eq!(
        validate_generation(&p, "a cat").err().as_deref(),
        Some("image generation plugin is disabled")
    );
    assert_eq!(option_or_default(&Some(" 3:2 ".to_string()), &"1:1".to_string()), "3:2");
    assert_eq!(option_or_default(&None, &" 4K".to_string()), "4K");
    let refs = reference_inputs(&vec![" a.png".to_string(), "  ".to_string(), "b".to_string()]);
    assert_eq!(refs, vec![" a.png".to_string(), "b".to_string()]);
}

#[test]
fn slugs_and_previews() {
    assert_eq!(slug("A  cat -- on_a   Mat!!"), "a-cat-on-a-mat");
    assert_eq!(slug("猫猫"), "image");
    assert_eq!(slug("---"), "image");
    assert_eq!(slug(&"ab ".repeat(30)).chars().count(), 48);
    assert_eq!(preview("  a \n b\t c  ", 10), "a b c");
    assert_eq!(preview("abcdef", 3), "abc...");
}

fn datum(b64: Option<&str>, url: Option<&str>) -> ImageDatum {
    ImageDatum { b64_json: b64.map(|s| s.to_string()), url: url.map(|s| s.to_string()) }
}

fn extract_error(response: ImageResponse) -> String {
    match extract_image(&response) {
        Err(e) => e,
        Ok(_) => "<image>".to_string(),
    }
}

#[test]
fn image_answers_prefer_inline_base64_then_a_url() {
    match extract_image(&ImageResponse { data: Some(vec![datum(Some("aGk="), Some("https://x/y.png"))]) }) {
        Ok(GeneratedImage::Bytes(b)) => assert_eq!(b, b"hi".to_vec()),
        _ => panic!("inline bytes win"),
    }
    match extract_image(&ImageResponse { data: Some(vec![datum(None, Some("https://x/y.png")), datum(Some("aGk="), None)]) }) {
        Ok(GeneratedImage::Download(u)) => assert_eq!(u, "https://x/y.png"),
        _ => panic!("the first entry decides"),
    }
    assert_eq!(extract_error(ImageResponse { data: None }), MISSING_DATA);
    assert_eq!(extract_error(ImageResponse { data: Some(vec![]) }), EMPTY_DATA);
    assert_eq!(extract_error(ImageResponse { data: Some(vec![datum(Some("not base64!"), None)]) }), BAD_B64);
    assert_eq!(extract_error(ImageResponse { data: Some(vec![datum(None, None)]) }), NO_IMAGE);
}

#[test]
fn api_errors_quote_a_preview_and_files_are_named_by_slug() {
    assert_eq!(image_api_error("400 Bad Request", "bad  prompt"), "image API error (400 Bad Request): bad prompt");
    let long = "x".repeat(600);
    let e = image_api_error("500 Internal Server Error", &long);
    assert!(e.starts_with("image API error (500 Internal Server Error): xxx"));
    assert!(e.len() < 600);
    assert_eq!(image_file_name("A Cat, on Mars!", "20240102-030405"), format!("{}-20240102-030405.png", slug("A Cat, on Mars!")));
}
