use miyu::tools::vision::{image_timeout_message, image_timeout_seconds};
use miyu::tools::vision::{
    active_text_pool_for_vision, analysis_prompt, analysis_source, configured_print_size,
    download_mime, image_data_url, local_image_data_url, mime_from_path, requested_print_size,
    vision_provider, ContextImageRef, FetchStep, ImageData, ImageSource, ModelChoice,
    ReferenceSource, ResolveStep, ResolvedContextImage, ScopedImage, ScopedVisionState,
    VisionError, VisionProvider, DEFAULT_ANALYSIS_PROMPT, MAX_IMAGE_BYTES,
};

fn choice(provider: &str, model: &str, sees: bool) -> ModelChoice {
    ModelChoice { provider_id: provider.to_string(), model: model.to_string(), accepts_images: sees }
}

#[test]
fn vision_uses_the_active_text_pool_when_it_can_see() {
    let pool = vec![choice("default", "gpt-4o", true)];
    let chosen = active_text_pool_for_vision(true, pool).expect("a seeing pool is used");
    assert_eq!(chosen.len(), 1);
    assert_eq!(chosen[0].model, "gpt-4o");

    // Switched off: the usual route.
    assert!(active_text_pool_for_vision(false, vec![choice("default", "gpt-4o", true)]).is_none());

    // One blind model in a balanced pool rules the pool out.
    let mixed = vec![choice("default", "gpt-4o", true), choice("default", "blind-model", false)];
    assert!(active_text_pool_for_vision(true, mixed).is_none());
    assert!(active_text_pool_for_vision(true, Vec::new()).is_none());
}

#[test]
fn vision_provider_precedence() {
    match vision_provider(" vision ", true, vec![choice("a", "m", true)], Vec::new()) {
        VisionProvider::Configured => {},
        _ => panic!("an explicit provider wins"),
    }
    match vision_provider("", true, vec![choice("a", "m", true)], Vec::new()) {
        VisionProvider::TextPool(p) => assert_eq!(p[0].provider_id, "a"),
        _ => panic!("the seeing text pool is used"),
    }
    let multimodal = vec![choice("b", "blind", false), choice("c", "eyes", true)];
    match vision_provider("", true, vec![choice("a", "m", false)], multimodal) {
        VisionProvider::MultimodalPool(p) => {
            assert_eq!(p.len(), 1);
            assert_eq!(p[0].model, "eyes");
        },
        _ => panic!("the image-capable multimodal models are used"),
    }
    match vision_provider("", false, Vec::new(), vec![choice("b", "blind", false)]) {
        VisionProvider::Configured => {},
        _ => panic!("nothing else can see"),
    }
}

#[test]
fn print_sizes_are_capped_and_spelled() {
    assert_eq!(requested_print_size(80, 40, None).as_deref(), Some("80x40"));
    assert_eq!(requested_print_size(1000, 0, None).as_deref(), Some("300x"));
    assert_eq!(requested_print_size(0, 999, None).as_deref(), Some("x200"));
    assert_eq!(requested_print_size(0, 0, Some(" 60x30 ")).as_deref(), Some("60x30"));
    assert_eq!(requested_print_size(0, 0, Some("   ")), None);
    assert_eq!(requested_print_size(0, 0, None), None);
    assert_eq!(configured_print_size(200, 50, 50, 60), "100x30");
    assert_eq!(configured_print_size(1, 1, 10, 10), "1x1");
    assert_eq!(configured_print_size(1000, 1000, 100, 100), "300x200");
}

#[test]
fn image_mime_follows_the_extension() {
    assert_eq!(mime_from_path("/tmp/a.JPG").unwrap(), "image/jpeg");
    assert_eq!(mime_from_path("a.jpeg").unwrap(), "image/jpeg");
    assert_eq!(mime_from_path("dir.d/x.png").unwrap(), "image/png");
    assert_eq!(mime_from_path("x.webp").unwrap(), "image/webp");
    assert_eq!(mime_from_path("x.gif/").unwrap(), "image/gif");
    assert_eq!(
        mime_from_path("notes.TXT").unwrap_err(),
        "unsupported image extension: txt; supported: jpg, jpeg, png, webp, gif"
    );
    // A leading dot starts a hidden name, not an extension.
    assert_eq!(
        mime_from_path("/home/u/.png").unwrap_err(),
        "unsupported image extension: ; supported: jpg, jpeg, png, webp, gif"
    );
}

#[test]
fn data_urls_carry_standard_base64() {
    assert_eq!(image_data_url("image/png", &b"abc".to_vec()), "data:image/png;base64,YWJj");
    assert_eq!(
        local_image_data_url("/x/pic.gif", &b"hi".to_vec()).unwrap(),
        "data:image/gif;base64,aGk="
    );
    assert!(local_image_data_url("/x/pic.bmp", &b"hi".to_vec()).is_err());
}

#[test]
fn download_mime_keeps_image_types_only() {
    assert_eq!(download_mime(Some("image/jpeg; charset=binary")), "image/jpeg");
    assert_eq!(download_mime(Some(" image/webp ")), "image/webp");
    assert_eq!(download_mime(Some("text/html")), "image/png");
    assert_eq!(download_mime(None), "image/png");
}

#[test]
fn analysis_prompt_and_source() {
    assert_eq!(analysis_prompt(None), DEFAULT_ANALYSIS_PROMPT);
    assert_eq!(analysis_prompt(Some("   ")), DEFAULT_ANALYSIS_PROMPT);
    assert_eq!(analysis_prompt(Some("  what is this? ")), "what is this?");
    assert_eq!(analysis_source(false, "x.png").err(), Some(VisionError::Disabled));
    assert_eq!(analysis_source(true, "  ").err(), Some(VisionError::ImageRequired));
    match analysis_source(true, " https://img.example/a.png ") {
        Ok(ImageSource::Url(u)) => assert_eq!(u, "https://img.example/a.png"),
        _ => panic!("a URL is sent as it is"),
    }
    match analysis_source(true, "~/a.png") {
        Ok(ImageSource::Local(p)) => assert_eq!(p, "~/a.png"),
        _ => panic!("a path is read locally"),
    }
}

fn scope(general: bool) -> ScopedVisionState {
    ScopedVisionState::new(
        vec!["/cache/in/a.png".to_string()],
        vec![
            ContextImageRef { id: "context_image_1".to_string(), message_id: "90".to_string(), image_index: 1 },
            ContextImageRef { id: "context_image_2".to_string(), message_id: "91".to_string(), image_index: 1 },
        ],
        true,
        general,
    )
}

#[test]
fn scoped_analysis_admits_only_the_turns_images() {
    let mut state = scope(false);
    assert!(matches!(state.begin_analysis("  ", false), Err(VisionError::ImageRequired)));
    assert_eq!(state.calls_made(), 0);
    assert!(matches!(state.begin_analysis("context_image_1", false), Ok(ScopedImage::Context(id)) if id == "context_image_1"));
    assert!(matches!(state.begin_analysis("https://evil.example/x.png", false), Err(VisionError::NotInTurn)));
    assert!(matches!(state.begin_analysis("https://q.qlogo.cn/x", true), Ok(ScopedImage::General(_))));
    assert!(matches!(state.begin_analysis(" /cache/in/a.png ", false), Ok(ScopedImage::Local(p)) if p == "/cache/in/a.png"));
    assert!(state.allows("/cache/in/a.png"));
    assert!(state.allows("/cache//in/./a.png"));
    assert!(!state.allows("/cache/in/b.png"));
    assert!(matches!(state.begin_analysis("x", false), Ok(_)));
    assert_eq!(state.calls_made(), 5);
    assert!(matches!(state.begin_analysis("x", false), Ok(_)));
    assert!(matches!(state.begin_analysis("x", false), Err(VisionError::CallLimit)));
    assert_eq!(state.calls_made(), 7);

    let mut open = scope(true);
    assert!(matches!(open.begin_analysis("https://evil.example/x.png", false), Ok(ScopedImage::General(_))));
}

#[test]
fn reference_sources_follow_the_same_scope() {
    let state = scope(false);
    assert_eq!(state.reference_source(" ", false).err(), Some(VisionError::ReferenceEmpty));
    assert!(matches!(state.reference_source("context_image_2", false), Ok(ReferenceSource::Context(_))));
    assert_eq!(
        state.reference_source("https://x.example/a.png", false).err(),
        Some(VisionError::ReferenceNotInTurn)
    );
    assert!(matches!(state.reference_source("https://q.qlogo.cn/a", true), Ok(ReferenceSource::Download(_))));
    assert!(matches!(state.reference_source("/tmp/a.png", false), Ok(ReferenceSource::AttachedFile(_))));
    let open = scope(true);
    assert!(matches!(open.reference_source("/tmp/a.png", false), Ok(ReferenceSource::File(_))));
    assert!(matches!(open.reference_source("https://x.example/a.png", false), Ok(ReferenceSource::Download(_))));
}

/// Drives one context-image resolution the way the host does; counts
/// platform lookups.
fn resolve(state: &mut ScopedVisionState, id: &str, lookups: &mut usize) -> Result<ResolvedContextImage, VisionError> {
    match state.begin_resolve(id) {
        ResolveStep::Ready(r) => Ok(r),
        ResolveStep::Failed(e) => Err(e),
        ResolveStep::Fetch { message_id: _, image_index } => {
            *lookups += 1;
            let images = vec![ImageData { mime: "image/png".to_string(), data: vec![1u8, 2, 3] }];
            match state.finish_fetch(id, image_index, Some(images)) {
                FetchStep::Ready(r) => Ok(r),
                FetchStep::Failed(e) => Err(e),
                FetchStep::Store { image, digest } => {
                    let path = format!("/cache/platform_images/qq/{digest}.png");
                    state.commit_cache(id, image, digest, Some(path))
                },
            }
        },
    }
}

#[test]
fn context_images_reuse_resolved_ids_and_duplicate_content_cache() {
    let mut state = scope(false);
    let mut lookups = 0;
    let first = resolve(&mut state, "context_image_1", &mut lookups).unwrap();
    let second = resolve(&mut state, "context_image_1", &mut lookups).unwrap();
    let duplicate = resolve(&mut state, "context_image_2", &mut lookups).unwrap();

    assert_eq!(lookups, 2);
    assert_eq!(first.digest, second.digest);
    assert_eq!(
        first.digest,
        "039058c6f2c0cb492c533b0a4d14ef77cc0f78abccced5287d84a1a2011cfb81"
    );
    assert_eq!(first.cache_path, second.cache_path);
    assert_eq!(first.cache_path, duplicate.cache_path);
    assert_eq!(state.bytes_held(), 3);
    assert_eq!(
        resolve(&mut state, "context_image_999", &mut lookups).err(),
        Some(VisionError::UnknownContextImage)
    );
    assert_eq!(lookups, 2);
}

#[test]
fn context_fetches_are_budgeted_and_failures_give_them_back() {
    let refs = (1..=6)
        .map(|i| ContextImageRef { id: format!("c{i}"), message_id: format!("m{i}"), image_index: 2 })
        .collect();
    let mut state = ScopedVisionState::new(Vec::new(), refs, true, false);
    // Position 2 is missing: the fetch is given back.
    assert!(matches!(state.begin_resolve("c1"), ResolveStep::Fetch { .. }));
    assert_eq!(state.fetches_made(), 1);
    let one = vec![ImageData { mime: "image/png".to_string(), data: vec![9u8] }];
    assert!(matches!(state.finish_fetch("c1", 2, Some(one)), FetchStep::Failed(VisionError::NoLongerAvailable)));
    assert_eq!(state.fetches_made(), 0);
    assert!(matches!(state.finish_fetch("c1", 2, None), FetchStep::Failed(VisionError::LookupFailed)));
    assert_eq!(state.fetches_made(), 0);
    for id in ["c1", "c2", "c3", "c4"] {
        assert!(matches!(state.begin_resolve(id), ResolveStep::Fetch { .. }));
    }
    assert!(matches!(state.begin_resolve("c5"), ResolveStep::Failed(VisionError::FetchLimit)));
    // Oversized images are refused and give their fetch back.
    let big = vec![ImageData { mime: "image/png".to_string(), data: vec![0u8; 8] }, ImageData { mime: "image/png".to_string(), data: vec![0u8; MAX_IMAGE_BYTES + 1] }];
    assert!(matches!(state.finish_fetch("c4", 2, Some(big)), FetchStep::Failed(VisionError::TooLarge(n)) if n == MAX_IMAGE_BYTES + 1));
    assert_eq!(state.fetches_made(), 3);
    // A failed cache write gives back the bytes and the fetch.
    let two = vec![ImageData { mime: "image/png".to_string(), data: vec![1u8] }, ImageData { mime: "image/png".to_string(), data: vec![7u8, 7] }];
    match state.finish_fetch("c3", 2, Some(two)) {
        FetchStep::Store { image, digest } => {
            assert_eq!(state.bytes_held(), 2);
            assert_eq!(state.commit_cache("c3", image, digest, None).err(), Some(VisionError::CacheFailed));
        },
        _ => panic!("new content is to be stored"),
    }
    assert_eq!(state.bytes_held(), 0);
    assert_eq!(state.fetches_made(), 2);
}

#[test]
fn context_bytes_are_budgeted() {
    let refs = (1..=3)
        .map(|i| ContextImageRef { id: format!("c{i}"), message_id: format!("m{i}"), image_index: 1 })
        .collect();
    let mut state = ScopedVisionState::new(Vec::new(), refs, true, false);
    for (id, fill) in [("c1", 1u8), ("c2", 2u8)] {
        assert!(matches!(state.begin_resolve(id), ResolveStep::Fetch { .. }));
        let images = vec![ImageData { mime: "image/png".to_string(), data: vec![fill; MAX_IMAGE_BYTES] }];
        match state.finish_fetch(id, 1, Some(images)) {
            FetchStep::Store { image, digest } => {
                assert!(state.commit_cache(id, image, digest, Some(format!("/c/{id}"))).is_ok());
            },
            _ => panic!("new content is to be stored"),
        }
    }
    assert!(matches!(state.begin_resolve("c3"), ResolveStep::Fetch { .. }));
    let images = vec![ImageData { mime: "image/png".to_string(), data: vec![3u8; 1] }];
    assert!(matches!(state.finish_fetch("c3", 1, Some(images)), FetchStep::Failed(VisionError::ByteLimit)));
    assert_eq!(state.bytes_held(), 2 * MAX_IMAGE_BYTES);
    assert_eq!(state.fetches_made(), 2);
}

#[test]
fn analyses_are_cached_by_content_and_prompt() {
    let mut state = scope(false);
    assert_eq!(state.cached_analysis("d1", "p"), None);
    state.remember_analysis("d1", "p", "a cat".to_string());
    state.remember_analysis("d1", "q", "a dog".to_string());
    assert_eq!(state.cached_analysis("d1", "p").as_deref(), Some("a cat"));
    state.remember_analysis("d1", "p", "a lion".to_string());
    assert_eq!(state.cached_analysis("d1", "p").as_deref(), Some("a lion"));
    assert_eq!(state.cached_analysis("d1", "q").as_deref(), Some("a dog"));
    assert_eq!(state.cached_analysis("d2", "p"), None);
}

#[test]
fn vision_calls_wait_at_least_one_second() {
    assert_eq!(image_timeout_seconds(0), 1);
    assert_eq!(image_timeout_seconds(45), 45);
    assert_eq!(image_timeout_message(0), "vision model pool timed out after 1 seconds");
    assert_eq!(image_timeout_message(20), "vision model pool timed out after 20 seconds");
}
