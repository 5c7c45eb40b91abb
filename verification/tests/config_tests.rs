use gpu_runtime::config::{resolve_asset_dir, resolve_config, resolve_optional_path, TranscribeParams};
use gpu_runtime::dispatch::{
    invalid_params_message, invalid_request_message, route_method, unknown_method_message, Route,
};

fn expect_err<T>(r: Result<T, String>) -> String {
    match r {
        Err(e) => e,
        Ok(_) => panic!("expected an error"),
    }
}

fn empty_params(input_path: &str) -> TranscribeParams {
    TranscribeParams {
        input_path: input_path.to_owned(),
        output_dir: None,
        model_path: None,
        vad_model_path: None,
        whisper_path: None,
        ffmpeg_path: None,
        vk_icd_filenames: None,
        threads: None,
        beam_size: None,
        best_of: None,
        max_len_chars: None,
        split_on_word: None,
        vad_threshold: None,
        vad_min_speech_ms: None,
        vad_min_sil_ms: None,
        vad_pad_ms: None,
        no_speech_thold: None,
        max_context: None,
        dedup_merge_gap_ms: None,
        translate: None,
        language: None,
        dry_run: None,
    }
}

#[test]
fn resolves_optional_paths() {
    assert_eq!(resolve_optional_path(Some(" custom "), None, "fallback"), "custom");
    assert_eq!(
        resolve_optional_path(Some(""), Some("asset.bin".to_owned()), "fallback"),
        "asset.bin"
    );
    assert_eq!(resolve_optional_path(None, None, "fallback"), "fallback");
}

#[test]
fn transcribe_requires_input_path() {
    let err = expect_err(resolve_config(empty_params(" "), None));
    assert!(err.contains("input_path is required"));
}

#[test]
fn applies_defaults_per_field() {
    let config = resolve_config(empty_params("clip.mp3"), None).unwrap();
    assert_eq!(config.input_path, "clip.mp3");
    assert_eq!(config.model_path, "models/ggml-large-v3.bin");
    assert_eq!(config.vad_model_path, "models/ggml-silero-v6.2.0.bin");
    assert_eq!(config.whisper_path, "./build/bin/whisper-cli");
    assert_eq!(config.ffmpeg_path, "ffmpeg");
    assert!(config.threads >= 1);
    assert_eq!(config.beam_size, 8);
    assert_eq!(config.best_of, 8);
    assert_eq!(config.max_len_chars, 60);
    assert_eq!(config.split_on_word, true);
    assert_eq!(config.vad_threshold, "0.35");
    assert_eq!(config.vad_min_speech_ms, 200);
    assert_eq!(config.vad_min_sil_ms, 250);
    assert_eq!(config.vad_pad_ms, 80);
    assert_eq!(config.no_speech_thold, "0.75");
    assert_eq!(config.max_context, 0);
    assert_eq!(config.dedup_merge_gap_ms, 600);
    assert_eq!(config.translate, true);
    assert_eq!(config.language, "auto");
    assert_eq!(config.dry_run, false);
}

#[test]
fn asset_dir_supplies_resource_defaults() {
    let mut params = empty_params("clip.mp3");
    params.whisper_path = Some("  ".to_owned());
    let config = resolve_config(params, Some("/opt/assets".to_owned())).unwrap();
    assert_eq!(config.model_path, "/opt/assets/models/ggml-large-v3.bin");
    assert_eq!(config.vad_model_path, "/opt/assets/models/ggml-silero-v6.2.0.bin");
    assert_eq!(config.whisper_path, "/opt/assets/bin/whisper-cli");
    assert_eq!(config.ffmpeg_path, "/opt/assets/bin/ffmpeg");
}

#[test]
fn blank_vk_icd_value_is_dropped() {
    let mut params = empty_params("clip.mp3");
    params.vk_icd_filenames = Some(" ".to_owned());
    let config = resolve_config(params, None).unwrap();
    assert_eq!(config.vk_icd_filenames, None);
    let mut params = empty_params("clip.mp3");
    params.vk_icd_filenames = Some("vk.json".to_owned());
    let config = resolve_config(params, None).unwrap();
    assert_eq!(config.vk_icd_filenames, Some("vk.json".to_owned()));
}

#[test]
fn handles_unknown_methods() {
    assert!(matches!(route_method("nope"), Route::Unknown));
    assert_eq!(unknown_method_message("nope"), "Unknown method: nope");
}

#[test]
fn formats_protocol_error_messages() {
    assert_eq!(invalid_request_message("bad line"), "Invalid request: bad line");
    assert_eq!(invalid_params_message("bad shape"), "Invalid transcribe params: bad shape");
}

#[test]
fn routes_known_methods() {
    assert!(matches!(route_method("ping"), Route::Ping));
    assert!(matches!(route_method("list_devices"), Route::ListDevices));
    assert!(matches!(route_method("smoke_test"), Route::SmokeTest));
    assert!(matches!(route_method("transcribe"), Route::Transcribe));
}

#[test]
fn resolves_asset_dir_sources() {
    let temp = tempfile::tempdir().unwrap();
    let assets = tempfile::Builder::new()
        .prefix("assets")
        .rand_bytes(0)
        .tempdir_in(temp.path())
        .unwrap();
    let assets_path = assets.path().to_string_lossy().into_owned();

    // an existing environment-given directory wins
    let chosen = resolve_asset_dir(Some(&assets_path), None, None).unwrap();
    assert_eq!(chosen, assets_path);

    // a missing environment directory falls through to the working directory
    let missing = temp.path().join("missing").to_string_lossy().into_owned();
    let cwd = temp.path().to_string_lossy().into_owned();
    let chosen = resolve_asset_dir(Some(&missing), None, Some(&cwd)).unwrap();
    assert!(chosen.ends_with("assets"));

    // nothing found anywhere
    assert_eq!(resolve_asset_dir(Some(&missing), None, None), None);
}
