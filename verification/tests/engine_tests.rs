use gpu_runtime::config::{resolve_config, TranscribeParams};
use gpu_runtime::engine::{
    collect_inputs, ensure_executable_available, ensure_path_exists, is_up_to_date_with_modified,
    render_invocation, Engine, JobAction, JobEvent, StepAct,
};
use std::io::Write;
use std::path::{Path, PathBuf};
use std::time::{SystemTime, UNIX_EPOCH};

fn expect_err<T>(r: Result<T, String>) -> String {
    match r {
        Err(e) => e,
        Ok(_) => panic!("expected an error"),
    }
}

/// Create a file with exactly `name` inside `dir` (removed with the dir).
fn make_file(dir: &Path, name: &str, contents: &str) -> PathBuf {
    let mut file = tempfile::Builder::new()
        .prefix(name)
        .rand_bytes(0)
        .tempfile_in(dir)
        .unwrap();
    file.write_all(contents.as_bytes()).unwrap();
    file.flush().unwrap();
    let (_file, path) = file.keep().unwrap();
    path
}

fn params_for(input_path: &str) -> TranscribeParams {
    TranscribeParams {
        input_path: input_path.to_owned(),
        output_dir: None,
        model_path: None,
        vad_model_path: None,
        whisper_path: None,
        ffmpeg_path: None,
        vk_icd_filenames: None,
        threads: Some(1),
        beam_size: Some(1),
        best_of: Some(1),
        max_len_chars: Some(1),
        split_on_word: Some(true),
        vad_threshold: Some("0.1".to_owned()),
        vad_min_speech_ms: Some(1),
        vad_min_sil_ms: Some(1),
        vad_pad_ms: Some(1),
        no_speech_thold: Some("0.1".to_owned()),
        max_context: Some(0),
        dedup_merge_gap_ms: Some(100),
        translate: Some(true),
        language: Some("auto".to_owned()),
        dry_run: Some(true),
    }
}

/// Answers for the engine's questions about the outside world.
struct World {
    /// exit status per command, in order; missing entries succeed
    run_results: Vec<bool>,
    /// (input mtime, output mtime) per staleness probe, in order
    mtimes: Vec<(Option<u64>, Option<u64>)>,
    /// contents handed back per subtitle read, in order
    reads: Vec<Option<String>>,
}

impl World {
    fn fresh() -> World {
        World { run_results: Vec::new(), mtimes: Vec::new(), reads: Vec::new() }
    }
}

/// Drive the engine to completion, performing its actions against `world`;
/// returns the job count, the recorded outputs, the emitted event lines,
/// and the files written.
fn drive(
    engine: &mut Engine,
    world: World,
) -> Result<(usize, Vec<String>, Vec<String>, Vec<(String, String)>), String> {
    let mut lines: Vec<String> = Vec::new();
    let mut writes: Vec<(String, String)> = Vec::new();
    let mut runs = world.run_results.into_iter();
    let mut mtimes = world.mtimes.into_iter();
    let mut reads = world.reads.into_iter();
    let mut act = engine.step(JobEvent::Done);
    loop {
        let ev = match act {
            StepAct::Finished { jobs, outputs } => return Ok((jobs, outputs, lines, writes)),
            StepAct::Fail(m) => return Err(m),
            StepAct::Next(JobAction::EmitLine(line)) => {
                lines.push(line);
                JobEvent::Done
            },
            StepAct::Next(JobAction::CreateDirAll(_path)) => JobEvent::Done,
            StepAct::Next(JobAction::QueryMtimes { .. }) => {
                let (input_modified, output_modified) = mtimes.next().unwrap_or((None, None));
                JobEvent::Mtimes { input_modified, output_modified }
            },
            StepAct::Next(JobAction::Run { .. }) => JobEvent::RunExited {
                success: runs.next().unwrap_or(true),
            },
            StepAct::Next(JobAction::ReadFile(_path)) => {
                JobEvent::FileContent(reads.next().unwrap_or(None))
            },
            StepAct::Next(JobAction::WriteFile { path, content }) => {
                writes.push((path, content));
                JobEvent::Done
            },
        };
        act = engine.step(ev);
    }
}

#[test]
fn handles_modified_errors() {
    let now = SystemTime::now().duration_since(UNIX_EPOCH).unwrap().as_millis() as u64;
    assert!(!is_up_to_date_with_modified(None, Some(now)));
    assert!(!is_up_to_date_with_modified(Some(now), None));
}

#[test]
fn up_to_date_compares_times() {
    assert!(is_up_to_date_with_modified(Some(5), Some(5)));
    assert!(is_up_to_date_with_modified(Some(5), Some(9)));
    assert!(!is_up_to_date_with_modified(Some(9), Some(5)));
    assert!(!is_up_to_date_with_modified(None, None));
}

#[test]
fn ensures_paths_and_executables() {
    let temp = tempfile::tempdir().unwrap();
    let file_path = make_file(temp.path(), "exists.bin", "x");
    ensure_path_exists("file", file_path.to_string_lossy().as_ref()).unwrap();
    assert!(
        ensure_path_exists("file", temp.path().join("missing").to_string_lossy().as_ref())
            .is_err()
    );

    ensure_executable_available("tool", "nonexistent").unwrap();
    assert!(ensure_executable_available("tool", file_path.to_string_lossy().as_ref()).is_ok());
    assert!(
        ensure_executable_available("tool", temp.path().join("nope").to_string_lossy().as_ref())
            .is_err()
    );
}

#[test]
fn collects_inputs_and_resolves_outputs() {
    let temp = tempfile::tempdir().unwrap();
    let media = make_file(temp.path(), "clip.mp4", "x");
    let _ignored = make_file(temp.path(), "note.txt", "x");

    let files = collect_inputs(temp.path().to_string_lossy().as_ref()).unwrap();
    assert_eq!(files.len(), 1);
    assert!(files[0].ends_with("clip.mp4"));

    let single = collect_inputs(media.to_string_lossy().as_ref()).unwrap();
    assert_eq!(single.len(), 1);

    let missing = collect_inputs(temp.path().join("missing").to_string_lossy().as_ref());
    assert!(missing.is_err());
}

#[test]
fn transcribe_errors_on_missing_input_path() {
    let temp = tempfile::tempdir().unwrap();
    let missing = temp.path().join("missing.mp4");
    let config = resolve_config(params_for(missing.to_string_lossy().as_ref()), None).unwrap();
    let err = expect_err(Engine::new(config));
    assert!(err.contains("Input path does not exist"));
}

#[test]
fn transcribe_requires_media_files() {
    let temp = tempfile::tempdir().unwrap();
    let config = resolve_config(params_for(temp.path().to_string_lossy().as_ref()), None).unwrap();
    let err = expect_err(Engine::new(config));
    assert!(err.contains("No media files found"));
}

#[test]
fn transcribes_in_dry_run() {
    let temp = tempfile::tempdir().unwrap();
    let input = make_file(temp.path(), "clip.mp3", "x");

    let mut params = params_for(input.to_string_lossy().as_ref());
    params.output_dir = Some(temp.path().to_string_lossy().into_owned());
    let config = resolve_config(params, None).unwrap();
    let mut engine = Engine::new(config).unwrap();
    let (jobs, outputs, lines, _writes) = drive(&mut engine, World::fresh()).unwrap();
    assert_eq!(jobs, 1);
    let expected = temp.path().join("clip.srt");
    assert_eq!(outputs[0], expected.to_string_lossy().as_ref());
    assert!(lines.iter().any(|l| l.contains("DRY-RUN")));
}

#[test]
fn transcribe_defaults_language() {
    let temp = tempfile::tempdir().unwrap();
    let media = make_file(temp.path(), "clip.mp4", "x");
    let mut params = params_for(media.to_string_lossy().as_ref());
    params.language = None;
    let config = resolve_config(params, None).unwrap();
    let mut engine = Engine::new(config).unwrap();
    let (jobs, outputs, lines, _writes) = drive(&mut engine, World::fresh()).unwrap();
    assert_eq!(jobs, 1);
    let expected = temp.path().join("clip.srt");
    assert_eq!(outputs[0], expected.to_string_lossy().as_ref());
    assert!(lines.iter().any(|l| l.contains("-l auto")));
}

#[test]
fn skips_when_outputs_are_up_to_date() {
    let temp = tempfile::tempdir().unwrap();
    let media = make_file(temp.path(), "clip.mp4", "x");

    let config = resolve_config(params_for(media.to_string_lossy().as_ref()), None).unwrap();
    let mut engine = Engine::new(config).unwrap();
    let mut world = World::fresh();
    // the output artifact reports a newer modification time than the input
    world.mtimes.push((Some(1_000), Some(2_000)));
    let (jobs, outputs, lines, _writes) = drive(&mut engine, world).unwrap();
    assert_eq!(jobs, 1);
    assert!(outputs[0].ends_with("clip.srt"));
    assert!(lines.iter().any(|l| l.contains("SKIP (up-to-date)")));
}

fn real_run_params(temp: &Path, media: &Path) -> TranscribeParams {
    let model = make_file(temp, "model.bin", "x");
    let vad = make_file(temp, "vad.bin", "x");
    let noop = make_file(temp, "noop.sh", "#!/bin/sh\nexit 0\n");
    let mut params = params_for(media.to_string_lossy().as_ref());
    params.model_path = Some(model.to_string_lossy().into_owned());
    params.vad_model_path = Some(vad.to_string_lossy().into_owned());
    params.whisper_path = Some(noop.to_string_lossy().into_owned());
    params.ffmpeg_path = Some(noop.to_string_lossy().into_owned());
    params.translate = Some(false);
    params.split_on_word = Some(false);
    params.dry_run = Some(false);
    params
}

#[test]
fn transcribe_reports_ffmpeg_failure() {
    let temp = tempfile::tempdir().unwrap();
    let media = make_file(temp.path(), "clip.mp4", "x");
    let config = resolve_config(real_run_params(temp.path(), &media), None).unwrap();
    let mut engine = Engine::new(config).unwrap();
    let mut world = World::fresh();
    world.run_results.push(false);
    let err = drive(&mut engine, world).unwrap_err();
    assert!(err.contains("Command failed"));
}

#[test]
fn transcribe_reports_whisper_failure() {
    let temp = tempfile::tempdir().unwrap();
    let media = make_file(temp.path(), "clip.mp4", "x");
    let config = resolve_config(real_run_params(temp.path(), &media), None).unwrap();
    let mut engine = Engine::new(config).unwrap();
    let mut world = World::fresh();
    world.run_results.push(true);
    world.run_results.push(false);
    let err = drive(&mut engine, world).unwrap_err();
    assert!(err.contains("Command failed"));
}

#[test]
fn transcribe_requires_whisper_path() {
    let temp = tempfile::tempdir().unwrap();
    let media = make_file(temp.path(), "clip.mp4", "x");
    let mut params = real_run_params(temp.path(), &media);
    params.whisper_path = Some(temp.path().join("missing-whisper").to_string_lossy().into_owned());
    params.ffmpeg_path = Some("ffmpeg".to_owned());
    let config = resolve_config(params, None).unwrap();
    let err = expect_err(Engine::new(config));
    assert!(err.contains("whisper-cli not found"));
}

#[test]
fn transcribe_requires_model_path() {
    let temp = tempfile::tempdir().unwrap();
    let media = make_file(temp.path(), "clip.mp4", "x");
    let mut params = real_run_params(temp.path(), &media);
    params.model_path = Some(temp.path().join("missing-model.bin").to_string_lossy().into_owned());
    params.ffmpeg_path = Some("ffmpeg".to_owned());
    let config = resolve_config(params, None).unwrap();
    let err = expect_err(Engine::new(config));
    assert!(err.contains("Whisper model not found"));
}

#[test]
fn transcribe_requires_vad_path() {
    let temp = tempfile::tempdir().unwrap();
    let media = make_file(temp.path(), "clip.mp4", "x");
    let mut params = real_run_params(temp.path(), &media);
    params.vad_model_path = Some(
        temp.path().join("missing-vad.bin").to_string_lossy().into_owned(),
    );
    params.ffmpeg_path = Some("ffmpeg".to_owned());
    let config = resolve_config(params, None).unwrap();
    let err = expect_err(Engine::new(config));
    assert!(err.contains("VAD model not found"));
}

#[test]
fn transcribe_requires_ffmpeg_path() {
    let temp = tempfile::tempdir().unwrap();
    let media = make_file(temp.path(), "clip.mp4", "x");
    let mut params = real_run_params(temp.path(), &media);
    params.ffmpeg_path = Some(temp.path().join("missing-ffmpeg").to_string_lossy().into_owned());
    let config = resolve_config(params, None).unwrap();
    let err = expect_err(Engine::new(config));
    assert!(err.contains("ffmpeg not found"));
}

#[test]
fn transcribe_propagates_dedup_errors() {
    let temp = tempfile::tempdir().unwrap();
    let media = make_file(temp.path(), "clip.mp4", "x");
    let config = resolve_config(real_run_params(temp.path(), &media), None).unwrap();
    let mut engine = Engine::new(config).unwrap();
    let mut world = World::fresh();
    world.reads.push(Some("1\n00:00:bad --> 00:00:01,000\nHello\n\n".to_owned()));
    let err = drive(&mut engine, world).unwrap_err();
    assert!(err.contains("Invalid timestamp"));
}

#[test]
fn transcribes_non_dry_run_executes_commands() {
    let temp = tempfile::tempdir().unwrap();
    let media = make_file(temp.path(), "clip.mp4", "x");
    let config = resolve_config(real_run_params(temp.path(), &media), None).unwrap();
    let mut engine = Engine::new(config).unwrap();
    let mut world = World::fresh();
    world.reads.push(Some("1\n00:00:01,000 --> 00:00:02,000\nHello\n\n".to_owned()));
    let (jobs, outputs, lines, writes) = drive(&mut engine, world).unwrap();
    assert_eq!(jobs, 1);
    assert!(outputs[0].ends_with("clip.srt"));
    assert!(lines.iter().any(|l| l.contains("Wrote:")));
    assert_eq!(writes.len(), 1);
    assert_eq!(writes[0].1, "1\n00:00:01,000 --> 00:00:02,000\nHello\n");
}

#[test]
fn renders_invocation_with_spaces() {
    let args = vec!["-i".to_owned(), "in.mp4".to_owned(), "out.wav".to_owned()];
    assert_eq!(render_invocation("ffmpeg", &args), "ffmpeg -i in.mp4 out.wav");
    let none: Vec<String> = Vec::new();
    assert_eq!(render_invocation("true", &none), "true ");
}
