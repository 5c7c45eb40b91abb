//! Configuration resolution: caller-supplied parameters, asset-directory
//! defaults, and hardcoded fallbacks become one fully resolved job
//! configuration.

use vstd::prelude::*;
use crate::host::{host_thread_count, path_exists};
use crate::text::{str_chars, trim_chars, trim_spec, chars_string};

verus! {

/// Caller-supplied parameters of the transcription method; absent fields
/// take defaults. The two probability thresholds arrive as decimal text and
/// the merge tolerance already scaled to milliseconds.
pub struct TranscribeParams {
    pub input_path: String,
    pub output_dir: Option<String>,
    pub model_path: Option<String>,
    pub vad_model_path: Option<String>,
    pub whisper_path: Option<String>,
    pub ffmpeg_path: Option<String>,
    pub vk_icd_filenames: Option<String>,
    pub threads: Option<usize>,
    pub beam_size: Option<u32>,
    pub best_of: Option<u32>,
    pub max_len_chars: Option<u32>,
    pub split_on_word: Option<bool>,
    pub vad_threshold: Option<String>,
    pub vad_min_speech_ms: Option<u32>,
    pub vad_min_sil_ms: Option<u32>,
    pub vad_pad_ms: Option<u32>,
    pub no_speech_thold: Option<String>,
    pub max_context: Option<u32>,
    pub dedup_merge_gap_ms: Option<i64>,
    pub translate: Option<bool>,
    pub language: Option<String>,
    pub dry_run: Option<bool>,
}

/// A fully resolved job configuration: every field definite.
pub struct JobConfig {
    pub input_path: String,
    pub output_dir: Option<String>,
    pub model_path: String,
    pub vad_model_path: String,
    pub whisper_path: String,
    pub ffmpeg_path: String,
    pub vk_icd_filenames: Option<String>,
    pub threads: usize,
    pub beam_size: u32,
    pub best_of: u32,
    pub max_len_chars: u32,
    pub split_on_word: bool,
    pub vad_threshold: String,
    pub vad_min_speech_ms: u32,
    pub vad_min_sil_ms: u32,
    pub vad_pad_ms: u32,
    pub no_speech_thold: String,
    pub max_context: u32,
    pub dedup_merge_gap_ms: i64,
    pub translate: bool,
    pub language: String,
    pub dry_run: bool,
}

/// Abstract view of a resolved configuration.
pub ghost struct JobConfigV {
    pub input_path: Seq<char>,
    pub output_dir: Option<Seq<char>>,
    pub model_path: Seq<char>,
    pub vad_model_path: Seq<char>,
    pub whisper_path: Seq<char>,
    pub ffmpeg_path: Seq<char>,
    pub vk_icd_filenames: Option<Seq<char>>,
    pub threads: int,
    pub beam_size: int,
    pub best_of: int,
    pub max_len_chars: int,
    pub split_on_word: bool,
    pub vad_threshold: Seq<char>,
    pub vad_min_speech_ms: int,
    pub vad_min_sil_ms: int,
    pub vad_pad_ms: int,
    pub no_speech_thold: Seq<char>,
    pub max_context: int,
    pub dedup_merge_gap_ms: int,
    pub translate: bool,
    pub language: Seq<char>,
    pub dry_run: bool,
}

pub open spec fn opt_view(o: Option<String>) -> Option<Seq<char>> {
    match o {
        Some(s) => Some(s@),
        None => None,
    }
}

impl View for JobConfig {
    type V = JobConfigV;

    open spec fn view(&self) -> JobConfigV {
        JobConfigV {
            input_path: self.input_path@,
            output_dir: opt_view(self.output_dir),
            model_path: self.model_path@,
            vad_model_path: self.vad_model_path@,
            whisper_path: self.whisper_path@,
            ffmpeg_path: self.ffmpeg_path@,
            vk_icd_filenames: opt_view(self.vk_icd_filenames),
            threads: self.threads as int,
            beam_size: self.beam_size as int,
            best_of: self.best_of as int,
            max_len_chars: self.max_len_chars as int,
            split_on_word: self.split_on_word,
            vad_threshold: self.vad_threshold@,
            vad_min_speech_ms: self.vad_min_speech_ms as int,
            vad_min_sil_ms: self.vad_min_sil_ms as int,
            vad_pad_ms: self.vad_pad_ms as int,
            no_speech_thold: self.no_speech_thold@,
            max_context: self.max_context as int,
            dedup_merge_gap_ms: self.dedup_merge_gap_ms as int,
            translate: self.translate,
            language: self.language@,
            dry_run: self.dry_run,
        }
    }
}

/// The three-stage choice for one external-resource path: an explicit
/// non-blank caller value (trimmed) wins, else the asset-derived default,
/// else the hardcoded fallback.
pub open spec fn path_choice(
    value: Option<Seq<char>>,
    asset_default: Option<Seq<char>>,
    fallback: Seq<char>,
) -> Seq<char> {
    match value {
        Some(v) => if trim_spec(v).len() > 0 {
            trim_spec(v)
        } else {
            match asset_default {
                Some(d) => d,
                None => fallback,
            }
        },
        None => match asset_default {
            Some(d) => d,
            None => fallback,
        },
    }
}

/// Resolve one optional path: explicit value, asset default, fallback.
pub fn resolve_optional_path(value: Option<&str>, asset_default: Option<String>, fallback: &str) -> (r:
    String)
    ensures
        r@ == path_choice(
            match value {
                Some(v) => Some(v@),
                None => None,
            },
            opt_view(asset_default),
            fallback@,
        ),
{
    if let Some(raw) = value {
        let chars = str_chars(raw);
        let trimmed = trim_chars(&chars);
        if trimmed.len() > 0 {
            return chars_string(&trimmed);
        }
    }
    match asset_default {
        Some(path) => path,
        None => fallback.to_owned(),
    }
}

/// Path join as `PathBuf::push` behaves for a relative second part.
pub open spec fn join_path_spec(dir: Seq<char>, rel: Seq<char>) -> Seq<char> {
    if dir.len() == 0 {
        rel
    } else if dir.last() == '/' {
        dir + rel
    } else {
        dir + seq!['/'] + rel
    }
}

/// Join a directory and a relative path with a single separator.
pub fn join_path(dir: &str, rel: &str) -> (r: String)
    ensures
        r@ == join_path_spec(dir@, rel@),
{
    let mut out = str_chars(dir);
    if out.len() == 0 {
        let v = str_chars(rel);
        assert(v@ =~= join_path_spec(dir@, rel@));
        return chars_string(&v);
    }
    if out[out.len() - 1] != '/' {
        out.push('/');
    }
    let relv = str_chars(rel);
    crate::text::push_chars(&mut out, &relv);
    assert(out@ =~= join_path_spec(dir@, rel@));
    chars_string(&out)
}

/// The executable name for this platform's conventions.
pub fn default_binary_name(base: &str) -> (r: String)
    ensures
        r@ == base@,
{
    base.to_owned()
}

/// Pick the asset directory: the environment-given directory if it exists
/// on disk, else `assets` beside the executable, else `runtime/assets`
/// under the working directory, else `assets` under the working directory.
/// The result, if any, is one of those four candidate paths.
pub fn resolve_asset_dir(env_dir: Option<&str>, exe_dir: Option<&str>, cwd: Option<&str>) -> (r:
    Option<String>)
    ensures
        ({
            let cands = asset_candidates(
                match env_dir {
                    Some(v) => Some(v@),
                    None => None,
                },
                match exe_dir {
                    Some(v) => Some(v@),
                    None => None,
                },
                match cwd {
                    Some(v) => Some(v@),
                    None => None,
                },
            );
            match r {
                Some(d) => cands.contains(d@),
                None => true,
            }
        }),
{
    let ghost cands = asset_candidates(
        match env_dir {
            Some(v) => Some(v@),
            None => None,
        },
        match exe_dir {
            Some(v) => Some(v@),
            None => None,
        },
        match cwd {
            Some(v) => Some(v@),
            None => None,
        },
    );
    let ghost alen: int = if env_dir is Some {
        1
    } else {
        0
    };
    let ghost blen: int = if exe_dir is Some {
        1
    } else {
        0
    };
    if let Some(d) = env_dir {
        if path_exists(d) {
            assert(cands.contains(d@)) by {
                assert(cands[0] == d@);
            }
            return Some(d.to_owned());
        }
    }
    if let Some(e) = exe_dir {
        let c = join_path(e, "assets");
        if path_exists(c.as_str()) {
            assert(cands.contains(c@)) by {
                assert(cands[alen] == c@);
            }
            return Some(c);
        }
    }
    if let Some(w) = cwd {
        let c1 = join_path(w, "runtime/assets");
        if path_exists(c1.as_str()) {
            assert(cands.contains(c1@)) by {
                assert(cands[alen + blen] == c1@);
            }
            return Some(c1);
        }
        let c2 = join_path(w, "assets");
        if path_exists(c2.as_str()) {
            assert(cands.contains(c2@)) by {
                assert(cands[alen + blen + 1] == c2@);
            }
            return Some(c2);
        }
    }
    None
}

/// The candidate asset directories, in probe order.
pub open spec fn asset_candidates(
    env_dir: Option<Seq<char>>,
    exe_dir: Option<Seq<char>>,
    cwd: Option<Seq<char>>,
) -> Seq<Seq<char>> {
    let a = match env_dir {
        Some(d) => seq![d],
        None => Seq::empty(),
    };
    let b = match exe_dir {
        Some(e) => seq![join_path_spec(e, "assets"@)],
        None => Seq::empty(),
    };
    let c = match cwd {
        Some(w) => seq![join_path_spec(w, "runtime/assets"@), join_path_spec(w, "assets"@)],
        None => Seq::empty(),
    };
    a + b + c
}

/// Whether a resolved configuration is what the parameters, the asset
/// directory, and the defaults dictate, field by field. The thread count is
/// constrained only when the caller supplied one; otherwise it is the
/// host's core count, of which at least one is known.
pub open spec fn config_resolved(
    c: JobConfigV,
    input_path: Seq<char>,
    output_dir: Option<Seq<char>>,
    model_path: Option<Seq<char>>,
    vad_model_path: Option<Seq<char>>,
    whisper_path: Option<Seq<char>>,
    ffmpeg_path: Option<Seq<char>>,
    vk_icd_filenames: Option<Seq<char>>,
    threads: Option<int>,
    beam_size: Option<int>,
    best_of: Option<int>,
    max_len_chars: Option<int>,
    split_on_word: Option<bool>,
    vad_threshold: Option<Seq<char>>,
    vad_min_speech_ms: Option<int>,
    vad_min_sil_ms: Option<int>,
    vad_pad_ms: Option<int>,
    no_speech_thold: Option<Seq<char>>,
    max_context: Option<int>,
    dedup_merge_gap_ms: Option<int>,
    translate: Option<bool>,
    language: Option<Seq<char>>,
    dry_run: Option<bool>,
    asset_dir: Option<Seq<char>>,
) -> bool {
    let asset_model = match asset_dir {
        Some(d) => Some(join_path_spec(d, "models/ggml-large-v3.bin"@)),
        None => None,
    };
    let asset_vad = match asset_dir {
        Some(d) => Some(join_path_spec(d, "models/ggml-silero-v6.2.0.bin"@)),
        None => None,
    };
    let asset_whisper = match asset_dir {
        Some(d) => Some(join_path_spec(join_path_spec(d, "bin"@), "whisper-cli"@)),
        None => None,
    };
    let asset_ffmpeg = match asset_dir {
        Some(d) => Some(join_path_spec(join_path_spec(d, "bin"@), "ffmpeg"@)),
        None => None,
    };
    &&& c.input_path == input_path
    &&& c.output_dir == output_dir
    &&& c.model_path == path_choice(model_path, asset_model, "models/ggml-large-v3.bin"@)
    &&& c.vad_model_path == path_choice(
        vad_model_path,
        asset_vad,
        "models/ggml-silero-v6.2.0.bin"@,
    )
    &&& c.whisper_path == path_choice(whisper_path, asset_whisper, "./build/bin/whisper-cli"@)
    &&& c.ffmpeg_path == path_choice(ffmpeg_path, asset_ffmpeg, "ffmpeg"@)
    &&& c.vk_icd_filenames == (match vk_icd_filenames {
        Some(v) => if trim_spec(v).len() > 0 {
            Some(v)
        } else {
            None
        },
        None => None,
    })
    &&& (match threads {
        Some(t) => c.threads == t,
        None => c.threads >= 1,
    })
    &&& c.beam_size == (match beam_size {
        Some(v) => v,
        None => 8,
    })
    &&& c.best_of == (match best_of {
        Some(v) => v,
        None => 8,
    })
    &&& c.max_len_chars == (match max_len_chars {
        Some(v) => v,
        None => 60,
    })
    &&& c.split_on_word == (match split_on_word {
        Some(v) => v,
        None => true,
    })
    &&& c.vad_threshold == (match vad_threshold {
        Some(v) => v,
        None => "0.35"@,
    })
    &&& c.vad_min_speech_ms == (match vad_min_speech_ms {
        Some(v) => v,
        None => 200,
    })
    &&& c.vad_min_sil_ms == (match vad_min_sil_ms {
        Some(v) => v,
        None => 250,
    })
    &&& c.vad_pad_ms == (match vad_pad_ms {
        Some(v) => v,
        None => 80,
    })
    &&& c.no_speech_thold == (match no_speech_thold {
        Some(v) => v,
        None => "0.75"@,
    })
    &&& c.max_context == (match max_context {
        Some(v) => v,
        None => 0,
    })
    &&& c.dedup_merge_gap_ms == (match dedup_merge_gap_ms {
        Some(v) => v,
        None => 600,
    })
    &&& c.translate == (match translate {
        Some(v) => v,
        None => true,
    })
    &&& c.language == (match language {
        Some(v) => v,
        None => "auto"@,
    })
    &&& c.dry_run == (match dry_run {
        Some(v) => v,
        None => false,
    })
}

pub open spec fn opt_int_u32(o: Option<u32>) -> Option<int> {
    match o {
        Some(v) => Some(v as int),
        None => None,
    }
}

/// Resolve the parameters against an asset directory into a full
/// configuration, or reject a missing or blank input path.
pub fn resolve_config(params: TranscribeParams, asset_dir: Option<String>) -> (r: Result<
    JobConfig,
    String,
>)
    ensures
        match r {
            Ok(c) => trim_spec(params.input_path@).len() > 0 && config_resolved(
                c@,
                params.input_path@,
                opt_view(params.output_dir),
                opt_view(params.model_path),
                opt_view(params.vad_model_path),
                opt_view(params.whisper_path),
                opt_view(params.ffmpeg_path),
                opt_view(params.vk_icd_filenames),
                match params.threads {
                    Some(t) => Some(t as int),
                    None => None,
                },
                opt_int_u32(params.beam_size),
                opt_int_u32(params.best_of),
                opt_int_u32(params.max_len_chars),
                params.split_on_word,
                opt_view(params.vad_threshold),
                opt_int_u32(params.vad_min_speech_ms),
                opt_int_u32(params.vad_min_sil_ms),
                opt_int_u32(params.vad_pad_ms),
                opt_view(params.no_speech_thold),
                opt_int_u32(params.max_context),
                match params.dedup_merge_gap_ms {
                    Some(v) => Some(v as int),
                    None => None,
                },
                params.translate,
                opt_view(params.language),
                params.dry_run,
                opt_view(asset_dir),
            ),
            Err(e) => trim_spec(params.input_path@).len() == 0 && e@ == "input_path is required"@,
        },
{
    let input_chars = str_chars(params.input_path.as_str());
    let input_trimmed = trim_chars(&input_chars);
    if input_trimmed.len() == 0 {
        return Err("input_path is required".to_owned());
    }
    let asset_model = match &asset_dir {
        Some(d) => Some(join_path(d.as_str(), "models/ggml-large-v3.bin")),
        None => None,
    };
    let asset_vad = match &asset_dir {
        Some(d) => Some(join_path(d.as_str(), "models/ggml-silero-v6.2.0.bin")),
        None => None,
    };
    let asset_whisper = match &asset_dir {
        Some(d) => {
            let bin = join_path(d.as_str(), "bin");
            let name = default_binary_name("whisper-cli");
            Some(join_path(bin.as_str(), name.as_str()))
        },
        None => None,
    };
    let asset_ffmpeg = match &asset_dir {
        Some(d) => {
            let bin = join_path(d.as_str(), "bin");
            let name = default_binary_name("ffmpeg");
            Some(join_path(bin.as_str(), name.as_str()))
        },
        None => None,
    };
    let model_path = resolve_optional_path(
        match &params.model_path {
            Some(s) => Some(s.as_str()),
            None => None,
        },
        asset_model,
        "models/ggml-large-v3.bin",
    );
    let vad_model_path = resolve_optional_path(
        match &params.vad_model_path {
            Some(s) => Some(s.as_str()),
            None => None,
        },
        asset_vad,
        "models/ggml-silero-v6.2.0.bin",
    );
    let whisper_path = resolve_optional_path(
        match &params.whisper_path {
            Some(s) => Some(s.as_str()),
            None => None,
        },
        asset_whisper,
        "./build/bin/whisper-cli",
    );
    let ffmpeg_path = resolve_optional_path(
        match &params.ffmpeg_path {
            Some(s) => Some(s.as_str()),
            None => None,
        },
        asset_ffmpeg,
        "ffmpeg",
    );
    let vk_icd_filenames = match params.vk_icd_filenames {
        Some(v) => {
            let vc = str_chars(v.as_str());
            let vt = trim_chars(&vc);
            if vt.len() > 0 {
                Some(v)
            } else {
                None
            }
        },
        None => None,
    };
    let threads = match params.threads {
        Some(t) => t,
        None => host_thread_count(),
    };
    let config = JobConfig {
        input_path: params.input_path,
        output_dir: params.output_dir,
        model_path,
        vad_model_path,
        whisper_path,
        ffmpeg_path,
        vk_icd_filenames,
        threads,
        beam_size: match params.beam_size {
            Some(v) => v,
            None => 8,
        },
        best_of: match params.best_of {
            Some(v) => v,
            None => 8,
        },
        max_len_chars: match params.max_len_chars {
            Some(v) => v,
            None => 60,
        },
        split_on_word: match params.split_on_word {
            Some(v) => v,
            None => true,
        },
        vad_threshold: match params.vad_threshold {
            Some(v) => v,
            None => "0.35".to_owned(),
        },
        vad_min_speech_ms: match params.vad_min_speech_ms {
            Some(v) => v,
            None => 200,
        },
        vad_min_sil_ms: match params.vad_min_sil_ms {
            Some(v) => v,
            None => 250,
        },
        vad_pad_ms: match params.vad_pad_ms {
            Some(v) => v,
            None => 80,
        },
        no_speech_thold: match params.no_speech_thold {
            Some(v) => v,
            None => "0.75".to_owned(),
        },
        max_context: match params.max_context {
            Some(v) => v,
            None => 0,
        },
        dedup_merge_gap_ms: match params.dedup_merge_gap_ms {
            Some(v) => v,
            None => 600,
        },
        translate: match params.translate {
            Some(v) => v,
            None => true,
        },
        language: match params.language {
            Some(v) => v,
            None => "auto".to_owned(),
        },
        dry_run: match params.dry_run {
            Some(v) => v,
            None => false,
        },
    };
    Ok(config)
}

} // verus!
