//! The job orchestrator as a state machine. The engine makes every
//! decision of a transcription batch — which files to process, whether a
//! file is up to date, which commands to run with which arguments, what to
//! log, when to deduplicate — and hands the surrounding process one action
//! at a time; the caller performs the action and reports its outcome.

use vstd::prelude::*;
use crate::config::{JobConfig, JobConfigV, join_path, join_path_spec};
use crate::dedup::{dedup_content, dedup_spec};
use crate::host::{
    file_stem, make_temp_wav, parent_dir, parent_dir_of, path_exists, path_is_file, stem_of,
    temp_path_str, walk_entries,
};
use crate::jsonout::{encode_event, event_line};
use crate::text::{
    chars_string, dec_spec, find_char, find_char_from, push_dec, push_str_chars, str_chars,
};

verus! {

/// Where the engine stands inside the current file's pipeline; the `Await`
/// phases name the action whose outcome the engine expects next.
pub enum Phase {
    StartFile,
    AwaitCreateDir,
    AwaitMtimes,
    AwaitSkipLog,
    AwaitProcessingLog,
    AwaitFfmpegDryLog,
    AwaitFfmpegRun,
    AwaitWhisperDryLog,
    AwaitWhisperRun,
    AwaitPostDryLog,
    AwaitSrtRead,
    AwaitSrtWrite,
    AwaitWroteLog,
    Finished,
    Failed,
}

/// What the engine asks the surrounding process to do next.
pub enum JobAction {
    EmitLine(String),
    CreateDirAll(String),
    QueryMtimes { input: String, output: String },
    Run { program: String, args: Vec<String>, env_vk_icd: Option<String> },
    ReadFile(String),
    WriteFile { path: String, content: String },
}

/// The reported outcome of an action.
pub enum JobEvent {
    Done,
    Failed(String),
    Mtimes { input_modified: Option<u64>, output_modified: Option<u64> },
    RunExited { success: bool },
    FileContent(Option<String>),
}

/// One engine step: the next action, the finished batch, or its failure.
pub enum StepAct {
    Next(JobAction),
    Finished { jobs: usize, outputs: Vec<String> },
    Fail(String),
}

#[verifier::ext_equal]
pub ghost enum JobActionV {
    EmitLine(Seq<char>),
    CreateDirAll(Seq<char>),
    QueryMtimes { input: Seq<char>, output: Seq<char> },
    Run { program: Seq<char>, args: Seq<Seq<char>>, env_vk_icd: Option<Seq<char>> },
    ReadFile(Seq<char>),
    WriteFile { path: Seq<char>, content: Seq<char> },
}

#[verifier::ext_equal]
pub ghost enum JobEventV {
    Done,
    Failed(Seq<char>),
    Mtimes { input_modified: Option<int>, output_modified: Option<int> },
    RunExited { success: bool },
    FileContent(Option<Seq<char>>),
}

#[verifier::ext_equal]
pub ghost enum StepActV {
    Next(JobActionV),
    Finished { jobs: int, outputs: Seq<Seq<char>> },
    Fail(Seq<char>),
}

pub open spec fn strs_view(v: Seq<String>) -> Seq<Seq<char>> {
    Seq::new(v.len(), |i: int| v[i]@)
}

impl View for JobAction {
    type V = JobActionV;

    open spec fn view(&self) -> JobActionV {
        match self {
            JobAction::EmitLine(s) => JobActionV::EmitLine(s@),
            JobAction::CreateDirAll(s) => JobActionV::CreateDirAll(s@),
            JobAction::QueryMtimes { input, output } => JobActionV::QueryMtimes {
                input: input@,
                output: output@,
            },
            JobAction::Run { program, args, env_vk_icd } => JobActionV::Run {
                program: program@,
                args: strs_view(args@),
                env_vk_icd: crate::config::opt_view(*env_vk_icd),
            },
            JobAction::ReadFile(s) => JobActionV::ReadFile(s@),
            JobAction::WriteFile { path, content } => JobActionV::WriteFile {
                path: path@,
                content: content@,
            },
        }
    }
}

impl View for JobEvent {
    type V = JobEventV;

    open spec fn view(&self) -> JobEventV {
        match self {
            JobEvent::Done => JobEventV::Done,
            JobEvent::Failed(m) => JobEventV::Failed(m@),
            JobEvent::Mtimes { input_modified, output_modified } => JobEventV::Mtimes {
                input_modified: match input_modified {
                    Some(t) => Some(*t as int),
                    None => None,
                },
                output_modified: match output_modified {
                    Some(t) => Some(*t as int),
                    None => None,
                },
            },
            JobEvent::RunExited { success } => JobEventV::RunExited { success: *success },
            JobEvent::FileContent(c) => JobEventV::FileContent(
                match c {
                    Some(s) => Some(s@),
                    None => None,
                },
            ),
        }
    }
}

impl View for StepAct {
    type V = StepActV;

    open spec fn view(&self) -> StepActV {
        match self {
            StepAct::Next(a) => StepActV::Next(a@),
            StepAct::Finished { jobs, outputs } => StepActV::Finished {
                jobs: *jobs as int,
                outputs: strs_view(outputs@),
            },
            StepAct::Fail(m) => StepActV::Fail(m@),
        }
    }
}

/// Whether an output artifact is up to date: both modification times were
/// readable and the output's is no older than the input's.
pub fn is_up_to_date_with_modified(input_modified: Option<u64>, output_modified: Option<u64>) -> (r:
    bool)
    ensures
        r == match (input_modified, output_modified) {
            (Some(i), Some(o)) => o >= i,
            _ => false,
        },
{
    match (input_modified, output_modified) {
        (Some(i), Some(o)) => o >= i,
        _ => false,
    }
}

/// Whether a path names its file with an extension from the media
/// allow-list, compared without regard to ASCII case.
pub open spec fn has_media_ext(p: Seq<char>) -> bool {
    ||| has_ext_ci(p, "mp4"@)
    ||| has_ext_ci(p, "mkv"@)
    ||| has_ext_ci(p, "mov"@)
    ||| has_ext_ci(p, "wav"@)
    ||| has_ext_ci(p, "mp3"@)
    ||| has_ext_ci(p, "m4a"@)
}

/// ASCII-case-insensitive match of one character against a lowercase one.
pub open spec fn ci_eq(a: char, lower: char) -> bool {
    a == lower || a as u32 == lower as u32 - 0x20
}

/// The path ends in `.` + `ext` (case-insensitively), the dot belonging to
/// a file name that does not consist of the extension alone.
pub open spec fn has_ext_ci(p: Seq<char>, ext: Seq<char>) -> bool {
    let l = p.len() as int;
    let e = ext.len() as int;
    &&& l >= e + 2
    &&& p[l - e - 1] == '.'
    &&& p[l - e - 2] != '/'
    &&& forall|k: int| 0 <= k < e ==> ci_eq(p[l - e + k], ext[k])
}

fn ci_eq_exec(a: char, lower: char) -> (r: bool)
    ensures
        r == ci_eq(a, lower),
{
    a == lower || (lower as u32 >= 0x20 && a as u32 == lower as u32 - 0x20)
}

fn has_ext_ci_exec(p: &Vec<char>, ext: &str) -> (r: bool)
    ensures
        r == has_ext_ci(p@, ext@),
{
    let e = ext.unicode_len();
    let l = p.len();
    if l < 2 || l - 2 < e {
        return false;
    }
    if p[l - e - 1] != '.' {
        return false;
    }
    if p[l - e - 2] == '/' {
        return false;
    }
    let mut k: usize = 0;
    while k < e
        invariant
            0 <= k <= e == ext@.len(),
            l == p@.len(),
            l >= e + 2,
            forall|j: int| 0 <= j < k ==> ci_eq(p@[l - e + j], ext@[j]),
        decreases e - k,
    {
        if !ci_eq_exec(p[l - e + k], ext.get_char(k)) {
            return false;
        }
        k = k + 1;
    }
    true
}

/// Whether a path has one of the allowed media extensions.
pub fn is_media_path(p: &str) -> (r: bool)
    ensures
        r == has_media_ext(p@),
{
    let v = str_chars(p);
    has_ext_ci_exec(&v, "mp4") || has_ext_ci_exec(&v, "mkv") || has_ext_ci_exec(&v, "mov")
        || has_ext_ci_exec(&v, "wav") || has_ext_ci_exec(&v, "mp3") || has_ext_ci_exec(&v, "m4a")
}

/// The walked entries that are regular files with a media extension, in
/// traversal order.
pub open spec fn media_filter_from(es: Seq<(bool, Seq<char>)>, i: int) -> Seq<Seq<char>>
    decreases es.len() - i,
{
    if i < 0 || i >= es.len() {
        Seq::empty()
    } else {
        (if es[i].0 && has_media_ext(es[i].1) {
            seq![es[i].1]
        } else {
            Seq::empty()
        }) + media_filter_from(es, i + 1)
    }
}

/// Keep exactly the regular files with a media extension, in order.
pub fn filter_media_files(entries: &Vec<(bool, String)>) -> (r: Vec<String>)
    ensures
        strs_view(r@) == media_filter_from(
            Seq::new(entries@.len(), |i: int| (entries@[i].0, entries@[i].1@)),
            0,
        ),
{
    let ghost es = Seq::new(entries@.len(), |i: int| (entries@[i].0, entries@[i].1@));
    let mut r: Vec<String> = Vec::new();
    let n = entries.len();
    let mut i: usize = 0;
    proof {
        assert(strs_view(r@) =~= Seq::<Seq<char>>::empty());
        assert(Seq::<Seq<char>>::empty() + media_filter_from(es, 0) =~= media_filter_from(es, 0));
    }
    while i < n
        invariant
            0 <= i <= n == entries@.len(),
            es == Seq::new(entries@.len(), |k: int| (entries@[k].0, entries@[k].1@)),
            media_filter_from(es, 0) == strs_view(r@) + media_filter_from(es, i as int),
        decreases n - i,
    {
        let ghost before = strs_view(r@);
        proof {
            assert(es[i as int] == (entries@[i as int].0, entries@[i as int].1@));
        }
        let is_file = entries[i].0;
        let keep = if is_file {
            is_media_path(entries[i].1.as_str())
        } else {
            false
        };
        if keep {
            let ghost pv = entries@[i as int].1@;
            r.push(clone_string(&entries[i].1));
            proof {
                assert(strs_view(r@) =~= before.push(pv));
                assert(media_filter_from(es, i as int) == seq![pv] + media_filter_from(es, i + 1));
                assert(before + (seq![pv] + media_filter_from(es, i + 1)) =~= before.push(pv)
                    + media_filter_from(es, i + 1));
            }
        } else {
            proof {
                assert(media_filter_from(es, i as int) == Seq::<Seq<char>>::empty()
                    + media_filter_from(es, i + 1));
                assert(Seq::<Seq<char>>::empty() + media_filter_from(es, i + 1)
                    =~= media_filter_from(es, i + 1));
            }
        }
        i = i + 1;
    }
    proof {
        assert(media_filter_from(es, n as int) == Seq::<Seq<char>>::empty());
        assert(strs_view(r@) + Seq::<Seq<char>>::empty() =~= strs_view(r@));
    }
    r
}

fn clone_string(s: &String) -> (r: String)
    ensures
        r@ == s@,
{
    let v = str_chars(s.as_str());
    chars_string(&v)
}

fn clone_strings(v: &Vec<String>) -> (r: Vec<String>)
    ensures
        strs_view(r@) == strs_view(v@),
        r@.len() == v@.len(),
{
    let mut r: Vec<String> = Vec::new();
    let n = v.len();
    let mut i: usize = 0;
    while i < n
        invariant
            0 <= i <= n == v@.len(),
            r@.len() == i,
            forall|j: int| 0 <= j < i ==> r@[j]@ == v@[j]@,
        decreases n - i,
    {
        r.push(clone_string(&v[i]));
        i = i + 1;
    }
    assert(strs_view(r@) =~= strs_view(v@));
    r
}

/// The file is there, or the error naming what was missing.
pub fn ensure_path_exists(label: &str, path: &str) -> (r: Result<(), String>)
    ensures
        r matches Err(e) ==> e@ == label@ + " not found at "@ + path@,
{
    if path_exists(path) {
        Ok(())
    } else {
        let mut out: Vec<char> = Vec::new();
        push_str_chars(&mut out, label);
        push_str_chars(&mut out, " not found at ");
        push_str_chars(&mut out, path);
        Err(chars_string(&out))
    }
}

/// An executable given as a bare command name is left to the search path;
/// one given with a directory separator must exist.
pub fn ensure_executable_available(label: &str, path: &str) -> (r: Result<(), String>)
    ensures
        find_char_from(path@, '/', 0) == path@.len() ==> r is Ok,
        r matches Err(e) ==> e@ == label@ + " not found at "@ + path@,
{
    let v = str_chars(path);
    let i = find_char(&v, '/', 0);
    if i == v.len() {
        return Ok(());
    }
    ensure_path_exists(label, path)
}

/// Enumerate the inputs: the path itself when it is a single file, else
/// every media file under it. Whatever the traversal found, everything
/// returned is the input itself or a path with a media extension.
pub fn collect_inputs(input_path: &str) -> (r: Result<Vec<String>, String>)
    ensures
        r matches Ok(files) ==> (files@.len() == 1 && files@[0]@ == input_path@) || (forall|j: int|
            0 <= j < files@.len() ==> has_media_ext(#[trigger] files@[j]@)),
{
    if !path_exists(input_path) {
        let mut out: Vec<char> = Vec::new();
        push_str_chars(&mut out, "Input path does not exist: ");
        push_str_chars(&mut out, input_path);
        return Err(chars_string(&out));
    }
    if path_is_file(input_path) {
        let mut files: Vec<String> = Vec::new();
        files.push(input_path.to_owned());
        return Ok(files);
    }
    match walk_entries(input_path) {
        Err(e) => Err(e),
        Ok(entries) => {
            let files = filter_media_files(&entries);
            proof {
                let es = Seq::new(entries@.len(), |i: int| (entries@[i].0, entries@[i].1@));
                lemma_media_filter_all(es, 0);
                assert forall|j: int| 0 <= j < files@.len() implies has_media_ext(
                    #[trigger] files@[j]@,
                ) by {
                    assert(strs_view(files@)[j] == files@[j]@);
                }
            }
            Ok(files)
        },
    }
}

/// Command arguments joined with single spaces.
pub open spec fn join_space(args: Seq<Seq<char>>) -> Seq<char>
    decreases args.len(),
{
    if args.len() == 0 {
        Seq::empty()
    } else if args.len() == 1 {
        args[0]
    } else {
        args[0] + seq![' '] + join_space(args.drop_first())
    }
}

/// The human-readable invocation trace: program, one space, the arguments
/// joined with spaces.
pub open spec fn rendered_invocation(program: Seq<char>, args: Seq<Seq<char>>) -> Seq<char> {
    program + seq![' '] + join_space(args)
}

proof fn lemma_join_space_push(ls: Seq<Seq<char>>, x: Seq<char>)
    ensures
        join_space(ls.push(x)) == if ls.len() == 0 {
            x
        } else {
            join_space(ls) + seq![' '] + x
        },
    decreases ls.len(),
{
    let p = ls.push(x);
    if ls.len() == 0 {
        assert(p.len() == 1);
        assert(p[0] == x);
    } else if ls.len() == 1 {
        assert(p.len() == 2);
        assert(p[0] == ls[0]);
        assert(p.drop_first() =~= seq![x]);
        assert(join_space(seq![x]) == x);
        assert(join_space(p) == p[0] + seq![' '] + join_space(p.drop_first()));
        assert(join_space(ls) == ls[0]);
    } else {
        lemma_join_space_push(ls.drop_first(), x);
        assert(p.drop_first() =~= ls.drop_first().push(x));
        assert(join_space(p) == p[0] + seq![' '] + join_space(ls.drop_first().push(x)));
        assert(p[0] == ls[0]);
        assert(join_space(ls) == ls[0] + seq![' '] + join_space(ls.drop_first()));
        assert(join_space(p) =~= join_space(ls) + seq![' '] + x);
    }
}

/// Render the invocation trace for a program and its arguments.
pub fn render_invocation(program: &str, args: &Vec<String>) -> (r: String)
    ensures
        r@ == rendered_invocation(program@, strs_view(args@)),
{
    let ghost sargs = strs_view(args@);
    let mut out: Vec<char> = Vec::new();
    push_str_chars(&mut out, program);
    out.push(' ');
    let ghost mark = out@;
    let n = args.len();
    let mut i: usize = 0;
    while i < n
        invariant
            0 <= i <= n == args@.len(),
            sargs == strs_view(args@),
            out@ == mark + join_space(sargs.subrange(0, i as int)),
        decreases n - i,
    {
        let ghost before = out@;
        if i > 0 {
            out.push(' ');
        }
        push_str_chars(&mut out, args[i].as_str());
        proof {
            let cur = sargs.subrange(0, i + 1);
            assert(cur.drop_last() =~= sargs.subrange(0, i as int));
            assert(cur.last() == args@[i as int]@);
            lemma_join_space_push(sargs.subrange(0, i as int), args@[i as int]@);
            assert(sargs.subrange(0, i as int).push(args@[i as int]@) =~= cur);
            if i == 0 {
                assert(join_space(sargs.subrange(0, 0)) == Seq::<char>::empty());
                assert(out@ =~= mark + join_space(cur));
            } else {
                assert(out@ =~= mark + join_space(cur));
            }
        }
        i = i + 1;
    }
    assert(sargs.subrange(0, n as int) =~= sargs);
    assert(out@ =~= rendered_invocation(program@, sargs));
    chars_string(&out)
}

/// The fixed audio-extraction filter chain.
pub open spec fn ffmpeg_filter() -> Seq<char> {
    "pan=mono|c0=0.35*FL+0.35*FR+0.80*FC+0.15*SL+0.15*SR,loudnorm=I=-16:LRA=11:TP=-1.5"@
}

/// The audio-extraction arguments: quiet, overwrite, no video, the fixed
/// downmix/loudness/resample chain, 16-bit PCM to the working path.
pub open spec fn ffmpeg_args_spec(input: Seq<char>, tmp: Seq<char>) -> Seq<Seq<char>> {
    seq![
        "-hide_banner"@,
        "-loglevel"@,
        "error"@,
        "-y"@,
        "-i"@,
        input,
        "-vn"@,
        "-af"@,
        ffmpeg_filter(),
        "-ar"@,
        "16000"@,
        "-c:a"@,
        "pcm_s16le"@,
        tmp,
    ]
}

/// The speech-recognition arguments built from the configuration.
pub open spec fn whisper_args_spec(c: JobConfigV, tmp: Seq<char>, outbase: Seq<char>) -> Seq<
    Seq<char>,
> {
    seq!["-m"@, c.model_path, "-f"@, tmp, "-l"@, c.language] + (if c.translate {
        seq!["-tr"@]
    } else {
        Seq::empty()
    }) + seq![
        "-t"@,
        dec_spec(c.threads as nat),
        "-bs"@,
        dec_spec(c.beam_size as nat),
        "-bo"@,
        dec_spec(c.best_of as nat),
        "-nth"@,
        c.no_speech_thold,
        "-mc"@,
        dec_spec(c.max_context as nat),
        "--suppress-nst"@,
        "--vad"@,
        "-vm"@,
        c.vad_model_path,
        "-vt"@,
        c.vad_threshold,
        "-vspd"@,
        dec_spec(c.vad_min_speech_ms as nat),
        "-vsd"@,
        dec_spec(c.vad_min_sil_ms as nat),
        "-vp"@,
        dec_spec(c.vad_pad_ms as nat),
        "-ml"@,
        dec_spec(c.max_len_chars as nat),
        "-osrt"@,
        "-of"@,
        outbase,
        "-pp"@,
    ] + (if c.split_on_word {
        seq!["-sow"@]
    } else {
        Seq::empty()
    })
}

fn dec_string(n: u64) -> (r: String)
    ensures
        r@ == dec_spec(n as nat),
{
    let mut v: Vec<char> = Vec::new();
    push_dec(n, &mut v);
    chars_string(&v)
}

/// Build the audio-extraction argument list.
fn ffmpeg_args(input: &str, tmp: &str) -> (r: Vec<String>)
    ensures
        strs_view(r@) == ffmpeg_args_spec(input@, tmp@),
{
    let mut a: Vec<String> = Vec::new();
    a.push("-hide_banner".to_owned());
    a.push("-loglevel".to_owned());
    a.push("error".to_owned());
    a.push("-y".to_owned());
    a.push("-i".to_owned());
    a.push(input.to_owned());
    a.push("-vn".to_owned());
    a.push("-af".to_owned());
    a.push(
        "pan=mono|c0=0.35*FL+0.35*FR+0.80*FC+0.15*SL+0.15*SR,loudnorm=I=-16:LRA=11:TP=-1.5".to_owned(),
    );
    a.push("-ar".to_owned());
    a.push("16000".to_owned());
    a.push("-c:a".to_owned());
    a.push("pcm_s16le".to_owned());
    a.push(tmp.to_owned());
    assert(strs_view(a@) =~= ffmpeg_args_spec(input@, tmp@));
    a
}

/// Build the speech-recognition argument list.
fn whisper_args(c: &JobConfig, tmp: &str, outbase: &str) -> (r: Vec<String>)
    ensures
        strs_view(r@) == whisper_args_spec(c@, tmp@, outbase@),
{
    let ghost seg1 = seq!["-m"@, c@.model_path, "-f"@, tmp@, "-l"@, c@.language];
    let ghost segtr: Seq<Seq<char>> = if c@.translate {
        seq!["-tr"@]
    } else {
        Seq::empty()
    };
    let mut a: Vec<String> = Vec::new();
    a.push("-m".to_owned());
    a.push(clone_string(&c.model_path));
    a.push("-f".to_owned());
    a.push(tmp.to_owned());
    a.push("-l".to_owned());
    a.push(clone_string(&c.language));
    assert(strs_view(a@) =~= seg1);
    if c.translate {
        a.push("-tr".to_owned());
    }
    assert(strs_view(a@) =~= seg1 + segtr);
    let ghost mark = strs_view(a@);
    a.push("-t".to_owned());
    a.push(dec_string(c.threads as u64));
    a.push("-bs".to_owned());
    a.push(dec_string(c.beam_size as u64));
    a.push("-bo".to_owned());
    a.push(dec_string(c.best_of as u64));
    a.push("-nth".to_owned());
    a.push(clone_string(&c.no_speech_thold));
    a.push("-mc".to_owned());
    a.push(dec_string(c.max_context as u64));
    a.push("--suppress-nst".to_owned());
    a.push("--vad".to_owned());
    a.push("-vm".to_owned());
    a.push(clone_string(&c.vad_model_path));
    a.push("-vt".to_owned());
    a.push(clone_string(&c.vad_threshold));
    a.push("-vspd".to_owned());
    a.push(dec_string(c.vad_min_speech_ms as u64));
    a.push("-vsd".to_owned());
    a.push(dec_string(c.vad_min_sil_ms as u64));
    a.push("-vp".to_owned());
    a.push(dec_string(c.vad_pad_ms as u64));
    a.push("-ml".to_owned());
    a.push(dec_string(c.max_len_chars as u64));
    a.push("-osrt".to_owned());
    a.push("-of".to_owned());
    a.push(outbase.to_owned());
    a.push("-pp".to_owned());
    let ghost seg2 = seq![
        "-t"@,
        dec_spec(c@.threads as nat),
        "-bs"@,
        dec_spec(c@.beam_size as nat),
        "-bo"@,
        dec_spec(c@.best_of as nat),
        "-nth"@,
        c@.no_speech_thold,
        "-mc"@,
        dec_spec(c@.max_context as nat),
        "--suppress-nst"@,
        "--vad"@,
        "-vm"@,
        c@.vad_model_path,
        "-vt"@,
        c@.vad_threshold,
        "-vspd"@,
        dec_spec(c@.vad_min_speech_ms as nat),
        "-vsd"@,
        dec_spec(c@.vad_min_sil_ms as nat),
        "-vp"@,
        dec_spec(c@.vad_pad_ms as nat),
        "-ml"@,
        dec_spec(c@.max_len_chars as nat),
        "-osrt"@,
        "-of"@,
        outbase@,
        "-pp"@,
    ];
    assert(strs_view(a@) =~= mark + seg2);
    if c.split_on_word {
        a.push("-sow".to_owned());
        assert(strs_view(a@) =~= (mark + seg2).push("-sow"@));
        assert((mark + seg2).push("-sow"@) =~= mark + seg2 + seq!["-sow"@]);
    } else {
        assert(strs_view(a@) =~= mark + seg2 + Seq::<Seq<char>>::empty());
    }
    assert(strs_view(a@) =~= whisper_args_spec(c@, tmp@, outbase@));
    a
}

/// Index of the last `.` in `s` (`-1` if none).
pub open spec fn rfind_dot(s: Seq<char>) -> int
    decreases s.len(),
{
    if s.len() == 0 {
        -1
    } else if s.last() == '.' {
        s.len() - 1
    } else {
        rfind_dot(s.drop_last())
    }
}

/// What `Path::with_extension` makes of a file name: everything after the
/// last dot is replaced by the new extension, except a dot that starts the
/// name; without a replaceable extension the new one is appended.
pub open spec fn stem_with_ext_spec(stem: Seq<char>, ext: Seq<char>) -> Seq<char> {
    (if rfind_dot(stem) > 0 {
        stem.subrange(0, rfind_dot(stem))
    } else {
        stem
    }) + seq!['.'] + ext
}

/// Replace or append the extension of a bare file name.
fn stem_with_ext(stem: &Vec<char>, ext: &str) -> (r: Vec<char>)
    ensures
        r@ == stem_with_ext_spec(stem@, ext@),
{
    let n = stem.len();
    let mut i: usize = n;
    proof {
        assert(stem@.subrange(0, n as int) =~= stem@);
    }
    while i > 0 && stem[i - 1] != '.'
        invariant
            0 <= i <= n == stem@.len(),
            rfind_dot(stem@) == rfind_dot(stem@.subrange(0, i as int)),
        decreases i,
    {
        assert(stem@.subrange(0, i as int).drop_last() =~= stem@.subrange(0, i - 1));
        assert(stem@.subrange(0, i as int).last() == stem@[i - 1]);
        i = i - 1;
    }
    let ghost k = rfind_dot(stem@);
    proof {
        if i > 0 {
            assert(stem@.subrange(0, i as int).last() == '.');
            assert(k == i - 1);
        } else {
            assert(stem@.subrange(0, 0) =~= Seq::<char>::empty());
            assert(k == -1);
        }
    }
    let mut out: Vec<char>;
    if i > 1 {
        out = crate::text::subrange_chars(stem, 0, i - 1);
        assert(out@ == stem@.subrange(0, k));
    } else {
        out = crate::text::subrange_chars(stem, 0, n);
        assert(out@ =~= stem@);
    }
    out.push('.');
    push_str_chars(&mut out, ext);
    assert(out@ =~= stem_with_ext_spec(stem@, ext@));
    out
}

/// Abstract state of a running batch.
#[verifier::ext_equal]
pub ghost struct EngineV {
    pub config: JobConfigV,
    pub inputs: Seq<Seq<char>>,
    pub idx: int,
    pub outputs: Seq<Seq<char>>,
    pub phase: Phase,
    pub cur_base: Seq<char>,
    pub cur_srt: Seq<char>,
    pub tmp_wav: Seq<char>,
}

/// The engine: one transcription batch, stepped one action at a time.
pub struct Engine {
    config: JobConfig,
    inputs: Vec<String>,
    idx: usize,
    outputs: Vec<String>,
    phase: Phase,
    cur_base: String,
    cur_srt: String,
    tmp_wav: String,
    tmp_handle: Option<tempfile::TempPath>,
}

impl View for Engine {
    type V = EngineV;

    closed spec fn view(&self) -> EngineV {
        EngineV {
            config: self.config@,
            inputs: strs_view(self.inputs@),
            idx: self.idx as int,
            outputs: strs_view(self.outputs@),
            phase: self.phase,
            cur_base: self.cur_base@,
            cur_srt: self.cur_srt@,
            tmp_wav: self.tmp_wav@,
        }
    }
}

/// An event line carrying one log payload.
pub open spec fn log_line(payload: Seq<char>) -> Seq<char> {
    event_line("log"@, payload)
}

/// In every phase that works on a file, the engine stands on a real input.
pub open spec fn engine_inv(s: EngineV) -> bool {
    match s.phase {
        Phase::StartFile => 0 <= s.idx,
        Phase::Finished => true,
        Phase::Failed => true,
        _ => 0 <= s.idx < s.inputs.len(),
    }
}

/// Which events an engine in a given phase accepts.
pub open spec fn expects(phase: Phase, ev: JobEventV) -> bool {
    match phase {
        Phase::StartFile => ev is Done,
        Phase::AwaitCreateDir => ev is Done || ev is Failed,
        Phase::AwaitMtimes => ev is Mtimes,
        Phase::AwaitSkipLog => ev is Done || ev is Failed,
        Phase::AwaitProcessingLog => ev is Done || ev is Failed,
        Phase::AwaitFfmpegDryLog => ev is Done || ev is Failed,
        Phase::AwaitFfmpegRun => ev is RunExited || ev is Failed,
        Phase::AwaitWhisperDryLog => ev is Done || ev is Failed,
        Phase::AwaitWhisperRun => ev is RunExited || ev is Failed,
        Phase::AwaitPostDryLog => ev is Done || ev is Failed,
        Phase::AwaitSrtRead => ev is FileContent,
        Phase::AwaitSrtWrite => ev is Done || ev is Failed,
        Phase::AwaitWroteLog => ev is Done || ev is Failed,
        Phase::Finished => false,
        Phase::Failed => false,
    }
}

pub open spec fn fail_step(s: EngineV, m: Seq<char>) -> (EngineV, StepActV) {
    (EngineV { phase: Phase::Failed, ..s }, StepActV::Fail(m))
}

/// Begin the file at `idx`: finish the batch when none is left; resolve the
/// output base from the stem, or fail; then create the output directory if
/// one is configured, else go straight to the staleness probe.
pub open spec fn begin_file_step(s: EngineV) -> (EngineV, StepActV) {
    if s.idx >= s.inputs.len() {
        (
            EngineV { phase: Phase::Finished, ..s },
            StepActV::Finished { jobs: s.outputs.len() as int, outputs: s.outputs },
        )
    } else {
        let input = s.inputs[s.idx];
        match stem_of(input) {
            None => fail_step(s, "Invalid input filename: "@ + input),
            Some(stem) => {
                let dir = match s.config.output_dir {
                    Some(d) => d,
                    None => parent_dir_of(input),
                };
                let base = join_path_spec(dir, stem);
                let srt = join_path_spec(dir, stem_with_ext_spec(stem, "srt"@));
                let tmp = join_path_spec(dir, stem_with_ext_spec(stem, "__tmp__.wav"@));
                let s2 = EngineV { cur_base: base, cur_srt: srt, tmp_wav: tmp, ..s };
                match s.config.output_dir {
                    Some(d) => (
                        EngineV { phase: Phase::AwaitCreateDir, ..s2 },
                        StepActV::Next(JobActionV::CreateDirAll(d)),
                    ),
                    None => (
                        EngineV { phase: Phase::AwaitMtimes, ..s2 },
                        StepActV::Next(JobActionV::QueryMtimes { input, output: srt }),
                    ),
                }
            },
        }
    }
}

/// Ask for the audio extraction: in dry-run only its trace is logged.
pub open spec fn ffmpeg_stage_step(s: EngineV) -> (EngineV, StepActV) {
    let args = ffmpeg_args_spec(s.inputs[s.idx], s.tmp_wav);
    if s.config.dry_run {
        (
            EngineV { phase: Phase::AwaitFfmpegDryLog, ..s },
            StepActV::Next(
                JobActionV::EmitLine(
                    log_line("DRY-RUN "@ + rendered_invocation(s.config.ffmpeg_path, args)),
                ),
            ),
        )
    } else {
        (
            EngineV { phase: Phase::AwaitFfmpegRun, ..s },
            StepActV::Next(
                JobActionV::Run {
                    program: s.config.ffmpeg_path,
                    args,
                    env_vk_icd: s.config.vk_icd_filenames,
                },
            ),
        )
    }
}

/// Ask for the speech recognition: in dry-run only its trace is logged.
pub open spec fn whisper_stage_step(s: EngineV) -> (EngineV, StepActV) {
    let args = whisper_args_spec(s.config, s.tmp_wav, s.cur_base);
    if s.config.dry_run {
        (
            EngineV { phase: Phase::AwaitWhisperDryLog, ..s },
            StepActV::Next(
                JobActionV::EmitLine(
                    log_line("DRY-RUN "@ + rendered_invocation(s.config.whisper_path, args)),
                ),
            ),
        )
    } else {
        (
            EngineV { phase: Phase::AwaitWhisperRun, ..s },
            StepActV::Next(
                JobActionV::Run {
                    program: s.config.whisper_path,
                    args,
                    env_vk_icd: s.config.vk_icd_filenames,
                },
            ),
        )
    }
}

/// After both tools: deduplicate the subtitle file, or in dry-run only say
/// that it would happen.
pub open spec fn post_stage_step(s: EngineV) -> (EngineV, StepActV) {
    if s.config.dry_run {
        (
            EngineV { phase: Phase::AwaitPostDryLog, ..s },
            StepActV::Next(
                JobActionV::EmitLine(log_line("DRY-RUN post-process SRT: "@ + s.cur_srt)),
            ),
        )
    } else {
        (
            EngineV { phase: Phase::AwaitSrtRead, ..s },
            StepActV::Next(JobActionV::ReadFile(s.cur_srt)),
        )
    }
}

/// The file is done: report what was written.
pub open spec fn finish_file_step(s: EngineV) -> (EngineV, StepActV) {
    (
        EngineV { phase: Phase::AwaitWroteLog, ..s },
        StepActV::Next(JobActionV::EmitLine(log_line("Wrote: "@ + s.cur_srt))),
    )
}

/// Record the current output path and move to the next file.
pub open spec fn record_next_step(s: EngineV) -> (EngineV, StepActV) {
    begin_file_step(EngineV { outputs: s.outputs.push(s.cur_srt), idx: s.idx + 1, ..s })
}

/// The outcome of the dedup read: nothing to do, a rewrite, or a parse
/// failure that poisons the batch.
pub open spec fn dedup_step(s: EngineV, content: Option<Seq<char>>) -> (EngineV, StepActV) {
    match content {
        None => finish_file_step(s),
        Some(text) => match dedup_spec(text, s.config.dedup_merge_gap_ms) {
            Err(_) => fail_step(s, "Invalid timestamp"@),
            Ok(None) => finish_file_step(s),
            Ok(Some(out)) => (
                EngineV { phase: Phase::AwaitSrtWrite, ..s },
                StepActV::Next(JobActionV::WriteFile { path: s.cur_srt, content: out }),
            ),
        },
    }
}

/// The working-audio acquisition outcome in a real run: a path, or a
/// failure that poisons the batch.
pub open spec fn engine_step_temp(s: EngineV, tr: Result<Seq<char>, Seq<char>>) -> (
    EngineV,
    StepActV,
) {
    match tr {
        Err(m) => fail_step(s, m),
        Ok(p) => ffmpeg_stage_step(EngineV { tmp_wav: p, ..s }),
    }
}

/// The full transition: what the engine does in each phase with each
/// expected event. The one transition not covered is the working-audio
/// acquisition of a real run, which `engine_step_temp` describes.
pub open spec fn engine_step(s: EngineV, ev: JobEventV) -> (EngineV, StepActV) {
    match s.phase {
        Phase::StartFile => begin_file_step(s),
        Phase::AwaitCreateDir => match ev {
            JobEventV::Failed(m) => fail_step(s, m),
            _ => (
                EngineV { phase: Phase::AwaitMtimes, ..s },
                StepActV::Next(
                    JobActionV::QueryMtimes { input: s.inputs[s.idx], output: s.cur_srt },
                ),
            ),
        },
        Phase::AwaitMtimes => match ev {
            JobEventV::Mtimes { input_modified, output_modified } => {
                let fresh = match (input_modified, output_modified) {
                    (Some(i), Some(o)) => o >= i,
                    _ => false,
                };
                if fresh {
                    (
                        EngineV { phase: Phase::AwaitSkipLog, ..s },
                        StepActV::Next(
                            JobActionV::EmitLine(
                                log_line("SKIP (up-to-date): "@ + s.inputs[s.idx]),
                            ),
                        ),
                    )
                } else {
                    (
                        EngineV { phase: Phase::AwaitProcessingLog, ..s },
                        StepActV::Next(
                            JobActionV::EmitLine(log_line("Processing "@ + s.inputs[s.idx])),
                        ),
                    )
                }
            },
            _ => fail_step(s, Seq::empty()),
        },
        Phase::AwaitSkipLog => match ev {
            JobEventV::Failed(m) => fail_step(s, m),
            _ => record_next_step(s),
        },
        Phase::AwaitProcessingLog => match ev {
            JobEventV::Failed(m) => fail_step(s, m),
            _ => if s.config.dry_run {
                ffmpeg_stage_step(s)
            } else {
                engine_step_temp(s, Ok(s.tmp_wav))
            },
        },
        Phase::AwaitFfmpegDryLog => match ev {
            JobEventV::Failed(m) => fail_step(s, m),
            _ => whisper_stage_step(s),
        },
        Phase::AwaitFfmpegRun => match ev {
            JobEventV::Failed(m) => fail_step(s, m),
            JobEventV::RunExited { success } => {
                if success {
                    whisper_stage_step(s)
                } else {
                    fail_step(
                        s,
                        "Command failed: "@ + rendered_invocation(
                            s.config.ffmpeg_path,
                            ffmpeg_args_spec(s.inputs[s.idx], s.tmp_wav),
                        ),
                    )
                }
            },
            _ => fail_step(s, Seq::empty()),
        },
        Phase::AwaitWhisperDryLog => match ev {
            JobEventV::Failed(m) => fail_step(s, m),
            _ => post_stage_step(s),
        },
        Phase::AwaitWhisperRun => match ev {
            JobEventV::Failed(m) => fail_step(s, m),
            JobEventV::RunExited { success } => {
                if success {
                    post_stage_step(s)
                } else {
                    fail_step(
                        s,
                        "Command failed: "@ + rendered_invocation(
                            s.config.whisper_path,
                            whisper_args_spec(s.config, s.tmp_wav, s.cur_base),
                        ),
                    )
                }
            },
            _ => fail_step(s, Seq::empty()),
        },
        Phase::AwaitPostDryLog => match ev {
            JobEventV::Failed(m) => fail_step(s, m),
            _ => finish_file_step(s),
        },
        Phase::AwaitSrtRead => match ev {
            JobEventV::FileContent(content) => dedup_step(s, content),
            _ => fail_step(s, Seq::empty()),
        },
        Phase::AwaitSrtWrite => match ev {
            JobEventV::Failed(m) => fail_step(s, m),
            _ => finish_file_step(s),
        },
        Phase::AwaitWroteLog => match ev {
            JobEventV::Failed(m) => fail_step(s, m),
            _ => record_next_step(s),
        },
        Phase::Finished => fail_step(s, Seq::empty()),
        Phase::Failed => fail_step(s, Seq::empty()),
    }
}

impl Engine {
    /// Set up a batch: enumerate the inputs and, unless this is a dry run,
    /// check the four external resources up front.
    pub fn new(config: JobConfig) -> (r: Result<Engine, String>)
        ensures
            r matches Ok(eng) ==> {
                &&& eng@.config == config@
                &&& eng@.idx == 0
                &&& eng@.outputs.len() == 0
                &&& eng@.phase is StartFile
                &&& eng@.inputs.len() >= 1
                &&& ((eng@.inputs.len() == 1 && eng@.inputs[0] == config@.input_path) || (forall|
                    j: int,
                |
                    0 <= j < eng@.inputs.len() ==> has_media_ext(#[trigger] eng@.inputs[j])))
            },
    {
        let inputs = match collect_inputs(config.input_path.as_str()) {
            Ok(files) => files,
            Err(e) => {
                return Err(e);
            },
        };
        if inputs.len() == 0 {
            let mut out: Vec<char> = Vec::new();
            push_str_chars(&mut out, "No media files found at ");
            push_str_chars(&mut out, config.input_path.as_str());
            return Err(chars_string(&out));
        }
        if !config.dry_run {
            match ensure_path_exists("whisper-cli", config.whisper_path.as_str()) {
                Ok(_) => (),
                Err(e) => {
                    return Err(e);
                },
            }
            match ensure_path_exists("Whisper model", config.model_path.as_str()) {
                Ok(_) => (),
                Err(e) => {
                    return Err(e);
                },
            }
            match ensure_path_exists("VAD model", config.vad_model_path.as_str()) {
                Ok(_) => (),
                Err(e) => {
                    return Err(e);
                },
            }
            match ensure_executable_available("ffmpeg", config.ffmpeg_path.as_str()) {
                Ok(_) => (),
                Err(e) => {
                    return Err(e);
                },
            }
        }
        let ghost iv = strs_view(inputs@);
        let eng = Engine {
            config,
            inputs,
            idx: 0,
            outputs: Vec::new(),
            phase: Phase::StartFile,
            cur_base: String::new(),
            cur_srt: String::new(),
            tmp_wav: String::new(),
            tmp_handle: None,
        };
        proof {
            assert(strs_view(eng.outputs@) =~= Seq::<Seq<char>>::empty());
            assert forall|j: int| 0 <= j < eng@.inputs.len() implies eng@.inputs[j]
                == eng.inputs@[j]@ by {
            }
        }
        Ok(eng)
    }

    /// Begin the file at `idx`, or finish.
    fn begin_file(&mut self) -> (r: StepAct)
        ensures
            (final(self)@, r@) == begin_file_step(old(self)@),
    {
        if self.idx >= self.inputs.len() {
            self.phase = Phase::Finished;
            let outs = clone_strings(&self.outputs);
            let r = StepAct::Finished { jobs: outs.len(), outputs: outs };
            proof {
                assert(final(self)@ =~= begin_file_step(old(self)@).0);
                assert(r@ =~= begin_file_step(old(self)@).1);
            }
            return r;
        }
        let input = clone_string(&self.inputs[self.idx]);
        let stem = match file_stem(input.as_str()) {
            Some(s) => s,
            None => {
                self.phase = Phase::Failed;
                let mut out: Vec<char> = Vec::new();
                push_str_chars(&mut out, "Invalid input filename: ");
                push_str_chars(&mut out, input.as_str());
                let r = StepAct::Fail(chars_string(&out));
                proof {
                    assert(final(self)@ =~= begin_file_step(old(self)@).0);
                    assert(r@ =~= begin_file_step(old(self)@).1);
                }
                return r;
            },
        };
        let dir = match &self.config.output_dir {
            Some(d) => clone_string(d),
            None => parent_dir(input.as_str()),
        };
        let stem_chars = str_chars(stem.as_str());
        self.cur_base = join_path(dir.as_str(), stem.as_str());
        let srt_name = stem_with_ext(&stem_chars, "srt");
        self.cur_srt = join_path(dir.as_str(), chars_string(&srt_name).as_str());
        let tmp_name = stem_with_ext(&stem_chars, "__tmp__.wav");
        self.tmp_wav = join_path(dir.as_str(), chars_string(&tmp_name).as_str());
        match &self.config.output_dir {
            Some(d) => {
                self.phase = Phase::AwaitCreateDir;
                let r = StepAct::Next(JobAction::CreateDirAll(clone_string(d)));
                proof {
                    assert(final(self)@ =~= begin_file_step(old(self)@).0);
                    assert(r@ =~= begin_file_step(old(self)@).1);
                }
                r
            },
            None => {
                self.phase = Phase::AwaitMtimes;
                let r = StepAct::Next(
                    JobAction::QueryMtimes { input, output: clone_string(&self.cur_srt) },
                );
                proof {
                    assert(final(self)@ =~= begin_file_step(old(self)@).0);
                    assert(r@ =~= begin_file_step(old(self)@).1);
                }
                r
            },
        }
    }

    /// Ask for the audio extraction.
    fn ffmpeg_stage(&mut self) -> (r: StepAct)
        requires
            0 <= old(self)@.idx < old(self)@.inputs.len(),
        ensures
            (final(self)@, r@) == ffmpeg_stage_step(old(self)@),
    {
        let input = clone_string(&self.inputs[self.idx]);
        let args = ffmpeg_args(input.as_str(), self.tmp_wav.as_str());
        if self.config.dry_run {
            let rendered = render_invocation(self.config.ffmpeg_path.as_str(), &args);
            let mut payload: Vec<char> = Vec::new();
            push_str_chars(&mut payload, "DRY-RUN ");
            push_str_chars(&mut payload, rendered.as_str());
            let line = encode_event("log", chars_string(&payload).as_str());
            self.phase = Phase::AwaitFfmpegDryLog;
            let r = StepAct::Next(JobAction::EmitLine(line));
            proof {
                assert(final(self)@ =~= ffmpeg_stage_step(old(self)@).0);
                assert(r@ =~= ffmpeg_stage_step(old(self)@).1);
            }
            r
        } else {
            self.phase = Phase::AwaitFfmpegRun;
            let env = match &self.config.vk_icd_filenames {
                Some(v) => Some(clone_string(v)),
                None => None,
            };
            let r = StepAct::Next(
                JobAction::Run {
                    program: clone_string(&self.config.ffmpeg_path),
                    args,
                    env_vk_icd: env,
                },
            );
            proof {
                assert(final(self)@ =~= ffmpeg_stage_step(old(self)@).0);
                assert(r@ =~= ffmpeg_stage_step(old(self)@).1);
            }
            r
        }
    }

    /// Ask for the speech recognition.
    fn whisper_stage(&mut self) -> (r: StepAct)
        ensures
            (final(self)@, r@) == whisper_stage_step(old(self)@),
    {
        let args = whisper_args(&self.config, self.tmp_wav.as_str(), self.cur_base.as_str());
        if self.config.dry_run {
            let rendered = render_invocation(self.config.whisper_path.as_str(), &args);
            let mut payload: Vec<char> = Vec::new();
            push_str_chars(&mut payload, "DRY-RUN ");
            push_str_chars(&mut payload, rendered.as_str());
            let line = encode_event("log", chars_string(&payload).as_str());
            self.phase = Phase::AwaitWhisperDryLog;
            let r = StepAct::Next(JobAction::EmitLine(line));
            proof {
                assert(final(self)@ =~= whisper_stage_step(old(self)@).0);
                assert(r@ =~= whisper_stage_step(old(self)@).1);
            }
            r
        } else {
            self.phase = Phase::AwaitWhisperRun;
            let env = match &self.config.vk_icd_filenames {
                Some(v) => Some(clone_string(v)),
                None => None,
            };
            let r = StepAct::Next(
                JobAction::Run {
                    program: clone_string(&self.config.whisper_path),
                    args,
                    env_vk_icd: env,
                },
            );
            proof {
                assert(final(self)@ =~= whisper_stage_step(old(self)@).0);
                assert(r@ =~= whisper_stage_step(old(self)@).1);
            }
            r
        }
    }

    /// Ask for the post-processing step.
    fn post_stage(&mut self) -> (r: StepAct)
        ensures
            (final(self)@, r@) == post_stage_step(old(self)@),
    {
        if self.config.dry_run {
            let mut payload: Vec<char> = Vec::new();
            push_str_chars(&mut payload, "DRY-RUN post-process SRT: ");
            push_str_chars(&mut payload, self.cur_srt.as_str());
            let line = encode_event("log", chars_string(&payload).as_str());
            self.phase = Phase::AwaitPostDryLog;
            let r = StepAct::Next(JobAction::EmitLine(line));
            proof {
                assert(final(self)@ =~= post_stage_step(old(self)@).0);
                assert(r@ =~= post_stage_step(old(self)@).1);
            }
            r
        } else {
            self.phase = Phase::AwaitSrtRead;
            let r = StepAct::Next(JobAction::ReadFile(clone_string(&self.cur_srt)));
            proof {
                assert(final(self)@ =~= post_stage_step(old(self)@).0);
                assert(r@ =~= post_stage_step(old(self)@).1);
            }
            r
        }
    }

    /// The current file is done: release the working audio and report.
    fn finish_file(&mut self) -> (r: StepAct)
        ensures
            (final(self)@, r@) == finish_file_step(old(self)@),
    {
        self.tmp_handle = None;
        let mut payload: Vec<char> = Vec::new();
        push_str_chars(&mut payload, "Wrote: ");
        push_str_chars(&mut payload, self.cur_srt.as_str());
        let line = encode_event("log", chars_string(&payload).as_str());
        self.phase = Phase::AwaitWroteLog;
        let r = StepAct::Next(JobAction::EmitLine(line));
        proof {
            assert(final(self)@ =~= finish_file_step(old(self)@).0);
            assert(r@ =~= finish_file_step(old(self)@).1);
        }
        r
    }

    fn fail_with(&mut self, m: String) -> (r: StepAct)
        ensures
            (final(self)@, r@) == fail_step(old(self)@, m@),
    {
        self.phase = Phase::Failed;
        let r = StepAct::Fail(m);
        proof {
            assert(final(self)@ =~= fail_step(old(self)@, m@).0);
        }
        r
    }

    /// Consume one reported outcome and produce the next action, the
    /// finished batch, or the batch's failure. A real run's working-audio
    /// acquisition is the one machine-dependent transition; every other
    /// transition is exactly `engine_step`.
    pub fn step(&mut self, ev: JobEvent) -> (r: StepAct)
        requires
            expects(old(self)@.phase, ev@),
            engine_inv(old(self)@),
        ensures
            (old(self)@.phase is AwaitProcessingLog && ev@ is Done && !old(
                self,
            )@.config.dry_run) ==> (exists|tr: Result<Seq<char>, Seq<char>>|
                (final(self)@, r@) == #[trigger] engine_step_temp(old(self)@, tr)),
            !(old(self)@.phase is AwaitProcessingLog && ev@ is Done && !old(
                self,
            )@.config.dry_run) ==> (final(self)@, r@) == engine_step(old(self)@, ev@),
    {
        match self.phase {
            Phase::StartFile => self.begin_file(),
            Phase::AwaitCreateDir => match ev {
                JobEvent::Failed(m) => self.fail_with(m),
                _ => {
                    self.phase = Phase::AwaitMtimes;
                    let input = clone_string(&self.inputs[self.idx]);
                    let r = StepAct::Next(
                        JobAction::QueryMtimes { input, output: clone_string(&self.cur_srt) },
                    );
                    proof {
                        assert(final(self)@ =~= engine_step(old(self)@, ev@).0);
                        assert(r@ =~= engine_step(old(self)@, ev@).1);
                    }
                    r
                },
            },
            Phase::AwaitMtimes => match ev {
                JobEvent::Mtimes { input_modified, output_modified } => {
                    let fresh = is_up_to_date_with_modified(input_modified, output_modified);
                    let input = clone_string(&self.inputs[self.idx]);
                    if fresh {
                        let mut payload: Vec<char> = Vec::new();
                        push_str_chars(&mut payload, "SKIP (up-to-date): ");
                        push_str_chars(&mut payload, input.as_str());
                        let line = encode_event("log", chars_string(&payload).as_str());
                        self.phase = Phase::AwaitSkipLog;
                        let r = StepAct::Next(JobAction::EmitLine(line));
                        proof {
                            assert(final(self)@ =~= engine_step(old(self)@, ev@).0);
                            assert(r@ =~= engine_step(old(self)@, ev@).1);
                        }
                        r
                    } else {
                        let mut payload: Vec<char> = Vec::new();
                        push_str_chars(&mut payload, "Processing ");
                        push_str_chars(&mut payload, input.as_str());
                        let line = encode_event("log", chars_string(&payload).as_str());
                        self.phase = Phase::AwaitProcessingLog;
                        let r = StepAct::Next(JobAction::EmitLine(line));
                        proof {
                            assert(final(self)@ =~= engine_step(old(self)@, ev@).0);
                            assert(r@ =~= engine_step(old(self)@, ev@).1);
                        }
                        r
                    }
                },
                _ => self.fail_with(String::new()),
            },
            Phase::AwaitSkipLog => match ev {
                JobEvent::Failed(m) => self.fail_with(m),
                _ => {
                    let srt = clone_string(&self.cur_srt);
                    self.outputs.push(srt);
                    let n = self.inputs.len();
                    assert(self.idx < n);
                    self.idx = self.idx + 1;
                    proof {
                        assert(strs_view(self.outputs@) =~= old(self)@.outputs.push(
                            old(self)@.cur_srt,
                        ));
                    }
                    self.begin_file()
                },
            },
            Phase::AwaitProcessingLog => match ev {
                JobEvent::Failed(m) => self.fail_with(m),
                _ => {
                    if self.config.dry_run {
                        self.ffmpeg_stage()
                    } else {
                        match make_temp_wav() {
                            Err(e) => {
                                let ghost ee = e@;
                                let r = self.fail_with(e);
                                proof {
                                    assert((final(self)@, r@) == engine_step_temp(
                                        old(self)@,
                                        Err(ee),
                                    ));
                                }
                                r
                            },
                            Ok(tp) => {
                                self.tmp_wav = temp_path_str(&tp);
                                self.tmp_handle = Some(tp);
                                let ghost mid = self@;
                                let r = self.ffmpeg_stage();
                                proof {
                                    assert(mid =~= EngineV {
                                        tmp_wav: mid.tmp_wav,
                                        ..old(self)@
                                    });
                                    assert((final(self)@, r@) == engine_step_temp(
                                        old(self)@,
                                        Ok(mid.tmp_wav),
                                    ));
                                }
                                r
                            },
                        }
                    }
                },
            },
            Phase::AwaitFfmpegDryLog => match ev {
                JobEvent::Failed(m) => self.fail_with(m),
                _ => self.whisper_stage(),
            },
            Phase::AwaitFfmpegRun => match ev {
                JobEvent::Failed(m) => self.fail_with(m),
                JobEvent::RunExited { success } => {
                    if success {
                        self.whisper_stage()
                    } else {
                        let input = clone_string(&self.inputs[self.idx]);
                        let args = ffmpeg_args(input.as_str(), self.tmp_wav.as_str());
                        let rendered = render_invocation(self.config.ffmpeg_path.as_str(), &args);
                        let mut out: Vec<char> = Vec::new();
                        push_str_chars(&mut out, "Command failed: ");
                        push_str_chars(&mut out, rendered.as_str());
                        self.fail_with(chars_string(&out))
                    }
                },
                _ => self.fail_with(String::new()),
            },
            Phase::AwaitWhisperDryLog => match ev {
                JobEvent::Failed(m) => self.fail_with(m),
                _ => self.post_stage(),
            },
            Phase::AwaitWhisperRun => match ev {
                JobEvent::Failed(m) => self.fail_with(m),
                JobEvent::RunExited { success } => {
                    if success {
                        self.post_stage()
                    } else {
                        let args = whisper_args(
                            &self.config,
                            self.tmp_wav.as_str(),
                            self.cur_base.as_str(),
                        );
                        let rendered = render_invocation(self.config.whisper_path.as_str(), &args);
                        let mut out: Vec<char> = Vec::new();
                        push_str_chars(&mut out, "Command failed: ");
                        push_str_chars(&mut out, rendered.as_str());
                        self.fail_with(chars_string(&out))
                    }
                },
                _ => self.fail_with(String::new()),
            },
            Phase::AwaitPostDryLog => match ev {
                JobEvent::Failed(m) => self.fail_with(m),
                _ => self.finish_file(),
            },
            Phase::AwaitSrtRead => match ev {
                JobEvent::FileContent(content) => match content {
                    None => self.finish_file(),
                    Some(text) => match dedup_content(text.as_str(), self.config.dedup_merge_gap_ms) {
                        Err(e) => self.fail_with(e),
                        Ok(None) => self.finish_file(),
                        Ok(Some(rewritten)) => {
                            self.phase = Phase::AwaitSrtWrite;
                            let r = StepAct::Next(
                                JobAction::WriteFile {
                                    path: clone_string(&self.cur_srt),
                                    content: rewritten,
                                },
                            );
                            proof {
                                assert(final(self)@ =~= engine_step(old(self)@, ev@).0);
                                assert(r@ =~= engine_step(old(self)@, ev@).1);
                            }
                            r
                        },
                    },
                },
                _ => self.fail_with(String::new()),
            },
            Phase::AwaitSrtWrite => match ev {
                JobEvent::Failed(m) => self.fail_with(m),
                _ => self.finish_file(),
            },
            Phase::AwaitWroteLog => match ev {
                JobEvent::Failed(m) => self.fail_with(m),
                _ => {
                    let srt = clone_string(&self.cur_srt);
                    self.outputs.push(srt);
                    let n = self.inputs.len();
                    assert(self.idx < n);
                    self.idx = self.idx + 1;
                    proof {
                        assert(strs_view(self.outputs@) =~= old(self)@.outputs.push(
                            old(self)@.cur_srt,
                        ));
                    }
                    self.begin_file()
                },
            },
            Phase::Finished => self.fail_with(String::new()),
            Phase::Failed => self.fail_with(String::new()),
        }
    }
}

/// Skip rule. With both modification times known and the input strictly
/// older than the output, the engine reports the file as skipped, and on
/// acknowledgment records the existing output and moves to the next file —
/// no external tool is invoked for it. With the output's time unknown
/// (the artifact missing), the file is processed.
pub proof fn lemma_skip_rule(s: EngineV, input_m: int, output_m: int)
    requires
        s.phase is AwaitMtimes,
    ensures
        input_m < output_m ==> ({
            let (s2, act) = engine_step(
                s,
                JobEventV::Mtimes {
                    input_modified: Some(input_m),
                    output_modified: Some(output_m),
                },
            );
            &&& s2.phase is AwaitSkipLog
            &&& act == StepActV::Next(
                JobActionV::EmitLine(log_line("SKIP (up-to-date): "@ + s.inputs[s.idx])),
            )
            &&& ({
                let (s3, _act3) = engine_step(s2, JobEventV::Done);
                s3.outputs == s.outputs.push(s.cur_srt) && s3.idx == s.idx + 1
            })
        }),
        ({
            let (s2, act) = engine_step(
                s,
                JobEventV::Mtimes { input_modified: Some(input_m), output_modified: None },
            );
            s2.phase is AwaitProcessingLog && act == StepActV::Next(
                JobActionV::EmitLine(log_line("Processing "@ + s.inputs[s.idx])),
            )
        }),
{
}

proof fn lemma_media_filter_all(es: Seq<(bool, Seq<char>)>, i: int)
    ensures
        forall|j: int|
            0 <= j < media_filter_from(es, i).len() ==> has_media_ext(
                #[trigger] media_filter_from(es, i)[j],
            ),
    decreases es.len() - i,
{
    if 0 <= i < es.len() {
        lemma_media_filter_all(es, i + 1);
        let cur = media_filter_from(es, i);
        let rest = media_filter_from(es, i + 1);
        if es[i].0 && has_media_ext(es[i].1) {
            assert(cur == seq![es[i].1] + rest);
            assert forall|j: int| 0 <= j < cur.len() implies has_media_ext(cur[j]) by {
                if j > 0 {
                    assert(cur[j] == rest[j - 1]);
                }
            }
        } else {
            assert(cur == Seq::<Seq<char>>::empty() + rest);
            assert forall|j: int| 0 <= j < cur.len() implies has_media_ext(cur[j]) by {
                assert(cur[j] == rest[j]);
            }
        }
    }
}

} // verus!
