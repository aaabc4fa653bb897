//! One whisper-cli run: the single slot that lets one run start at a time, the arguments the
//! decoder and whisper-cli are started with, the bounded diagnostics kept from their output,
//! and what the run answers when it did not produce a transcript.
use vstd::prelude::*;

use crate::command::{arg_views, push_arg, push_arg_chars};
use crate::media::diagnostics::{cap_details, capped_details};
use crate::media::envelope::SpeechEnvelope;
use crate::media::whisper::{is_whisper_noise_line, whisper_noise, SpeechRegion};
use crate::text::{chars_of, decimal, decimal_exec, seq_eq, string_of, trim, trimmed};

verus! {

/// What a cancelled transcription answers.
pub const TRANSCRIPTION_CANCELLED: &'static str = "transcription cancelled.";

/// The longest stretch, in seconds, the voice detector hands whisper as one piece.
pub const VAD_MAX_SPEECH_SECONDS: &'static str = "20";

/// The most bytes a diagnostic buffer grows to before it stops taking lines.
pub const DIAGNOSTIC_BYTES: usize = 8192;

/// The one whisper-cli slot: whether a run holds it.
pub struct WhisperSlot {
    busy: bool,
}

impl WhisperSlot {
    pub fn new() -> (slot: WhisperSlot)
        ensures
            !slot.is_busy(),
    {
        WhisperSlot { busy: false }
    }

    pub closed spec fn is_busy(&self) -> bool {
        self.busy
    }

    pub fn busy(&self) -> (b: bool)
        ensures
            b == self.is_busy(),
    {
        self.busy
    }
}

/// Proof that a run holds the slot; handing it back frees the slot.
pub struct WhisperSlotGuard {
    _held: (),
}

impl WhisperSlotGuard {
    /// Takes the slot when it is free; when a run already holds it, refuses with
    /// `busy_message` and leaves the slot as it was.
    pub fn acquire(slot: &mut WhisperSlot, busy_message: &str) -> (r: Result<WhisperSlotGuard, String>)
        ensures
            old(slot).is_busy() ==> (r matches Err(m) && m@ == busy_message@),
            old(slot).is_busy() ==> final(slot).is_busy(),
            !old(slot).is_busy() ==> r is Ok && final(slot).is_busy(),
    {
        if slot.busy {
            Err(busy_message.to_string())
        } else {
            slot.busy = true;
            Ok(WhisperSlotGuard { _held: () })
        }
    }

    /// Gives the slot back.
    pub fn release(self, slot: &mut WhisperSlot)
        ensures
            !final(slot).is_busy(),
    {
        slot.busy = false;
    }
}

/// What one transcription is run with.
#[derive(Debug, Clone)]
pub struct WhisperTranscriptionRequest {
    pub cli_path: String,
    pub model_path: String,
    pub vad_model_path: String,
    pub audio_path: String,
    pub language: String,
    pub ffmpeg_path: String,
    pub thread_count: usize,
    pub music_mode: bool,
    pub fast_decode: bool,
}

/// What one transcription produced.
#[derive(Debug, Clone)]
pub struct WhisperTranscriptionResult {
    pub transcript_path: String,
    pub json_path: String,
    pub speech_regions: Vec<SpeechRegion>,
    pub speech_envelope: Option<SpeechEnvelope>,
}

/// The worker threads for a CPU-usage preference on a machine with `cores` cores: all but
/// two for `high`, a quarter for `low`, half otherwise, and never fewer than one.
pub open spec fn thread_count_for(cpu_usage: Seq<char>, cores: nat) -> nat {
    let n = if cpu_usage == "high"@ {
        if cores >= 2 {
            (cores - 2) as nat
        } else {
            0
        }
    } else if cpu_usage == "low"@ {
        cores / 4
    } else {
        cores / 2
    };
    if n >= 1 {
        n
    } else {
        1
    }
}

pub fn transcription_thread_count(cpu_usage: &str, cores: usize) -> (n: usize)
    ensures
        n == thread_count_for(cpu_usage@, cores as nat),
        n >= 1,
{
    proof {
        reveal_strlit("high");
        reveal_strlit("low");
    }
    let usage = chars_of(cpu_usage);
    let n = if seq_eq(usage.as_slice(), chars_of("high").as_slice()) {
        cores.saturating_sub(2)
    } else if seq_eq(usage.as_slice(), chars_of("low").as_slice()) {
        cores / 4
    } else {
        cores / 2
    };
    if n >= 1 {
        n
    } else {
        1
    }
}

/// The arguments that decode any recording to the 16 kHz mono 16-bit WAV whisper and its
/// voice detector read.
pub open spec fn decode_args_spec(input: Seq<char>, output: Seq<char>) -> Seq<Seq<char>> {
    seq![
        "-y"@,
        "-nostdin"@,
        "-hide_banner"@,
        "-loglevel"@,
        "error"@,
        "-i"@,
        input,
        "-map"@,
        "0:a:0"@,
        "-vn"@,
        "-ar"@,
        "16000"@,
        "-ac"@,
        "1"@,
        "-c:a"@,
        "pcm_s16le"@,
        output,
    ]
}

pub fn decode_args(input: &str, output: &str) -> (args: Vec<String>)
    ensures
        arg_views(args@) == decode_args_spec(input@, output@),
{
    let mut args: Vec<String> = Vec::new();
    push_arg(&mut args, "-y");
    push_arg(&mut args, "-nostdin");
    push_arg(&mut args, "-hide_banner");
    push_arg(&mut args, "-loglevel");
    push_arg(&mut args, "error");
    push_arg(&mut args, "-i");
    push_arg(&mut args, input);
    push_arg(&mut args, "-map");
    push_arg(&mut args, "0:a:0");
    push_arg(&mut args, "-vn");
    push_arg(&mut args, "-ar");
    push_arg(&mut args, "16000");
    push_arg(&mut args, "-ac");
    push_arg(&mut args, "1");
    push_arg(&mut args, "-c:a");
    push_arg(&mut args, "pcm_s16le");
    push_arg(&mut args, output);
    assert(arg_views(args@) =~= decode_args_spec(input@, output@));
    args
}

/// The arguments of one whisper-cli pass: model, input, both outputs under `output_base`,
/// progress, the thread count, no carried context, no non-speech tokens; a beam of one for a
/// fast decode; the voice detector unless in music mode; and the language when one is
/// named.
pub open spec fn whisper_args_spec(
    model: Seq<char>,
    audio: Seq<char>,
    output_base: Seq<char>,
    vad_model: Seq<char>,
    language: Seq<char>,
    threads: nat,
    music_mode: bool,
    fast_decode: bool,
) -> Seq<Seq<char>> {
    let base = seq![
        "--model"@,
        model,
        "--file"@,
        audio,
        "--output-txt"@,
        "--output-json"@,
        "--output-file"@,
        output_base,
        "--print-progress"@,
        "-t"@,
        decimal(threads),
        "-mc"@,
        "0"@,
        "--suppress-nst"@,
    ];
    let fast = if fast_decode {
        seq!["-bs"@, "1"@]
    } else {
        Seq::empty()
    };
    let vad = if !music_mode {
        seq![
            "--vad"@,
            "--vad-model"@,
            vad_model,
            "--vad-max-speech-duration-s"@,
            VAD_MAX_SPEECH_SECONDS@,
        ]
    } else {
        Seq::empty()
    };
    let lang = if trim(language).len() > 0 {
        seq!["--language"@, trim(language)]
    } else {
        Seq::empty()
    };
    base + fast + vad + lang
}

pub fn whisper_cli_args(
    model: &str,
    audio: &str,
    output_base: &str,
    vad_model: &str,
    language: &str,
    threads: usize,
    music_mode: bool,
    fast_decode: bool,
) -> (args: Vec<String>)
    ensures
        arg_views(args@) == whisper_args_spec(
            model@,
            audio@,
            output_base@,
            vad_model@,
            language@,
            threads as nat,
            music_mode,
            fast_decode,
        ),
{
    let mut args: Vec<String> = Vec::new();
    push_arg(&mut args, "--model");
    push_arg(&mut args, model);
    push_arg(&mut args, "--file");
    push_arg(&mut args, audio);
    push_arg(&mut args, "--output-txt");
    push_arg(&mut args, "--output-json");
    push_arg(&mut args, "--output-file");
    push_arg(&mut args, output_base);
    push_arg(&mut args, "--print-progress");
    push_arg(&mut args, "-t");
    let count = decimal_exec(threads as u64);
    push_arg_chars(&mut args, count.as_slice());
    push_arg(&mut args, "-mc");
    push_arg(&mut args, "0");
    push_arg(&mut args, "--suppress-nst");
    let ghost base = arg_views(args@);
    if fast_decode {
        push_arg(&mut args, "-bs");
        push_arg(&mut args, "1");
    }
    let ghost with_fast = arg_views(args@);
    if !music_mode {
        push_arg(&mut args, "--vad");
        push_arg(&mut args, "--vad-model");
        push_arg(&mut args, vad_model);
        push_arg(&mut args, "--vad-max-speech-duration-s");
        push_arg(&mut args, VAD_MAX_SPEECH_SECONDS);
    }
    let ghost with_vad = arg_views(args@);
    let lang = trimmed(chars_of(language).as_slice());
    if lang.len() > 0 {
        push_arg(&mut args, "--language");
        push_arg_chars(&mut args, lang.as_slice());
    }
    proof {
        let fast = if fast_decode {
            seq!["-bs"@, "1"@]
        } else {
            Seq::<Seq<char>>::empty()
        };
        assert(with_fast =~= base + fast);
        let vad = if !music_mode {
            seq![
                "--vad"@,
                "--vad-model"@,
                vad_model@,
                "--vad-max-speech-duration-s"@,
                VAD_MAX_SPEECH_SECONDS@,
            ]
        } else {
            Seq::<Seq<char>>::empty()
        };
        assert(with_vad =~= base + fast + vad);
        assert(arg_views(args@) =~= whisper_args_spec(
            model@,
            audio@,
            output_base@,
            vad_model@,
            language@,
            threads as nat,
            music_mode,
            fast_decode,
        ));
    }
    args
}

/// The text and JSON transcript whisper writes under an output base.
pub fn output_paths(output_base: &str) -> (paths: (String, String))
    ensures
        paths.0@ == output_base@ + ".txt"@,
        paths.1@ == output_base@ + ".json"@,
{
    let mut txt = chars_of(output_base);
    let mut json = chars_of(output_base);
    crate::text::push_str(&mut txt, ".txt");
    crate::text::push_str(&mut json, ".json");
    (string_of(txt.as_slice()), string_of(json.as_slice()))
}

/// The lines a tool printed that are worth showing: routine chatter is left out, and the
/// buffer stops taking lines once it holds 8192 bytes.
pub struct DiagnosticSink {
    text: String,
}

/// The sink after one more line.
pub open spec fn sink_after(text: Seq<char>, line: Seq<char>) -> Seq<char> {
    if whisper_noise(line) || (vstd::utf8::encode_utf8(text).len() as usize) >= DIAGNOSTIC_BYTES {
        text
    } else {
        text + line + seq!['\n']
    }
}

impl DiagnosticSink {
    pub fn new() -> (sink: DiagnosticSink)
        ensures
            sink.contents() == Seq::<char>::empty(),
    {
        DiagnosticSink { text: String::new() }
    }

    pub closed spec fn contents(&self) -> Seq<char> {
        self.text@
    }

    pub fn push_line(&mut self, line: &str)
        ensures
            final(self).contents() == sink_after(old(self).contents(), line@),
    {
        if is_whisper_noise_line(line) {
            return;
        }
        if self.text.as_str().len() < DIAGNOSTIC_BYTES {
            let mut chars = chars_of(self.text.as_str());
            crate::text::push_str(&mut chars, line);
            chars.push('\n');
            self.text = string_of(chars.as_slice());
        }
    }

    /// What was kept, without surrounding whitespace.
    pub fn text(&self) -> (out: String)
        ensures
            out@ == trim(self.contents()),
    {
        string_of(trimmed(chars_of(self.text.as_str()).as_slice()).as_slice())
    }
}

/// What a finished whisper-cli run answers when it is not a success, from whether it was
/// cancelled, whether it exited cleanly, its kept (trimmed) stderr and stdout, and whether the
/// transcript file exists; `None` when the run succeeded.
pub open spec fn run_failure(
    cancelled: bool,
    exited_cleanly: bool,
    stderr_text: Seq<char>,
    stdout_text: Seq<char>,
    transcript_written: bool,
    transcript_path: Seq<char>,
) -> Option<Seq<char>> {
    if cancelled {
        Some(TRANSCRIPTION_CANCELLED@)
    } else if !exited_cleanly {
        let details = capped_details(
            if stderr_text.len() > 0 {
                stderr_text
            } else {
                stdout_text
            },
        );
        Some(
            if details.len() == 0 {
                "whisper-cli failed to transcribe the recording."@
            } else {
                details
            },
        )
    } else if !transcript_written {
        let both = if stderr_text.len() > 0 && stdout_text.len() > 0 {
            stderr_text + seq!['\n'] + stdout_text
        } else if stderr_text.len() > 0 {
            stderr_text
        } else {
            stdout_text
        };
        let details = capped_details(both);
        let head = "whisper-cli finished without writing the transcript file at "@ + transcript_path
            + "."@;
        Some(
            if details.len() == 0 {
                head
            } else {
                head + " "@ + details
            },
        )
    } else {
        None
    }
}

pub fn whisper_run_failure(
    cancelled: bool,
    exited_cleanly: bool,
    stderr_text: &str,
    stdout_text: &str,
    transcript_written: bool,
    transcript_path: &str,
) -> (r: Option<String>)
    ensures
        match r {
            Some(m) => run_failure(
                cancelled,
                exited_cleanly,
                stderr_text@,
                stdout_text@,
                transcript_written,
                transcript_path@,
            ) == Some(m@),
            None => run_failure(
                cancelled,
                exited_cleanly,
                stderr_text@,
                stdout_text@,
                transcript_written,
                transcript_path@,
            ) is None,
        },
{
    if cancelled {
        return Some(TRANSCRIPTION_CANCELLED.to_string());
    }
    let err_len = chars_of(stderr_text).len();
    let out_len = chars_of(stdout_text).len();
    if !exited_cleanly {
        let details = if err_len > 0 {
            cap_details(stderr_text)
        } else {
            cap_details(stdout_text)
        };
        if chars_of(details.as_str()).len() == 0 {
            return Some("whisper-cli failed to transcribe the recording.".to_string());
        }
        return Some(details);
    }
    if !transcript_written {
        proof {
            reveal_strlit(".");
            reveal_strlit(" ");
        }
        let mut both = chars_of(stderr_text);
        if err_len > 0 && out_len > 0 {
            both.push('\n');
        }
        crate::text::push_str(&mut both, stdout_text);
        proof {
            if err_len == 0 {
                assert(both@ =~= stdout_text@);
            } else if out_len == 0 {
                assert(both@ =~= stderr_text@);
            } else {
                assert(both@ =~= stderr_text@ + seq!['\n'] + stdout_text@);
            }
        }
        let both_text = string_of(both.as_slice());
        let details = cap_details(both_text.as_str());
        let mut head = chars_of("whisper-cli finished without writing the transcript file at ");
        crate::text::push_str(&mut head, transcript_path);
        head.push('.');
        assert(head@ =~= "whisper-cli finished without writing the transcript file at "@ + transcript_path@ + "."@);
        let dchars = chars_of(details.as_str());
        if dchars.len() > 0 {
            let ghost h = head@;
            head.push(' ');
            crate::text::push_chars(&mut head, dchars.as_slice());
            assert(head@ =~= h + " "@ + details@);
        }
        return Some(string_of(head.as_slice()));
    }
    None
}

/// The smallest file that can be a whisper model.
pub const MIN_WHISPER_MODEL_BYTES: u64 = 1_000_000;

/// The smallest file that can be the voice-activity model.
pub const MIN_VAD_MODEL_BYTES: u64 = 100_000;

/// Whether what stands at the whisper model's path can be the model: a file, and not
/// unexpectedly small.
pub fn whisper_model_verdict(is_file: bool, len: u64) -> (r: Result<(), String>)
    ensures
        match r {
            Ok(()) => is_file && len >= MIN_WHISPER_MODEL_BYTES,
            Err(m) => if !is_file {
                m@ == "The selected Whisper model path is not a file."@
            } else {
                len < MIN_WHISPER_MODEL_BYTES && m@
                    == "The selected Whisper model file is unexpectedly small."@
            },
        },
{
    if !is_file {
        return Err("The selected Whisper model path is not a file.".to_string());
    }
    if len < MIN_WHISPER_MODEL_BYTES {
        return Err("The selected Whisper model file is unexpectedly small.".to_string());
    }
    Ok(())
}

/// Whether what stands at the voice-activity model's path can be the model.
pub fn vad_model_verdict(is_file: bool, len: u64) -> (r: Result<(), String>)
    ensures
        match r {
            Ok(()) => is_file && len >= MIN_VAD_MODEL_BYTES,
            Err(m) => if !is_file {
                m@ == "The selected VAD model path is not a file."@
            } else {
                len < MIN_VAD_MODEL_BYTES && m@ == "The selected VAD model file is unexpectedly small."@
            },
        },
{
    if !is_file {
        return Err("The selected VAD model path is not a file.".to_string());
    }
    if len < MIN_VAD_MODEL_BYTES {
        return Err("The selected VAD model file is unexpectedly small.".to_string());
    }
    Ok(())
}

/// Whether a transcription goes on to decode, from what its checks answered, taken in the
/// order they are made: the whisper program, the model, the voice-activity model (which
/// music mode does not use), and whether the run was cancelled meanwhile. The first that
/// refuses decides; a cancelled run answers `TRANSCRIPTION_CANCELLED`.
pub fn transcription_preflight(
    cli: Result<(), String>,
    model: Result<(), String>,
    music_mode: bool,
    vad_model: Result<(), String>,
    cancelled: bool,
) -> (r: Result<(), String>)
    ensures
        cli is Err ==> r == cli,
        cli is Ok && model is Err ==> r == model,
        cli is Ok && model is Ok && !music_mode && vad_model is Err ==> r == vad_model,
        cli is Ok && model is Ok && (music_mode || vad_model is Ok) ==> if cancelled {
            r is Err && r->Err_0@ == TRANSCRIPTION_CANCELLED@
        } else {
            r is Ok
        },
{
    if cli.is_err() {
        return cli;
    }
    if model.is_err() {
        return model;
    }
    if !music_mode && vad_model.is_err() {
        return vad_model;
    }
    if cancelled {
        return Err(TRANSCRIPTION_CANCELLED.to_string());
    }
    Ok(())
}

} // verus!
