//! Where the Whisper models live and come from, and how a transcript is put
//! together from the segments Whisper recognises.
use crate::config::{in_alexa_dir, join_path, join_path_exec, Config};
use crate::text::{chars_of, push_str_chars, string_of, trim, trim_chars};
use vstd::prelude::*;

verus! {

/// The file name of the Whisper model `model`: `ggml-<model>.bin`.
pub open spec fn model_file_text(model: Seq<char>) -> Seq<char> {
    "ggml-"@ + model + ".bin"@
}

/// Where the model files are published.
pub open spec fn model_base_url() -> Seq<char> {
    "https://huggingface.co/ggerganov/whisper.cpp/resolve/main/"@
}

/// The file name of the Whisper model `model`.
pub fn model_filename(model: &str) -> (r: String)
    ensures
        r@ == model_file_text(model@),
{
    let mut out = chars_of("ggml-");
    push_str_chars(&mut out, model);
    push_str_chars(&mut out, ".bin");
    string_of(out.as_slice())
}

/// The address the model file `model` is downloaded from.
pub fn model_url(model: &str) -> (r: String)
    ensures
        r@ == model_base_url() + model_file_text(model@),
{
    let mut out = chars_of("https://huggingface.co/ggerganov/whisper.cpp/resolve/main/");
    let file = model_filename(model);
    push_str_chars(&mut out, file.as_str());
    string_of(out.as_slice())
}

/// The path of the model file under `~/.alexa/models`.
pub fn model_path(model: &str) -> (r: String)
    ensures
        exists|dir: Seq<char>|
            in_alexa_dir(dir, "models"@) && r@ == #[trigger] join_path(dir, model_file_text(model@)),
{
    let dir = Config::models_dir();
    let file = model_filename(model);
    join_path_exec(dir.as_str(), file.as_str())
}

/// The segments one after another.
pub open spec fn concat_all(segments: Seq<Seq<char>>) -> Seq<char>
    decreases segments.len(),
{
    if segments.len() == 0 {
        seq![]
    } else {
        concat_all(segments.drop_last()) + segments.last()
    }
}

pub open spec fn segment_texts(segments: Seq<String>) -> Seq<Seq<char>> {
    segments.map_values(|s: String| s@)
}

/// The transcript of the recognised segments: their text one after another,
/// with leading and trailing white space removed.
pub fn transcript_from_segments(segments: &[String]) -> (r: String)
    ensures
        r@ == trim(concat_all(segment_texts(segments@))),
{
    let mut out: Vec<char> = Vec::new();
    let mut i: usize = 0;
    while i < segments.len()
        invariant
            i <= segments.len(),
            out@ == concat_all(segment_texts(segments@.subrange(0, i as int))),
        decreases segments.len() - i,
    {
        push_str_chars(&mut out, segments[i].as_str());
        i += 1;
        assert(segment_texts(segments@.subrange(0, i as int)).drop_last() =~= segment_texts(
            segments@.subrange(0, i - 1),
        ));
    }
    assert(segments@.subrange(0, segments@.len() as int) =~= segments@);
    let t = trim_chars(out.as_slice());
    string_of(t.as_slice())
}

} // verus!
