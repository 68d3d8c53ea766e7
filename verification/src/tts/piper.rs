//! The layout of the Piper voice that the sherpa-onnx backend speaks with:
//! where its archive is published and which files it unpacks to.
use crate::config::{in_alexa_dir, join_path, join_path_exec, Config};
use crate::text::{chars_of, push_str_chars, string_of};
use vstd::prelude::*;

verus! {

/// The name of the voice, also the name of its directory under
/// `~/.alexa/models`.
pub open spec fn voice_name() -> Seq<char> {
    "vits-piper-en_US-lessac-low"@
}

/// Where the voice archives are published.
pub open spec fn tarball_base() -> Seq<char> {
    "https://github.com/k2-fsa/sherpa-onnx/releases/download/tts-models"@
}

/// The address of the voice's archive.
pub fn voice_tarball_url() -> (r: String)
    ensures
        r@ == tarball_base() + "/"@ + voice_name() + ".tar.bz2"@,
{
    let mut out = chars_of("https://github.com/k2-fsa/sherpa-onnx/releases/download/tts-models");
    push_str_chars(&mut out, "/");
    push_str_chars(&mut out, "vits-piper-en_US-lessac-low");
    push_str_chars(&mut out, ".tar.bz2");
    string_of(out.as_slice())
}

/// The files of an unpacked voice.
pub struct VoiceAssets {
    pub model: String,
    pub tokens: String,
    pub data_dir: String,
}

/// The files of the voice unpacked in `dir`.
pub fn voice_assets(dir: &str) -> (r: VoiceAssets)
    ensures
        r.model@ == join_path(dir@, "en_US-lessac-low.onnx"@),
        r.tokens@ == join_path(dir@, "tokens.txt"@),
        r.data_dir@ == join_path(dir@, "espeak-ng-data"@),
{
    VoiceAssets {
        model: join_path_exec(dir, "en_US-lessac-low.onnx"),
        tokens: join_path_exec(dir, "tokens.txt"),
        data_dir: join_path_exec(dir, "espeak-ng-data"),
    }
}

/// The directory the voice unpacks to: `~/.alexa/models/<voice>`.
pub fn voice_dir() -> (r: String)
    ensures
        exists|models: Seq<char>|
            in_alexa_dir(models, "models"@) && r@ == #[trigger] join_path(models, voice_name()),
{
    let models = Config::models_dir();
    let r = join_path_exec(models.as_str(), "vits-piper-en_US-lessac-low");
    assert(r@ == join_path(models@, voice_name()));
    r
}

/// Where the downloaded archive is kept until it is unpacked:
/// `~/.alexa/models/<voice>.tar.bz2`.
pub fn tarball_path() -> (r: String)
    ensures
        exists|models: Seq<char>|
            in_alexa_dir(models, "models"@) && r@ == #[trigger] join_path(
                models,
                voice_name() + ".tar.bz2"@,
            ),
{
    let models = Config::models_dir();
    let mut name = chars_of("vits-piper-en_US-lessac-low");
    push_str_chars(&mut name, ".tar.bz2");
    let name = string_of(name.as_slice());
    let r = join_path_exec(models.as_str(), name.as_str());
    assert(r@ == join_path(models@, voice_name() + ".tar.bz2"@));
    r
}

} // verus!
