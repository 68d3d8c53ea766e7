//! Settings kept in `~/.alexa/config.json`: AVS credentials, gateway region,
//! TTS voice, Whisper model. Reading and writing the file is left to the
//! caller; this module holds the values, their defaults and their checks,
//! and the layout of the `~/.alexa` directory.
use crate::text::{ascii_lower, ascii_lower_exec, chars_eq, chars_of, push_str_chars, string_of};
use vstd::prelude::*;

verus! {

/// The AVS gateway region.
#[derive(Clone, Copy, Debug, PartialEq, Eq, Structural)]
pub enum Region {
    Na,
    Eu,
    Fe,
}

impl Default for Region {
    fn default() -> (r: Region)
        ensures
            r == Region::Na,
    {
        Region::Na
    }
}

pub open spec fn gateway_host_text(r: Region) -> Seq<char> {
    match r {
        Region::Na => "alexa.na.gateway.devices.a2z.com"@,
        Region::Eu => "alexa.eu.gateway.devices.a2z.com"@,
        Region::Fe => "alexa.fe.gateway.devices.a2z.com"@,
    }
}

/// The region a name selects: `eu` and `fe` in any ASCII case, anything else
/// North America.
pub open spec fn region_named(s: Seq<char>) -> Region {
    if ascii_lower(s) == "eu"@ {
        Region::Eu
    } else if ascii_lower(s) == "fe"@ {
        Region::Fe
    } else {
        Region::Na
    }
}

impl Region {
    /// The host of the region's AVS gateway.
    pub fn gateway_host(&self) -> (r: &'static str)
        ensures
            r@ == gateway_host_text(*self),
    {
        match self {
            Region::Na => "alexa.na.gateway.devices.a2z.com",
            Region::Eu => "alexa.eu.gateway.devices.a2z.com",
            Region::Fe => "alexa.fe.gateway.devices.a2z.com",
        }
    }

    /// The region named by `s`, defaulting to North America.
    pub fn from_str_lenient(s: &str) -> (r: Region)
        ensures
            r == region_named(s@),
    {
        let v = chars_of(s);
        let lower = ascii_lower_exec(v.as_slice());
        let eu = chars_of("eu");
        let fe = chars_of("fe");
        if chars_eq(lower.as_slice(), eu.as_slice()) {
            Region::Eu
        } else if chars_eq(lower.as_slice(), fe.as_slice()) {
            Region::Fe
        } else {
            Region::Na
        }
    }
}

/// The text-to-speech backend.
#[derive(Clone, Copy, Debug, PartialEq, Eq, Structural)]
pub enum Voice {
    Piper,
    Espeak,
}

impl Default for Voice {
    fn default() -> (r: Voice)
        ensures
            r == Voice::Piper,
    {
        Voice::Piper
    }
}

/// The Whisper model used when none is configured.
pub fn default_model() -> (r: String)
    ensures
        r@ == "base.en"@,
{
    "base.en".to_string()
}

/// The settings of the tool.
pub struct Config {
    pub client_id: String,
    pub client_secret: String,
    pub product_id: String,
    pub device_serial_number: String,
    pub region: Region,
    pub voice: Voice,
    pub model: String,
    pub save_transcription: bool,
}

pub struct ConfigView {
    pub client_id: Seq<char>,
    pub client_secret: Seq<char>,
    pub product_id: Seq<char>,
    pub device_serial_number: Seq<char>,
    pub region: Region,
    pub voice: Voice,
    pub model: Seq<char>,
    pub save_transcription: bool,
}

impl View for Config {
    type V = ConfigView;

    open spec fn view(&self) -> ConfigView {
        ConfigView {
            client_id: self.client_id@,
            client_secret: self.client_secret@,
            product_id: self.product_id@,
            device_serial_number: self.device_serial_number@,
            region: self.region,
            voice: self.voice,
            model: self.model@,
            save_transcription: self.save_transcription,
        }
    }
}

/// The settings before anything is configured.
pub open spec fn default_config() -> ConfigView {
    ConfigView {
        client_id: Seq::empty(),
        client_secret: Seq::empty(),
        product_id: Seq::empty(),
        device_serial_number: Seq::empty(),
        region: Region::Na,
        voice: Voice::Piper,
        model: "base.en"@,
        save_transcription: true,
    }
}

/// Whether the AVS credentials are all present.
pub open spec fn config_complete(c: ConfigView) -> bool {
    c.client_id.len() > 0 && c.client_secret.len() > 0 && c.product_id.len() > 0
}

impl Default for Config {
    fn default() -> (r: Config)
        ensures
            r@ == default_config(),
    {
        Config {
            client_id: String::new(),
            client_secret: String::new(),
            product_id: String::new(),
            device_serial_number: String::new(),
            region: Region::Na,
            voice: Voice::Piper,
            model: default_model(),
            save_transcription: true,
        }
    }
}

impl Clone for Config {
    fn clone(&self) -> (r: Config)
        ensures
            r@ == self@,
    {
        Config {
            client_id: self.client_id.clone(),
            client_secret: self.client_secret.clone(),
            product_id: self.product_id.clone(),
            device_serial_number: self.device_serial_number.clone(),
            region: self.region,
            voice: self.voice,
            model: self.model.clone(),
            save_transcription: self.save_transcription,
        }
    }
}

/// Why the settings cannot be used.
pub enum ConfigError {
    /// Client ID, Client Secret or Product ID is missing.
    MissingCredentials,
}

impl ConfigError {
    pub fn message(&self) -> (r: String)
        ensures
            r@ == "missing AVS credentials — run `alexa configure`"@,
    {
        "missing AVS credentials — run `alexa configure`".to_string()
    }
}

// ---------------------------------------------------------------------------
// Directory layout
// ---------------------------------------------------------------------------

/// `dir` joined with the relative path `name`, as `Path::join` does on Unix.
pub open spec fn join_path(dir: Seq<char>, name: Seq<char>) -> Seq<char> {
    if dir.len() == 0 {
        name
    } else if dir.last() == '/' {
        dir + name
    } else {
        dir + seq!['/'] + name
    }
}

/// The `~/.alexa` directory for the home directory `home` (the empty path
/// where none is known).
pub open spec fn alexa_dir_for(home: Option<Seq<char>>) -> Seq<char> {
    join_path(
        match home {
            Some(h) => h,
            None => Seq::empty(),
        },
        ".alexa"@,
    )
}

/// A path directly under the `~/.alexa` directory of some home directory.
pub open spec fn in_alexa_dir(path: Seq<char>, name: Seq<char>) -> bool {
    exists|home: Option<Seq<char>>| path == join_path(#[trigger] alexa_dir_for(home), name)
}

/// `dir` joined with the relative path `name`.
pub fn join_path_exec(dir: &str, name: &str) -> (r: String)
    ensures
        r@ == join_path(dir@, name@),
{
    let d = chars_of(dir);
    let mut out = chars_of(dir);
    if d.len() > 0 && d[d.len() - 1] != '/' {
        out.push('/');
    }
    push_str_chars(&mut out, name);
    proof {
        if d@.len() == 0 {
            assert(out@ =~= name@);
        }
    }
    string_of(out.as_slice())
}

/// The home directory of the user running the program, as `dirs::home_dir`
/// finds it (from the environment), converted to text lossily.
#[verifier::external_body]
fn home_dir() -> Option<String> {
    dirs::home_dir().map(|p| p.to_string_lossy().into_owned())
}

/// The `~/.alexa` directory under the given home directory.
pub fn alexa_dir_under(home: Option<&str>) -> (r: String)
    ensures
        r@ == alexa_dir_for(
            match home {
                Some(h) => Some(h@),
                None => None,
            },
        ),
{
    match home {
        Some(h) => {
            let r = join_path_exec(h, ".alexa");
            assert(r@ == alexa_dir_for(Some(h@)));
            r
        },
        None => {
            let r = join_path_exec("", ".alexa");
            proof {
                reveal_strlit("");
            }
            assert(r@ == alexa_dir_for(None));
            r
        },
    }
}

impl Config {
    /// The `~/.alexa` directory of the current user.
    pub fn dir() -> (r: String)
        ensures
            exists|home: Option<Seq<char>>| r@ == #[trigger] alexa_dir_for(home),
    {
        let h = home_dir();
        let r = match &h {
            Some(s) => alexa_dir_under(Some(s.as_str())),
            None => alexa_dir_under(None),
        };
        proof {
            let home = match h {
                Some(s) => Some(s@),
                None => None,
            };
            assert(r@ == alexa_dir_for(home));
        }
        r
    }

    /// A file or directory directly under `~/.alexa`.
    pub fn under_dir(name: &str) -> (r: String)
        ensures
            in_alexa_dir(r@, name@),
    {
        let d = Config::dir();
        let r = join_path_exec(d.as_str(), name);
        proof {
            let home = choose|home: Option<Seq<char>>| d@ == #[trigger] alexa_dir_for(home);
            assert(r@ == join_path(alexa_dir_for(home), name@));
        }
        r
    }

    /// `~/.alexa/config.json`.
    pub fn path() -> (r: String)
        ensures
            in_alexa_dir(r@, "config.json"@),
    {
        Config::under_dir("config.json")
    }

    /// `~/.alexa/models`.
    pub fn models_dir() -> (r: String)
        ensures
            in_alexa_dir(r@, "models"@),
    {
        Config::under_dir("models")
    }

    /// The settings read from the file, or the defaults where there was none
    /// to read.
    pub fn load_or_default(from_file: Option<Config>) -> (r: Config)
        ensures
            r@ == match from_file {
                Some(c) => c@,
                None => default_config(),
            },
    {
        match from_file {
            Some(c) => c,
            None => Config::default(),
        }
    }

    /// The settings read from the file (or the defaults), provided the AVS
    /// credentials are all present.
    pub fn load(from_file: Option<Config>) -> (r: Result<Config, ConfigError>)
        ensures
            ({
                let c = match from_file {
                    Some(c) => c@,
                    None => default_config(),
                };
                &&& r is Ok <==> config_complete(c)
                &&& r matches Ok(x) ==> x@ == c
            }),
    {
        let cfg = Config::load_or_default(from_file);
        if !cfg.is_complete() {
            return Err(ConfigError::MissingCredentials);
        }
        Ok(cfg)
    }

    /// Whether the AVS credentials are all present.
    pub fn is_complete(&self) -> (r: bool)
        ensures
            r == config_complete(self@),
    {
        !self.client_id.as_str().is_empty() && !self.client_secret.as_str().is_empty()
            && !self.product_id.as_str().is_empty()
    }
}

} // verus!
