# alexa_cli

`alexa` round-trips text through Alexa: it synthesizes the prompt to speech,
sends the audio to the Alexa Voice Service (AVS), and transcribes Alexa's
spoken answer back to text with a local Whisper model. It can also list the
account's Echo devices and push announcements or speech to them through the
Alexa website API.

The protocol logic is a Verus-verified library; the program around it is
ordinary Rust.

## Layout

- `src/` — the verified library:
  - `text`, `json`: character-level text utilities and the JSON accessors,
    with the specifications the other modules state their contracts over;
  - `config`: settings, their defaults and checks, the `~/.alexa` layout;
  - `auth`: Login-with-Amazon tokens, expiry, the authorization URL, the
    token-endpoint requests and replies;
  - `avs`: the AVS events, the Recognize request body, the
    `multipart/related` response parser and the lookup of the spoken answer;
  - `remote`: the website API — devices, target selection, behavior
    sequences, cookies and csrf, and the decisions of its login flow;
  - `cache`: the transcription cache, keyed by the BLAKE3 hash of the answer;
  - `audio`: 16-bit PCM as little-endian bytes;
  - `stt`, `tts::piper`: where the Whisper models and the Piper voice live;
  - `cli`: the command line, the overrides it applies, the printed lines,
    and the decisions of the round trip and of `doctor` as state machines.
- `app/` — the `alexa` program: argument parsing (clap), the JSON files,
  HTTP (reqwest, tiny_http), floating-point audio, whisper.cpp and
  sherpa-onnx.
- `tests/` — tests of the library.
