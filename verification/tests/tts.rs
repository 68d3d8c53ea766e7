use alexa_cli::tts::piper::{tarball_path, voice_assets, voice_dir, voice_tarball_url};

#[test]
fn voice_tarball_url_wellformed() {
    let url = voice_tarball_url();
    assert!(url.starts_with("https://"));
    assert!(url.ends_with("vits-piper-en_US-lessac-low.tar.bz2"));
}

#[test]
fn voice_tarball_url_exact() {
    assert_eq!(
        voice_tarball_url(),
        "https://github.com/k2-fsa/sherpa-onnx/releases/download/tts-models/vits-piper-en_US-lessac-low.tar.bz2"
    );
}

#[test]
fn voice_asset_layout() {
    let a = voice_assets("/models/vits-piper-en_US-lessac-low");
    assert!(a.model.ends_with("en_US-lessac-low.onnx"));
    assert!(a.tokens.ends_with("tokens.txt"));
    assert!(a.data_dir.ends_with("espeak-ng-data"));
}

#[test]
fn voice_asset_paths_exact() {
    let a = voice_assets("/models/v");
    assert_eq!(a.model, "/models/v/en_US-lessac-low.onnx");
    assert_eq!(a.tokens, "/models/v/tokens.txt");
    assert_eq!(a.data_dir, "/models/v/espeak-ng-data");
}

#[test]
fn voice_lives_under_the_models_dir() {
    assert!(voice_dir().ends_with(".alexa/models/vits-piper-en_US-lessac-low"));
    assert!(tarball_path().ends_with(".alexa/models/vits-piper-en_US-lessac-low.tar.bz2"));
}
