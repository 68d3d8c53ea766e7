use alexa_cli::stt::{model_filename, model_path, model_url, transcript_from_segments};

#[test]
fn model_filename_maps_correctly() {
    assert_eq!(model_filename("base.en"), "ggml-base.en.bin");
    assert_eq!(model_filename("tiny.en"), "ggml-tiny.en.bin");
    assert_eq!(model_filename("small.en"), "ggml-small.en.bin");
}

#[test]
fn model_url_points_at_the_published_file() {
    assert_eq!(
        model_url("base.en"),
        "https://huggingface.co/ggerganov/whisper.cpp/resolve/main/ggml-base.en.bin"
    );
}

#[test]
fn model_path_is_under_the_models_dir() {
    assert!(model_path("tiny.en").ends_with(".alexa/models/ggml-tiny.en.bin"));
}

#[test]
fn transcript_joins_and_trims_segments() {
    let segs = vec![" It is".to_string(), " noon.".to_string(), "  ".to_string()];
    assert_eq!(transcript_from_segments(&segs), "It is noon.");
    assert_eq!(transcript_from_segments(&[]), "");
}
