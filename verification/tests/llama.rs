use spark_dashboard::engines::ModelMetadataError;
use spark_dashboard::llama::{
    classify_models_error_status, llama_model_resolution, metrics_answer, model_from_name, LlamaModelEntry,
    ModelsReply, SlotTracker,
};

#[test]
fn model_name_is_basename_of_path() {
    let m = model_from_name("/home/x/models/Qwen3.8-27B-IQ3_S.gguf");
    assert_eq!(m.name, "Qwen3.8-27B-IQ3_S.gguf");
    assert_eq!(model_from_name("org/model").name, "model");
    assert_eq!(model_from_name("alias").name, "alias");
}

#[test]
fn a_path_ending_in_a_slash_keeps_the_whole_identifier() {
    assert_eq!(model_from_name("models/").name, "models/");
    assert_eq!(model_from_name("").name, "");
    assert!(model_from_name("a/b").quantization.is_none());
}

#[test]
fn unauthorized_models_answers_need_a_key() {
    assert_eq!(classify_models_error_status(401), ModelMetadataError::AuthRequired);
    assert_eq!(classify_models_error_status(403), ModelMetadataError::AuthRequired);
    assert_eq!(classify_models_error_status(404), ModelMetadataError::Unavailable);
    assert_eq!(classify_models_error_status(500), ModelMetadataError::Unavailable);
}

fn entry(name: Option<&str>, model: Option<&str>) -> LlamaModelEntry {
    LlamaModelEntry { name: name.map(str::to_string), model: model.map(str::to_string) }
}

#[test]
fn the_api_name_wins_over_the_command_line() {
    let r = llama_model_resolution(
        ModelsReply::Listed(vec![entry(Some("/m/api.gguf"), Some("/m/other.gguf"))]),
        Some("/m/cli.gguf"),
    );
    assert_eq!(r.model.as_ref().map(|m| m.name.as_str()), Some("api.gguf"));
    assert_eq!(r.metadata_error, None);

    let r = llama_model_resolution(ModelsReply::Listed(vec![entry(None, Some("/m/model.gguf"))]), None);
    assert_eq!(r.model.as_ref().map(|m| m.name.as_str()), Some("model.gguf"));
}

#[test]
fn the_command_line_model_is_the_fallback() {
    let r = llama_model_resolution(ModelsReply::Listed(vec![]), Some("/m/cli.gguf"));
    assert_eq!(r.model.as_ref().map(|m| m.name.as_str()), Some("cli.gguf"));
    assert_eq!(r.metadata_error, Some(ModelMetadataError::Unavailable));

    let r = llama_model_resolution(ModelsReply::Listed(vec![entry(None, None)]), Some("/m/cli.gguf"));
    assert_eq!(r.model.as_ref().map(|m| m.name.as_str()), Some("cli.gguf"));
    assert_eq!(r.metadata_error, Some(ModelMetadataError::Unavailable));

    let r = llama_model_resolution(ModelsReply::Unparsable, None);
    assert!(r.model.is_none());
    assert_eq!(r.metadata_error, Some(ModelMetadataError::Unavailable));

    let r = llama_model_resolution(ModelsReply::Status(403), Some("/m/cli.gguf"));
    assert_eq!(r.model.as_ref().map(|m| m.name.as_str()), Some("cli.gguf"));
    assert_eq!(r.metadata_error, Some(ModelMetadataError::AuthRequired));

    let r = llama_model_resolution(ModelsReply::Failed, None);
    assert!(r.model.is_none());
    assert_eq!(r.metadata_error, Some(ModelMetadataError::Unavailable));
}

#[test]
fn requests_are_counted_from_slot_transitions() {
    let mut t = SlotTracker::new();
    assert_eq!(t.observe(&[(0, true), (1, false)]), 0, "first sight establishes state");
    assert_eq!(t.observe(&[(0, true), (1, true)]), 1, "slot 1 started");
    assert_eq!(t.observe(&[(0, false), (1, true)]), 1, "still busy is not a new request");
    assert_eq!(t.observe(&[(0, true), (1, false)]), 2);
    assert_eq!(t.count(), 2);
    t.reset_count();
    assert_eq!(t.count(), 0);
    assert_eq!(t.observe(&[(1, true)]), 1, "state survives the reset");
}

#[test]
fn a_501_marks_metrics_disabled_until_a_success() {
    assert_eq!(metrics_answer(501, false), (true, false));
    assert_eq!(metrics_answer(503, true), (true, false), "other errors leave the flag");
    assert_eq!(metrics_answer(404, false), (false, false));
    assert_eq!(metrics_answer(200, true), (false, true), "a success clears it");
}
