use fai3_backend::providers::{
    chat_request_fields, endpoint_url_of, first_choice_content, first_generated_text,
    select_provider, HuggingFaceResponseItem, NebiusProvider, NoneProvider, NovitaProvider,
    ProviderKind, TogetherAIProvider,
};

#[test]
fn providers_are_picked_by_name() {
    assert_eq!(select_provider(&Some("novita".to_string())), ProviderKind::Novita);
    assert_eq!(select_provider(&Some("togetherai".to_string())), ProviderKind::TogetherAI);
    assert_eq!(select_provider(&Some("nebius".to_string())), ProviderKind::Nebius);
    assert_eq!(select_provider(&Some("other".to_string())), ProviderKind::HuggingFace);
    assert_eq!(select_provider(&None), ProviderKind::HuggingFace);
}

#[test]
fn providers_have_their_names_and_endpoints() {
    assert_eq!(NebiusProvider {}.name(), "nebius");
    assert_eq!(NovitaProvider {}.name(), "novita");
    assert_eq!(TogetherAIProvider {}.name(), "togetherai");
    assert_eq!(NoneProvider {}.name(), "none (Hugging Face API)");
    assert_eq!(
        NebiusProvider {}.endpoint_url("m".to_string()),
        "https://router.huggingface.co/nebius/v1/chat/completions"
    );
    assert_eq!(
        NovitaProvider {}.endpoint_url("m".to_string()),
        "https://router.huggingface.co/novita/v3/openai/chat/completions"
    );
    assert_eq!(
        TogetherAIProvider {}.endpoint_url("m".to_string()),
        "https://router.huggingface.co/together/v1/chat/completions"
    );
    assert_eq!(
        NoneProvider {}.endpoint_url("mistralai/Mistral-Nemo-Instruct-2407".to_string()),
        "https://api-inference.huggingface.co/models/mistralai/Mistral-Nemo-Instruct-2407"
    );
    assert_eq!(endpoint_url_of(ProviderKind::HuggingFace, "x"), "https://api-inference.huggingface.co/models/x");
}

#[test]
fn chat_requests_lower_the_model_name_for_some_providers() {
    let r = chat_request_fields(ProviderKind::Novita, "Meta/Llama".to_string(), "hi".to_string(), Some(4));
    assert_eq!(r.model, "meta/llama");
    assert_eq!(r.messages.len(), 1);
    assert_eq!((r.messages[0].role.as_str(), r.messages[0].content.as_str()), ("user", "hi"));
    assert_eq!((r.max_tokens, r.seed, r.do_sample, r.stream), (Some(5000), Some(4), Some(false), false));
    let r = chat_request_fields(ProviderKind::Nebius, "Meta/Llama".to_string(), "hi".to_string(), None);
    assert_eq!(r.model, "Meta/Llama");
}

#[test]
fn answers_take_the_first_choice() {
    assert_eq!(first_choice_content(ProviderKind::TogetherAI, &vec!["a".to_string(), "b".to_string()]), Ok("a".to_string()));
    assert_eq!(first_choice_content(ProviderKind::Nebius, &vec![]), Err("choices field is empty".to_string()));
    assert_eq!(first_choice_content(ProviderKind::Novita, &vec![]), Err("choices fields is empty".to_string()));
    assert_eq!(first_generated_text(&vec![]), Err("No generated text".to_string()));
    assert_eq!(
        first_generated_text(&vec![HuggingFaceResponseItem { generated_text: None }]),
        Ok("No generated_text".to_string())
    );
    assert_eq!(
        first_generated_text(&vec![HuggingFaceResponseItem { generated_text: Some("3".to_string()) }]),
        Ok("3".to_string())
    );
}
