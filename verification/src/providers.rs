use vstd::prelude::*;
use crate::text::{lowercase_of, to_lowercase};

verus! {

/// The Hugging Face inference API, under which a model's name is appended.
pub const HUGGING_FACE_ENDPOINT: &'static str = "https://api-inference.huggingface.co/models";

/// The Hugging Face router of the third-party inference providers.
pub const HUGGING_FACE_INFERENCE_PROVIDER_URL: &'static str = "https://router.huggingface.co";

/// A message of an OpenAI-compatible chat request.
#[derive(Clone, Debug)]
pub struct OpenAIMessage {
    pub role: String,
    pub content: String,
}

/// The token counts that TogetherAI reports.
#[derive(Clone, Debug)]
pub struct TogetherAIUsage {
    pub prompt_tokens: i32,
    pub completion_tokens: i32,
    pub total_tokens: i32,
}

/// An item of the Hugging Face inference API's answer.
#[derive(Clone, Debug)]
pub struct HuggingFaceResponseItem {
    pub generated_text: Option<String>,
}

/// The Nebius provider, through the Hugging Face router.
pub struct NebiusProvider {}

/// No third-party provider: the Hugging Face inference API itself.
pub struct NoneProvider {}

/// The Novita provider, through the Hugging Face router.
pub struct NovitaProvider {}

/// The TogetherAI provider, through the Hugging Face router.
pub struct TogetherAIProvider {}

/// The inference providers a model can be served by.
#[derive(Clone, Copy, Debug, PartialEq, Eq, Structural)]
pub enum ProviderKind {
    Novita,
    TogetherAI,
    Nebius,
    HuggingFace,
}

/// The provider configured for a model: `novita`, `togetherai` or `nebius`
/// name a provider; any other name, or none, means the Hugging Face API.
pub open spec fn provider_for(configured: Option<Seq<char>>) -> ProviderKind {
    match configured {
        Some(p) => if p == "novita"@ {
            ProviderKind::Novita
        } else if p == "togetherai"@ {
            ProviderKind::TogetherAI
        } else if p == "nebius"@ {
            ProviderKind::Nebius
        } else {
            ProviderKind::HuggingFace
        },
        None => ProviderKind::HuggingFace,
    }
}

/// The texts of an optional string.
pub open spec fn opt_view(o: Option<String>) -> Option<Seq<char>> {
    match o {
        Some(s) => Some(s@),
        None => None,
    }
}

/// Picks the provider configured for a model.
pub fn select_provider(inference_provider: &Option<String>) -> (res: ProviderKind)
    ensures
        res == provider_for(opt_view(*inference_provider)),
{
    match inference_provider {
        Some(p) => {
            if *p == "novita".to_string() {
                ProviderKind::Novita
            } else if *p == "togetherai".to_string() {
                ProviderKind::TogetherAI
            } else if *p == "nebius".to_string() {
                ProviderKind::Nebius
            } else {
                ProviderKind::HuggingFace
            }
        },
        None => ProviderKind::HuggingFace,
    }
}

/// The name a provider is logged under.
pub open spec fn provider_name(kind: ProviderKind) -> Seq<char> {
    match kind {
        ProviderKind::Novita => "novita"@,
        ProviderKind::TogetherAI => "togetherai"@,
        ProviderKind::Nebius => "nebius"@,
        ProviderKind::HuggingFace => "none (Hugging Face API)"@,
    }
}

/// The name a provider is logged under.
pub fn name_of(kind: ProviderKind) -> (res: &'static str)
    ensures
        res@ == provider_name(kind),
{
    match kind {
        ProviderKind::Novita => "novita",
        ProviderKind::TogetherAI => "togetherai",
        ProviderKind::Nebius => "nebius",
        ProviderKind::HuggingFace => "none (Hugging Face API)",
    }
}

/// The URL a provider is called at for a model: the router's route of the
/// provider, or the Hugging Face API with the model's name.
pub open spec fn endpoint_of(kind: ProviderKind, llm_model: Seq<char>) -> Seq<char> {
    match kind {
        ProviderKind::Novita => HUGGING_FACE_INFERENCE_PROVIDER_URL@ + "/"@ + "novita/v3/openai/chat/completions"@,
        ProviderKind::TogetherAI => HUGGING_FACE_INFERENCE_PROVIDER_URL@ + "/"@ + "together/v1/chat/completions"@,
        ProviderKind::Nebius => HUGGING_FACE_INFERENCE_PROVIDER_URL@ + "/"@ + "nebius/v1/chat/completions"@,
        ProviderKind::HuggingFace => HUGGING_FACE_ENDPOINT@ + "/"@ + llm_model,
    }
}

/// `base/rest`.
fn join_path(base: &str, rest: &str) -> (res: String)
    ensures
        res@ == base@ + "/"@ + rest@,
{
    let mut url = base.to_string();
    url.append("/");
    url.append(rest);
    url
}

/// The URL a provider is called at for a model.
pub fn endpoint_url_of(kind: ProviderKind, llm_model: &str) -> (res: String)
    ensures
        res@ == endpoint_of(kind, llm_model@),
{
    match kind {
        ProviderKind::Novita => join_path(HUGGING_FACE_INFERENCE_PROVIDER_URL, "novita/v3/openai/chat/completions"),
        ProviderKind::TogetherAI => join_path(HUGGING_FACE_INFERENCE_PROVIDER_URL, "together/v1/chat/completions"),
        ProviderKind::Nebius => join_path(HUGGING_FACE_INFERENCE_PROVIDER_URL, "nebius/v1/chat/completions"),
        ProviderKind::HuggingFace => join_path(HUGGING_FACE_ENDPOINT, llm_model),
    }
}

impl NebiusProvider {
    /// The provider's name.
    pub fn name(&self) -> (res: &'static str)
        ensures
            res@ == provider_name(ProviderKind::Nebius),
    {
        name_of(ProviderKind::Nebius)
    }

    /// The URL the provider is called at.
    pub fn endpoint_url(&self, llm_model: String) -> (res: String)
        ensures
            res@ == endpoint_of(ProviderKind::Nebius, llm_model@),
    {
        endpoint_url_of(ProviderKind::Nebius, llm_model.as_str())
    }
}

impl NoneProvider {
    /// The provider's name.
    pub fn name(&self) -> (res: &'static str)
        ensures
            res@ == provider_name(ProviderKind::HuggingFace),
    {
        name_of(ProviderKind::HuggingFace)
    }

    /// The URL the model is called at: the Hugging Face API and its name.
    pub fn endpoint_url(&self, llm_model: String) -> (res: String)
        ensures
            res@ == endpoint_of(ProviderKind::HuggingFace, llm_model@),
    {
        endpoint_url_of(ProviderKind::HuggingFace, llm_model.as_str())
    }
}

impl NovitaProvider {
    /// The provider's name.
    pub fn name(&self) -> (res: &'static str)
        ensures
            res@ == provider_name(ProviderKind::Novita),
    {
        name_of(ProviderKind::Novita)
    }

    /// The URL the provider is called at.
    pub fn endpoint_url(&self, llm_model: String) -> (res: String)
        ensures
            res@ == endpoint_of(ProviderKind::Novita, llm_model@),
    {
        endpoint_url_of(ProviderKind::Novita, llm_model.as_str())
    }
}

impl TogetherAIProvider {
    /// The provider's name.
    pub fn name(&self) -> (res: &'static str)
        ensures
            res@ == provider_name(ProviderKind::TogetherAI),
    {
        name_of(ProviderKind::TogetherAI)
    }

    /// The URL the provider is called at.
    pub fn endpoint_url(&self, llm_model: String) -> (res: String)
        ensures
            res@ == endpoint_of(ProviderKind::TogetherAI, llm_model@),
    {
        endpoint_url_of(ProviderKind::TogetherAI, llm_model.as_str())
    }
}

/// The fields of an OpenAI-compatible chat request but its temperature
/// (always 0): the model, one user message with the prompt, at most 5000
/// tokens, the seed, no sampling, no streaming.
#[derive(Clone, Debug)]
pub struct ChatRequestFields {
    pub model: String,
    pub messages: Vec<OpenAIMessage>,
    pub max_tokens: Option<u32>,
    pub seed: Option<u32>,
    pub do_sample: Option<bool>,
    pub stream: bool,
}

/// The model name a provider's request carries: Novita and TogetherAI take
/// it in lower case, Nebius as it is.
pub open spec fn request_model_name(kind: ProviderKind, llm_model: Seq<char>) -> Seq<char> {
    match kind {
        ProviderKind::Novita => lowercase_of(llm_model),
        ProviderKind::TogetherAI => lowercase_of(llm_model),
        _ => llm_model,
    }
}

/// The chat request of a router provider for a prompt.
pub fn chat_request_fields(kind: ProviderKind, llm_model: String, input_text: String, seed: Option<u32>) -> (res: ChatRequestFields)
    requires
        kind != ProviderKind::HuggingFace,
    ensures
        res.model@ == request_model_name(kind, llm_model@),
        res.messages@.len() == 1,
        res.messages@[0].role@ == "user"@,
        res.messages@[0].content@ == input_text@,
        res.max_tokens == Some(5000u32),
        res.seed == seed,
        res.do_sample == Some(false),
        !res.stream,
{
    let model = match kind {
        ProviderKind::Novita => to_lowercase(llm_model.as_str()),
        ProviderKind::TogetherAI => to_lowercase(llm_model.as_str()),
        _ => llm_model,
    };
    let mut messages: Vec<OpenAIMessage> = Vec::new();
    messages.push(OpenAIMessage { role: "user".to_string(), content: input_text });
    ChatRequestFields { model, messages, max_tokens: Some(5000), seed, do_sample: Some(false), stream: false }
}

/// The text of a router provider's answer: the content of its first choice;
/// without a choice, an error (Novita's message differs by one letter).
pub open spec fn first_choice_result(kind: ProviderKind, contents: Seq<String>) -> Result<Seq<char>, Seq<char>> {
    if contents.len() == 0 {
        if kind == ProviderKind::Novita {
            Err("choices fields is empty"@)
        } else {
            Err("choices field is empty"@)
        }
    } else {
        Ok(contents[0]@)
    }
}

/// The text of a router provider's answer, from the contents of its choices.
pub fn first_choice_content(kind: ProviderKind, contents: &Vec<String>) -> (res: Result<String, String>)
    ensures
        match res {
            Ok(t) => first_choice_result(kind, contents@) == Ok::<Seq<char>, Seq<char>>(t@),
            Err(e) => first_choice_result(kind, contents@) == Err::<Seq<char>, Seq<char>>(e@),
        },
{
    if contents.len() == 0 {
        if kind == ProviderKind::Novita {
            Err("choices fields is empty".to_string())
        } else {
            Err("choices field is empty".to_string())
        }
    } else {
        Ok(contents[0].clone())
    }
}

/// The text of the Hugging Face API's answer: the first item's generated
/// text, `No generated_text` when it has none, an error without items.
pub open spec fn generated_text_result(items: Seq<HuggingFaceResponseItem>) -> Result<Seq<char>, Seq<char>> {
    if items.len() == 0 {
        Err("No generated text"@)
    } else {
        match items[0].generated_text {
            Some(t) => Ok(t@),
            None => Ok("No generated_text"@),
        }
    }
}

/// The text of the Hugging Face API's answer.
pub fn first_generated_text(items: &Vec<HuggingFaceResponseItem>) -> (res: Result<String, String>)
    ensures
        match res {
            Ok(t) => generated_text_result(items@) == Ok::<Seq<char>, Seq<char>>(t@),
            Err(e) => generated_text_result(items@) == Err::<Seq<char>, Seq<char>>(e@),
        },
{
    if items.len() == 0 {
        return Err("No generated text".to_string());
    }
    match &items[0].generated_text {
        Some(t) => Ok(t.clone()),
        None => Ok("No generated_text".to_string()),
    }
}

} // verus!
