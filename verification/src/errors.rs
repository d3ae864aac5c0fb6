use vstd::prelude::*;

verus! {

/// An error returned by the canister's endpoints: a numeric code, the
/// category it belongs to (the code rounded down to its hundred), a message
/// and extra key/value details.
#[derive(Debug)]
pub struct GenericError {
    pub category: u16,
    pub code: u16,
    pub message: String,
    pub details: Vec<(String, String)>,
}

/// The category of an error code: the code rounded down to a multiple of 100.
pub open spec fn category_of(code: u16) -> int {
    (code as int / 100) * 100
}

impl GenericError {
    // Input errors (100)
    pub const EMPTY_INPUT: u16 = 101;
    pub const INVALID_FORMAT: u16 = 102;
    pub const INVALID_RESOURCE_FORMAT: u16 = 103;
    pub const INVALID_ARGUMENT: u16 = 104;
    pub const INVALID_MODEL_TYPE: u16 = 105;

    // Resource errors (300)
    pub const NOT_FOUND: u16 = 301;
    pub const ALREADY_EXISTS: u16 = 302;
    pub const CONFIGURATION_KEY_NOT_FOUND: u16 = 303;

    // External resource errors (400)
    pub const EXTERNAL_RESOURCE_GENERIC_ERROR: u16 = 400;
    pub const HUGGING_FACE_ERROR_RATE_REACHED: u16 = 401;

    // Internal errors (500)
    pub const GENERIC_SYSTEM_FAILURE: u16 = 500;

    /// Builds an error with the given code and message and no details; the
    /// category is derived from the code.
    pub fn new(code: u16, message: &str) -> (res: Self)
        ensures
            res.code == code,
            res.category == category_of(code),
            res.message@ == message@,
            res.details@.len() == 0,
    {
        let category: u16 = (code / 100) * 100;
        GenericError { category, code, message: message.to_string(), details: Vec::new() }
    }

    /// Returns the same error with one more `(key, value)` detail appended.
    pub fn with_detail(self, key: &str, value: &str) -> (res: Self)
        ensures
            res.code == self.code,
            res.category == self.category,
            res.message == self.message,
            res.details@.len() == self.details@.len() + 1,
            res.details@.take(self.details@.len() as int) == self.details@,
            res.details@.last().0@ == key@,
            res.details@.last().1@ == value@,
    {
        let mut err = self;
        err.details.push((key.to_string(), value.to_string()));
        err
    }
}

/// The configuration key of the inference API key.
pub const HUGGING_FACE_API_KEY_CONFIG_KEY: &'static str = "hugging_face_api_key";

/// The answer to a configuration lookup: the value when the key is set,
/// otherwise the error `Key not set` (code `CONFIGURATION_KEY_NOT_FOUND`).
pub fn config_value_result(value: Option<String>) -> (res: Result<String, GenericError>)
    ensures
        match value {
            Some(v) => res == Ok::<String, GenericError>(v),
            None => res matches Err(e) && e.code == GenericError::CONFIGURATION_KEY_NOT_FOUND
                && e.category == category_of(e.code) && e.message@ == "Key not set"@ && e.details@.len() == 0,
        },
{
    match value {
        Some(v) => Ok(v),
        None => Err(GenericError::new(GenericError::CONFIGURATION_KEY_NOT_FOUND, "Key not set")),
    }
}

/// A model looked up by id: the model when there is one, otherwise the
/// error `Model not found` (code `NOT_FOUND`).
pub fn model_lookup_result<T>(model: Option<T>) -> (res: Result<T, GenericError>)
    ensures
        match model {
            Some(m) => res == Ok::<T, GenericError>(m),
            None => res matches Err(e) && e.code == GenericError::NOT_FOUND && e.category == category_of(e.code)
                && e.message@ == "Model not found"@ && e.details@.len() == 0,
        },
{
    match model {
        Some(m) => Ok(m),
        None => Err(GenericError::new(GenericError::NOT_FOUND, "Model not found")),
    }
}

} // verus!
