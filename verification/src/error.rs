//! The library's error type.
use vstd::prelude::*;
use vstd::string::to_string_from_display_ensures;

verus! {

/// What went wrong in a conversion: an outside codec's error, or a message
/// of the library's own.
#[derive(Debug)]
pub enum LlmFmtError {
    Io(std::io::Error),
    Json(serde_json::Error),
    Yaml(serde_yaml::Error),
    Csv(csv::Error),
    Toml(toml::de::Error),
    Toon(toon_format::ToonError),
    Message(String),
}

pub type Result<T> = std::result::Result<T, LlmFmtError>;

impl LlmFmtError {
    /// The error's text: the outside error's own `Display`, or the message.
    pub fn to_string(&self) -> (r: String)
        ensures
            self is Message ==> r@ == self->Message_0@,
            self matches LlmFmtError::Io(e) ==> to_string_from_display_ensures::<std::io::Error>(&e, r),
            self matches LlmFmtError::Json(e) ==> to_string_from_display_ensures::<serde_json::Error>(&e, r),
            self matches LlmFmtError::Yaml(e) ==> to_string_from_display_ensures::<serde_yaml::Error>(&e, r),
            self matches LlmFmtError::Csv(e) ==> to_string_from_display_ensures::<csv::Error>(&e, r),
            self matches LlmFmtError::Toml(e) ==> to_string_from_display_ensures::<toml::de::Error>(&e, r),
            self matches LlmFmtError::Toon(e) ==> to_string_from_display_ensures::<toon_format::ToonError>(&e, r),
    {
        match self {
            LlmFmtError::Io(err) => ToString::to_string(err),
            LlmFmtError::Json(err) => ToString::to_string(err),
            LlmFmtError::Yaml(err) => ToString::to_string(err),
            LlmFmtError::Csv(err) => ToString::to_string(err),
            LlmFmtError::Toml(err) => ToString::to_string(err),
            LlmFmtError::Toon(err) => ToString::to_string(err),
            LlmFmtError::Message(message) => message.clone(),
        }
    }
}

impl From<std::io::Error> for LlmFmtError {
    fn from(value: std::io::Error) -> Self {
        LlmFmtError::Io(value)
    }
}

impl vstd::std_specs::convert::FromSpecImpl<std::io::Error> for LlmFmtError {
    open spec fn obeys_from_spec() -> bool {
        true
    }

    open spec fn from_spec(value: std::io::Error) -> Self {
        LlmFmtError::Io(value)
    }
}

impl From<serde_json::Error> for LlmFmtError {
    fn from(value: serde_json::Error) -> Self {
        LlmFmtError::Json(value)
    }
}

impl vstd::std_specs::convert::FromSpecImpl<serde_json::Error> for LlmFmtError {
    open spec fn obeys_from_spec() -> bool {
        true
    }

    open spec fn from_spec(value: serde_json::Error) -> Self {
        LlmFmtError::Json(value)
    }
}

impl From<serde_yaml::Error> for LlmFmtError {
    fn from(value: serde_yaml::Error) -> Self {
        LlmFmtError::Yaml(value)
    }
}

impl vstd::std_specs::convert::FromSpecImpl<serde_yaml::Error> for LlmFmtError {
    open spec fn obeys_from_spec() -> bool {
        true
    }

    open spec fn from_spec(value: serde_yaml::Error) -> Self {
        LlmFmtError::Yaml(value)
    }
}

impl From<csv::Error> for LlmFmtError {
    fn from(value: csv::Error) -> Self {
        LlmFmtError::Csv(value)
    }
}

impl vstd::std_specs::convert::FromSpecImpl<csv::Error> for LlmFmtError {
    open spec fn obeys_from_spec() -> bool {
        true
    }

    open spec fn from_spec(value: csv::Error) -> Self {
        LlmFmtError::Csv(value)
    }
}

impl From<toml::de::Error> for LlmFmtError {
    fn from(value: toml::de::Error) -> Self {
        LlmFmtError::Toml(value)
    }
}

impl vstd::std_specs::convert::FromSpecImpl<toml::de::Error> for LlmFmtError {
    open spec fn obeys_from_spec() -> bool {
        true
    }

    open spec fn from_spec(value: toml::de::Error) -> Self {
        LlmFmtError::Toml(value)
    }
}

impl From<toon_format::ToonError> for LlmFmtError {
    fn from(value: toon_format::ToonError) -> Self {
        LlmFmtError::Toon(value)
    }
}

impl vstd::std_specs::convert::FromSpecImpl<toon_format::ToonError> for LlmFmtError {
    open spec fn obeys_from_spec() -> bool {
        true
    }

    open spec fn from_spec(value: toon_format::ToonError) -> Self {
        LlmFmtError::Toon(value)
    }
}

impl From<String> for LlmFmtError {
    fn from(value: String) -> Self {
        LlmFmtError::Message(value)
    }
}

impl vstd::std_specs::convert::FromSpecImpl<String> for LlmFmtError {
    open spec fn obeys_from_spec() -> bool {
        true
    }

    open spec fn from_spec(value: String) -> Self {
        LlmFmtError::Message(value)
    }
}

} // verus!
