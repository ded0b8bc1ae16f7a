//! Small shared models: how many request logs are kept, a three-state field
//! value, the status of an API answer, and chat errors.
use vstd::prelude::*;
use vstd::std_specs::cmp::PartialEqSpec;
use vstd::string::StringExecFns;

verus! {

// ---------------------------------------------------------------------------
// Request log limit
// ---------------------------------------------------------------------------

/// How many request logs are kept: none, or at most a positive number.
#[derive(Debug, Clone, Copy, PartialEq, Eq, Structural)]
pub enum LogsLimit {
    Disabled,
    Limited(usize),
}

impl LogsLimit {
    /// A limit is never zero.
    pub open spec fn wf(self) -> bool {
        match self {
            LogsLimit::Disabled => true,
            LogsLimit::Limited(n) => n > 0,
        }
    }

    /// No logs for `0`, at most `limit` otherwise.
    pub fn from_usize(limit: usize) -> (r: LogsLimit)
        ensures
            r.wf(),
            r == (if limit == 0 {
                LogsLimit::Disabled
            } else {
                LogsLimit::Limited(limit)
            }),
    {
        if limit == 0 {
            LogsLimit::Disabled
        } else {
            LogsLimit::Limited(limit)
        }
    }

    /// Whether logs are kept at all.
    pub fn should_log(&self) -> (r: bool)
        requires
            self.wf(),
        ensures
            r == !(*self is Disabled),
            r == (self.get_limit_spec() != 0),
    {
        match self {
            LogsLimit::Disabled => false,
            LogsLimit::Limited(_) => true,
        }
    }

    /// The largest number of logs kept; `0` when disabled.
    pub open spec fn get_limit_spec(self) -> usize {
        match self {
            LogsLimit::Disabled => 0,
            LogsLimit::Limited(n) => n,
        }
    }

    /// The largest number of logs kept; `0` when disabled.
    pub fn get_limit(self) -> (r: usize)
        ensures
            r == (match self {
                LogsLimit::Disabled => 0,
                LogsLimit::Limited(n) => n,
            }),
    {
        match self {
            LogsLimit::Disabled => 0,
            LogsLimit::Limited(limit) => limit,
        }
    }
}

/// A limit made from a number gives that number back, and keeps logs
/// exactly when the number is not zero.
pub proof fn lemma_logs_limit_roundtrip(limit: usize)
    ensures
        ({
            let l = if limit == 0 {
                LogsLimit::Disabled
            } else {
                LogsLimit::Limited(limit)
            };
            &&& (match l {
                LogsLimit::Disabled => 0,
                LogsLimit::Limited(n) => n,
            }) == limit
            &&& !(l is Disabled) == (limit != 0)
        }),
{
}

/// A well-formed limit keeps logs exactly when its largest number of logs
/// is not zero.
pub proof fn lemma_logs_limit_should_log(l: LogsLimit)
    requires
        l.wf(),
    ensures
        !(l is Disabled) == ((match l {
            LogsLimit::Disabled => 0,
            LogsLimit::Limited(n) => n,
        }) != 0),
{
}

// ---------------------------------------------------------------------------
// Three-state values
// ---------------------------------------------------------------------------

/// A field that is absent (`Null(false)`), explicitly null (`Null(true)`),
/// or has a value.
#[derive(Debug, Clone, Copy, PartialEq)]
pub enum TriState<T> {
    Null(bool),
    Value(T),
}

impl<T> TriState<T> {
    /// Whether the field is absent.
    pub fn is_undefined(&self) -> (r: bool)
        ensures
            r == (*self === TriState::<T>::Null(false)),
    {
        match self {
            TriState::Null(b) => !*b,
            TriState::Value(_) => false,
        }
    }
}

impl<T> Default for TriState<T> {
    fn default() -> (r: TriState<T>)
        ensures
            r === TriState::<T>::Null(false),
    {
        TriState::Null(false)
    }
}

// ---------------------------------------------------------------------------
// Answers
// ---------------------------------------------------------------------------

/// The status of an API answer.
#[derive(Debug, Clone, Copy, PartialEq, Eq, Structural)]
pub enum ApiStatus {
    Success,
    Error,
}

impl ApiStatus {
    /// The status as it is written in an answer.
    pub fn as_str(&self) -> (r: &'static str)
        ensures
            r@ == (match self {
                ApiStatus::Success => "success"@,
                ApiStatus::Error => "error"@,
            }),
    {
        match self {
            ApiStatus::Success => "success",
            ApiStatus::Error => "error",
        }
    }
}

/// Whether `v` equals its type's default value.
pub fn is_default<T: Default + PartialEq>(v: &T) -> (r: bool)
    ensures
        T::obeys_eq_spec() ==> exists|d: T|
            #![trigger v.eq_spec(&d)]
            call_ensures(T::default, (), d) && r == v.eq_spec(&d),
{
    let d = T::default();
    let r = *v == d;
    proof {
        if T::obeys_eq_spec() {
            assert(r == v.eq_spec(&d));
        }
    }
    r
}

// ---------------------------------------------------------------------------
// Chat errors
// ---------------------------------------------------------------------------

/// Why a chat request failed.
#[derive(Debug, Clone)]
pub enum ChatError {
    ModelNotSupported(String),
    EmptyMessages,
    RequestFailed(String),
    ProcessingFailed(String),
}

impl ChatError {
    /// The error's code.
    pub fn error_type(&self) -> (r: &'static str)
        ensures
            r@ == (match self {
                ChatError::ModelNotSupported(_) => "model_not_supported"@,
                ChatError::EmptyMessages => "empty_messages"@,
                ChatError::RequestFailed(_) => "request_failed"@,
                ChatError::ProcessingFailed(_) => "processing_failed"@,
            }),
    {
        match self {
            ChatError::ModelNotSupported(_) => "model_not_supported",
            ChatError::EmptyMessages => "empty_messages",
            ChatError::RequestFailed(_) => "request_failed",
            ChatError::ProcessingFailed(_) => "processing_failed",
        }
    }

    /// The error's message.
    pub fn to_string(&self) -> (s: String)
        ensures
            s@ == (match self {
                ChatError::ModelNotSupported(model) => "Model '"@ + model@ + "' is not supported"@,
                ChatError::EmptyMessages => "Message array cannot be empty"@,
                ChatError::RequestFailed(err) => "Request failed: "@ + err@,
                ChatError::ProcessingFailed(err) => "Processing failed: "@ + err@,
            }),
    {
        match self {
            ChatError::ModelNotSupported(model) => {
                let mut s = String::from_str("Model '");
                s.append(model.as_str());
                s.append("' is not supported");
                s
            },
            ChatError::EmptyMessages => String::from_str("Message array cannot be empty"),
            ChatError::RequestFailed(err) => {
                let mut s = String::from_str("Request failed: ");
                s.append(err.as_str());
                s
            },
            ChatError::ProcessingFailed(err) => {
                let mut s = String::from_str("Processing failed: ");
                s.append(err.as_str());
                s
            },
        }
    }

    /// The error in the service's own answer form: an error status, no
    /// HTTP code, the error's code and its message.
    pub fn to_generic(&self) -> (r: GenericError)
        ensures
            r.status == ApiStatus::Error,
            r.code is None,
            r.error matches Some(e) && e@ == spec_error_type(self),
            r.message matches Some(m) && m@ == spec_message(self),
    {
        GenericError {
            status: ApiStatus::Error,
            code: None,
            error: Some(self.error_type()),
            message: Some(self.to_string()),
        }
    }

    /// The error in the OpenAI form: its code and its message.
    pub fn to_openai(&self) -> (r: OpenAiError)
        ensures
            r.code matches Some(c) && c@ == spec_error_type(self),
            r.message@ == spec_message(self),
    {
        OpenAiError { code: Some(self.error_type()), message: self.to_string() }
    }

    /// The error in the Anthropic form: its type and its message.
    pub fn to_anthropic(&self) -> (r: AnthropicError)
        ensures
            r.error_type@ == spec_error_type(self),
            r.message@ == spec_message(self),
    {
        AnthropicError { error_type: self.error_type(), message: self.to_string() }
    }
}

/// The code of a chat error.
pub open spec fn spec_error_type(e: &ChatError) -> Seq<char> {
    match e {
        ChatError::ModelNotSupported(_) => "model_not_supported"@,
        ChatError::EmptyMessages => "empty_messages"@,
        ChatError::RequestFailed(_) => "request_failed"@,
        ChatError::ProcessingFailed(_) => "processing_failed"@,
    }
}

/// The message of a chat error.
pub open spec fn spec_message(e: &ChatError) -> Seq<char> {
    match e {
        ChatError::ModelNotSupported(model) => "Model '"@ + model@ + "' is not supported"@,
        ChatError::EmptyMessages => "Message array cannot be empty"@,
        ChatError::RequestFailed(err) => "Request failed: "@ + err@,
        ChatError::ProcessingFailed(err) => "Processing failed: "@ + err@,
    }
}

/// An error as the service answers it: its status, the HTTP status code if
/// one is given, the error's code and its message.
pub struct GenericError {
    pub status: ApiStatus,
    pub code: Option<u16>,
    pub error: Option<&'static str>,
    pub message: Option<String>,
}

/// The error object of an answer in the OpenAI form.
pub struct OpenAiError {
    pub code: Option<&'static str>,
    pub message: String,
}

/// The error object of an answer in the Anthropic form.
pub struct AnthropicError {
    pub error_type: &'static str,
    pub message: String,
}

} // verus!
