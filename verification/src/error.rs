//! The error taxonomy surfaced to users: each variant carries the text of
//! what went wrong, and [`AppError::message`] renders the variant exactly as
//! [`error_text`] states.

use vstd::prelude::*;

verus! {

/// One error category per subsystem.
#[derive(Debug)]
pub enum AppError {
    Screenshot(String),
    Input(String),
    Shell(String),
    AiProvider(String),
    Agent(String),
    Window(String),
    Settings(String),
    Serialization(String),
    Io(String),
    Request(String),
}

pub type AppResult<T> = Result<T, AppError>;

/// The rendered text of an error: a category prefix and the detail.
pub open spec fn error_text(e: AppError) -> Seq<char> {
    match e {
        AppError::Screenshot(m) => "Screenshot failed: "@ + m@,
        AppError::Input(m) => "Input error: "@ + m@,
        AppError::Shell(m) => "Shell error: "@ + m@,
        AppError::AiProvider(m) => "AI provider error: "@ + m@,
        AppError::Agent(m) => "Agent error: "@ + m@,
        AppError::Window(m) => "Window error: "@ + m@,
        AppError::Settings(m) => "Settings error: "@ + m@,
        AppError::Serialization(m) => "Serialization error: "@ + m@,
        AppError::Io(m) => "IO error: "@ + m@,
        AppError::Request(m) => "Request error: "@ + m@,
    }
}

impl AppError {
    /// Render this error as user-surfaceable text.
    pub fn message(&self) -> (r: String)
        ensures
            r@ == error_text(*self),
    {
        let (prefix, detail): (&str, &String) = match self {
            AppError::Screenshot(m) => ("Screenshot failed: ", m),
            AppError::Input(m) => ("Input error: ", m),
            AppError::Shell(m) => ("Shell error: ", m),
            AppError::AiProvider(m) => ("AI provider error: ", m),
            AppError::Agent(m) => ("Agent error: ", m),
            AppError::Window(m) => ("Window error: ", m),
            AppError::Settings(m) => ("Settings error: ", m),
            AppError::Serialization(m) => ("Serialization error: ", m),
            AppError::Io(m) => ("IO error: ", m),
            AppError::Request(m) => ("Request error: ", m),
        };
        let mut out = String::from_str(prefix);
        out.append(detail.as_str());
        out
    }

    /// A structurally equal copy.
    pub fn duplicate(&self) -> (r: AppError)
        ensures
            error_text(r) == error_text(*self),
    {
        match self {
            AppError::Screenshot(m) => AppError::Screenshot(m.clone()),
            AppError::Input(m) => AppError::Input(m.clone()),
            AppError::Shell(m) => AppError::Shell(m.clone()),
            AppError::AiProvider(m) => AppError::AiProvider(m.clone()),
            AppError::Agent(m) => AppError::Agent(m.clone()),
            AppError::Window(m) => AppError::Window(m.clone()),
            AppError::Settings(m) => AppError::Settings(m.clone()),
            AppError::Serialization(m) => AppError::Serialization(m.clone()),
            AppError::Io(m) => AppError::Io(m.clone()),
            AppError::Request(m) => AppError::Request(m.clone()),
        }
    }
}

} // verus!
