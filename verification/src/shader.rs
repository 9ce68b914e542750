//! Shader programs and what can go wrong while one is built.
//!
//! Compiling and linking is the GPU driver's work. This module holds what is
//! decided around it: how many bytes of a log to ask for, and what the status
//! and the log that the driver reports amount to.

use vstd::prelude::*;
use vstd::string::StringExecFns;
use vstd::utf8::{encode_utf8, valid_utf8};

verus! {

/// `std::io::Error`, carried through as it comes. Nothing is known of what
/// it holds.
#[verifier::external_type_specification]
#[verifier::external_body]
pub struct ExIoError(std::io::Error);

/// `core::str::Utf8Error`, carried through as it comes. Nothing is known of
/// what it holds.
#[verifier::external_type_specification]
#[verifier::external_body]
pub struct ExUtf8Error(core::str::Utf8Error);

/// `core::str::from_utf8`: succeeds exactly on well-formed UTF-8, and the
/// string slice it returns is made of the bytes it was given.
pub assume_specification[ core::str::from_utf8 ](v: &[u8]) -> (result: Result<
    &str,
    core::str::Utf8Error,
>)
    ensures
        result is Ok <==> valid_utf8(v@),
        result matches Ok(text) ==> encode_utf8(text@) == v@,
;

/// The status that the driver reports for a step that succeeded.
pub const STATUS_OK: i32 = 1;

/// Why a shader program could not be built.
#[derive(Debug)]
pub enum ShaderError {
    /// A source file could not be read.
    IoError(std::io::Error),
    /// The compiler refused a source; the text is its log.
    CompilationError(String),
    /// The linker refused the program; the text is its log.
    LinkError(String),
    /// The driver's log is no text.
    InfoLogError(core::str::Utf8Error),
}

/// The outside error that lies under a [`ShaderError`].
#[derive(Debug)]
pub enum Cause<'a> {
    /// The error with which reading a source file failed.
    Io(&'a std::io::Error),
    /// The error with which decoding the driver's log failed.
    InfoLog(&'a core::str::Utf8Error),
}

/// A linked shader program with the files it was made from.
#[derive(Debug, PartialEq, Eq)]
pub struct Shader {
    pub vertex_path: String,
    pub fragment_path: String,
    pub program: u32,
}

/// The step of the build that a status and a log belong to.
#[derive(Clone, Copy, Debug, PartialEq, Eq, Structural)]
pub enum Stage {
    Compile,
    Link,
}

/// True when `result` is what a status and a log amount to at `stage` for
/// the GPU object `object`: the object where the status is [`STATUS_OK`];
/// else the error of the stage with the log as its text, where the log is
/// well-formed UTF-8; else the error that says that it is not.
pub open spec fn is_outcome(
    stage: Stage,
    object: u32,
    status: i32,
    log: Seq<u8>,
    result: Result<u32, ShaderError>,
) -> bool {
    if status == STATUS_OK {
        result matches Ok(found) && found == object
    } else if valid_utf8(log) {
        match stage {
            Stage::Compile => result matches Err(ShaderError::CompilationError(text))
                && encode_utf8(text@) == log,
            Stage::Link => result matches Err(ShaderError::LinkError(text))
                && encode_utf8(text@) == log,
        }
    } else {
        result matches Err(ShaderError::InfoLogError(_))
    }
}

/// Number of bytes of text in a log for which the driver reports the length
/// `reported`: the driver counts the zero byte that ends the log.
pub open spec fn log_text_len(reported: i32) -> int {
    if reported >= 1 {
        reported - 1
    } else {
        0
    }
}

impl Shader {
    /// The shader program `program`, made from the two given files.
    pub fn new(vert_path: String, frag_path: String, program: u32) -> (shader: Shader)
        ensures
            shader.vertex_path == vert_path,
            shader.fragment_path == frag_path,
            shader.program == program,
    {
        Shader { vertex_path: vert_path, fragment_path: frag_path, program }
    }

    /// The program object that the driver has to make current for this
    /// shader to draw. The shader does not change.
    pub fn use_program(&mut self) -> (program: u32)
        ensures
            program == old(self).program,
            *final(self) == *old(self),
    {
        self.program
    }

    /// Number of bytes to read of a log whose length the driver reports as
    /// `reported`.
    pub fn info_log_len(reported: i32) -> (len: usize)
        ensures
            len == log_text_len(reported),
    {
        if reported >= 1 {
            (reported - 1) as usize
        } else {
            0
        }
    }

    /// What the status and the log of a step of the build amount to.
    pub fn outcome(stage: Stage, object: u32, status: i32, info_log: &[u8]) -> (result: Result<
        u32,
        ShaderError,
    >)
        ensures
            is_outcome(stage, object, status, info_log@, result),
    {
        if status == STATUS_OK {
            return Ok(object);
        }
        match core::str::from_utf8(info_log) {
            Ok(text) => {
                let text: String = text.to_owned();
                match stage {
                    Stage::Compile => Err(ShaderError::CompilationError(text)),
                    Stage::Link => Err(ShaderError::LinkError(text)),
                }
            },
            Err(error) => Err(ShaderError::InfoLogError(error)),
        }
    }

    /// What the status and the log of a compilation amount to: the shader
    /// object, or the reason why there is none.
    pub fn compile_outcome(shader: u32, status: i32, info_log: &[u8]) -> (result: Result<
        u32,
        ShaderError,
    >)
        ensures
            is_outcome(Stage::Compile, shader, status, info_log@, result),
    {
        Shader::outcome(Stage::Compile, shader, status, info_log)
    }

    /// What the status and the log of linking amount to: the program object,
    /// or the reason why there is none.
    pub fn link_outcome(program: u32, status: i32, info_log: &[u8]) -> (result: Result<
        u32,
        ShaderError,
    >)
        ensures
            is_outcome(Stage::Link, program, status, info_log@, result),
    {
        Shader::outcome(Stage::Link, program, status, info_log)
    }
}

/// `std::error::Error::description` of an I/O error: the short text that the
/// standard library has for it. Nothing is claimed of the text.
#[verifier::external_body]
#[allow(deprecated)]
fn io_error_description(err: &std::io::Error) -> (text: String) {
    std::error::Error::description(err).to_string()
}

/// `std::error::Error::description` of a decoding error: the short text that
/// the standard library has for it. Nothing is claimed of the text.
#[verifier::external_body]
#[allow(deprecated)]
fn utf8_error_description(err: &core::str::Utf8Error) -> (text: String) {
    std::error::Error::description(err).to_string()
}

/// True when `text` begins with `prefix`.
pub open spec fn starts_with(text: Seq<char>, prefix: Seq<char>) -> bool {
    prefix.len() <= text.len() && text.subrange(0, prefix.len() as int) == prefix
}

impl ShaderError {
    /// A short text that names the kind of error.
    pub fn description(&self) -> (text: String)
        ensures
            self is CompilationError ==> text@ == "Error during shader compilation"@,
            self is LinkError ==> text@ == "Error during linking"@,
    {
        match self {
            ShaderError::IoError(err) => io_error_description(err),
            ShaderError::CompilationError(_) => "Error during shader compilation".to_owned(),
            ShaderError::LinkError(_) => "Error during linking".to_owned(),
            ShaderError::InfoLogError(err) => utf8_error_description(err),
        }
    }

    /// The outside error that lies under this one: that of reading a file
    /// or of decoding a log. The compiler's and the linker's refusals have
    /// none.
    pub fn cause(&self) -> (cause: Option<Cause<'_>>)
        ensures
            match self {
                ShaderError::IoError(error) => cause matches Some(Cause::Io(found)) && found
                    == error,
                ShaderError::CompilationError(_) => cause is None,
                ShaderError::LinkError(_) => cause is None,
                ShaderError::InfoLogError(error) => cause matches Some(Cause::InfoLog(found))
                    && found == error,
            },
    {
        match self {
            ShaderError::IoError(error) => Some(Cause::Io(error)),
            ShaderError::InfoLogError(error) => Some(Cause::InfoLog(error)),
            _ => None,
        }
    }

    /// The error as a line for the user: what went wrong, and the text that
    /// came with it.
    pub fn to_string(&self) -> (text: String)
        ensures
            match self {
                ShaderError::IoError(_) => starts_with(text@, "IO Error: "@),
                ShaderError::CompilationError(log) => text@ == "Shader compilation error: "@
                    + log@,
                ShaderError::LinkError(log) => text@ == "Linking error: "@ + log@,
                ShaderError::InfoLogError(_) => starts_with(text@, "InfoLog Error: "@),
            },
    {
        match self {
            ShaderError::IoError(err) => {
                let detail: String = err.to_string();
                let text: String = "IO Error: ".to_owned().concat(detail.as_str());
                assert(text@.subrange(0, "IO Error: "@.len() as int) == "IO Error: "@);
                text
            },
            ShaderError::CompilationError(log) => "Shader compilation error: ".to_owned().concat(
                log.as_str(),
            ),
            ShaderError::LinkError(log) => "Linking error: ".to_owned().concat(log.as_str()),
            ShaderError::InfoLogError(err) => {
                let detail: String = err.to_string();
                let text: String = "InfoLog Error: ".to_owned().concat(detail.as_str());
                assert(text@.subrange(0, "InfoLog Error: "@.len() as int) == "InfoLog Error: "@);
                text
            },
        }
    }
}

impl From<std::io::Error> for ShaderError {
    fn from(err: std::io::Error) -> (error: ShaderError) {
        ShaderError::IoError(err)
    }
}

impl vstd::std_specs::convert::FromSpecImpl<std::io::Error> for ShaderError {
    open spec fn obeys_from_spec() -> bool {
        true
    }

    open spec fn from_spec(err: std::io::Error) -> ShaderError {
        ShaderError::IoError(err)
    }
}

impl From<core::str::Utf8Error> for ShaderError {
    fn from(err: core::str::Utf8Error) -> (error: ShaderError) {
        ShaderError::InfoLogError(err)
    }
}

impl vstd::std_specs::convert::FromSpecImpl<core::str::Utf8Error> for ShaderError {
    open spec fn obeys_from_spec() -> bool {
        true
    }

    open spec fn from_spec(err: core::str::Utf8Error) -> ShaderError {
        ShaderError::InfoLogError(err)
    }
}

} // verus!
