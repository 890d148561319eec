//! Failures that the runner carries from one side to the other.

use vstd::prelude::*;
use vstd::std_specs::convert::FromSpecImpl;

verus! {

/// `ash::vk::Result`, the result code of a call into the graphics driver. The
/// runner carries it from the renderer to the simulation and never looks
/// inside.
#[verifier::external_type_specification]
#[verifier::external_body]
pub struct ExVkResult(ash::vk::Result);

/// The text that `Display` prints for an `ash::vk::Result`.
pub uninterp spec fn vk_result_text(code: ash::vk::Result) -> Seq<char>;

/// Prints a result code with the `Display` of `ash::vk::Result`. That impl
/// looks the code up in a fixed table and prints the number of a code that
/// the table lacks, so the text depends on the code alone. Nothing more is
/// claimed of it.
#[verifier::external_body]
fn print_vk_result(code: &ash::vk::Result) -> (text: String)
    ensures
        text@ == vk_result_text(*code),
{
    format!("{}", code)
}

/// A failure that stops the pipeline.
#[derive(Clone, Copy, Debug, PartialEq, Eq)]
pub enum Error {
    /// The renderer failed to present a frame.
    RendererError(ash::vk::Result),
}

impl Error {
    /// The driver's result code behind this failure.
    pub open spec fn code(self) -> ash::vk::Result {
        match self {
            Error::RendererError(code) => code,
        }
    }

    /// The driver's result code behind this failure.
    pub fn source(&self) -> (code: ash::vk::Result)
        ensures
            code == self.code(),
    {
        match self {
            Error::RendererError(code) => *code,
        }
    }

    /// A description of the failure: the driver's text for its result code.
    pub fn message(&self) -> (text: String)
        ensures
            text@ == vk_result_text(self.code()),
    {
        match self {
            Error::RendererError(code) => print_vk_result(code),
        }
    }
}

impl From<ash::vk::Result> for Error {
    fn from(result: ash::vk::Result) -> (e: Error) {
        Error::RendererError(result)
    }
}

impl FromSpecImpl<ash::vk::Result> for Error {
    open spec fn obeys_from_spec() -> bool {
        true
    }

    open spec fn from_spec(result: ash::vk::Result) -> Error {
        Error::RendererError(result)
    }
}

} // verus!
