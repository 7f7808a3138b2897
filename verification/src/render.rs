//! What can go wrong when a renderer is set up.

use vstd::prelude::*;
use vstd::std_specs::convert::FromSpecImpl;

verus! {

/// The error type of `glutin`, which says why a surface, a display or a
/// context could not be had. The library carries it and looks into it
/// nowhere.
#[verifier::external_type_specification]
#[verifier::external_body]
pub struct ExGlutinError(glutin::error::Error);

/// An error that can occur when rendering.
#[derive(Debug)]
pub enum GlowError {
    /// Failed to create a surface.
    Glutin(glutin::error::Error),
    /// No compatible config found.
    ConfigNotFound,
    /// Failed to request a device.
    Gl(String),
}

impl From<glutin::error::Error> for GlowError {
    fn from(err: glutin::error::Error) -> (e: GlowError) {
        GlowError::Glutin(err)
    }
}

impl FromSpecImpl<glutin::error::Error> for GlowError {
    open spec fn obeys_from_spec() -> bool {
        true
    }

    open spec fn from_spec(err: glutin::error::Error) -> GlowError {
        GlowError::Glutin(err)
    }
}

/// What `glutin` has to say about one of its errors: the text that
/// `glutin::error::Error` gives through `Display`, by way of `to_string`.
/// Nothing is claimed of the text.
#[verifier::external_body]
fn glutin_words(err: &glutin::error::Error) -> (words: String) {
    err.to_string()
}

impl GlowError {
    /// The error in words, given what `glutin` says about its own.
    pub open spec fn spec_message(self, glutin: Seq<char>) -> Seq<char> {
        match self {
            GlowError::Glutin(_) => glutin,
            GlowError::ConfigNotFound => "No compatible config found"@,
            GlowError::Gl(err) => err@,
        }
    }

    /// The error in words, where `glutin` are the words of the platform for
    /// an error of its own.
    pub fn message_with(&self, glutin: String) -> (m: String)
        ensures
            m@ == self.spec_message(glutin@),
    {
        match self {
            GlowError::Glutin(_) => glutin,
            GlowError::ConfigNotFound => "No compatible config found".to_owned(),
            GlowError::Gl(err) => err.clone(),
        }
    }

    /// The error in words. For an error of the platform they are the
    /// platform's own; the others are told here.
    pub fn message(&self) -> (m: String)
        ensures
            self is ConfigNotFound ==> m@ == "No compatible config found"@,
            self is Gl ==> m@ == self->Gl_0@,
    {
        let glutin = match self {
            GlowError::Glutin(err) => glutin_words(err),
            _ => String::new(),
        };
        self.message_with(glutin)
    }
}

} // verus!
