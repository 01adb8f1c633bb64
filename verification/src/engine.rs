//! The image engine as a capability: what the core asks of the library that
//! works on pixels, and nothing about how that library does it.

use crate::operation::Operation;
use vstd::prelude::*;

verus! {

/// The format in which a result is encoded.
#[derive(Clone, Copy, Debug, PartialEq, Eq, Structural)]
pub enum OutputFormat {
    /// JPEG at a quality from 1 to 100.
    Jpeg { quality: u8 },
    Png,
}

impl OutputFormat {
    /// The media type of this format.
    pub open spec fn media_type(self) -> Seq<char> {
        match self {
            OutputFormat::Jpeg { .. } => "image/jpeg"@,
            OutputFormat::Png => "image/png"@,
        }
    }

    /// The value of the `content-type` header for a body in this format.
    pub fn content_type(&self) -> (name: &'static str)
        ensures
            name@ == self.media_type(),
    {
        match self {
            OutputFormat::Jpeg { .. } => "image/jpeg",
            OutputFormat::Png => "image/png",
        }
    }
}

/// An operation of a pipeline could not be applied.
#[derive(Clone, Copy, Debug, PartialEq, Eq, Structural)]
pub struct EngineError {
    /// The position of the operation in the pipeline.
    pub index: usize,
}

/// The capability set of an image engine. The core sequences the calls; any
/// implementation that decodes, transforms and encodes may stand behind them.
pub trait Engine {
    /// An image in memory.
    type Image;

    /// Decodes source bytes, or finds that they are no image.
    fn decode(&self, bytes: &[u8]) -> Option<Self::Image>;

    /// Whether this engine may make `made` of `image` by `operation`, where
    /// `None` stands for an operation that it cannot apply. An engine that says
    /// nothing of its work leaves this as it is: anything may come of anything.
    open spec fn applies(
        &self,
        image: Self::Image,
        operation: Operation,
        made: Option<Self::Image>,
    ) -> bool {
        true
    }

    /// Applies one operation and returns the new image, or `None` if the
    /// operation cannot be applied.
    fn apply(&self, image: Self::Image, operation: &Operation) -> (made: Option<Self::Image>)
        ensures
            self.applies(image, *operation, made),
    ;

    /// Encodes an image in `format`.
    fn encode(&self, image: &Self::Image, format: OutputFormat) -> Vec<u8>;
}

} // verus!
