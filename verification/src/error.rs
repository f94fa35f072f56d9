use vstd::prelude::*;

verus! {

/// What can go wrong when a worker is run, read from or written to.
#[derive(Debug)]
pub enum Error {
    /// A pass, a swap or a write names a buffer that was never added.
    BufferNotFound(String),
    /// A read names a buffer that has no staging pair.
    StagingBufferNotFound(String),
    /// A pass names a shader for which no pipeline was ever requested.
    PipelinesEmpty,
    /// A pass names a shader whose pipeline has not been compiled yet.
    PipelineNotReady,
    /// A command was to be recorded while no command batch is open.
    EncoderIsNone,
    /// The step at this position was handed to the handler of the other kind.
    InvalidStep(usize),
}

/// The mathematical content of an [`Error`].
pub enum ErrorView {
    BufferNotFound(Seq<char>),
    StagingBufferNotFound(Seq<char>),
    PipelinesEmpty,
    PipelineNotReady,
    EncoderIsNone,
    InvalidStep(int),
}

impl View for Error {
    type V = ErrorView;

    open spec fn view(&self) -> ErrorView {
        match self {
            Error::BufferNotFound(name) => ErrorView::BufferNotFound(name@),
            Error::StagingBufferNotFound(name) => ErrorView::StagingBufferNotFound(name@),
            Error::PipelinesEmpty => ErrorView::PipelinesEmpty,
            Error::PipelineNotReady => ErrorView::PipelineNotReady,
            Error::EncoderIsNone => ErrorView::EncoderIsNone,
            Error::InvalidStep(index) => ErrorView::InvalidStep(*index as int),
        }
    }
}

impl ErrorView {
    /// The sentence that describes the error to a person.
    pub open spec fn message(self) -> Seq<char> {
        match self {
            ErrorView::BufferNotFound(name) => "Buffer "@ + name + " not found."@,
            ErrorView::StagingBufferNotFound(name) => "Staging buffer "@ + name + " not found."@,
            ErrorView::PipelinesEmpty => "Missing pipelines. Have you added your shader plugins?"@,
            ErrorView::PipelineNotReady => "Pipeline isn't ready yet."@,
            ErrorView::EncoderIsNone => "The command encoder hasn't been initialized."@,
            ErrorView::InvalidStep(_) => "The step was handed to the wrong handler."@,
        }
    }

    /// Whether the error only asks to try again on a later tick.
    pub open spec fn recoverable(self) -> bool {
        self is PipelineNotReady
    }
}

impl Error {
    /// The sentence that describes the error to a person.
    pub fn message(&self) -> (text: String)
        ensures
            text@ == self@.message(),
    {
        match self {
            Error::BufferNotFound(name) => {
                String::from_str("Buffer ").concat(name.as_str()).concat(" not found.")
            },
            Error::StagingBufferNotFound(name) => {
                String::from_str("Staging buffer ").concat(name.as_str()).concat(" not found.")
            },
            Error::PipelinesEmpty => String::from_str(
                "Missing pipelines. Have you added your shader plugins?",
            ),
            Error::PipelineNotReady => String::from_str("Pipeline isn't ready yet."),
            Error::EncoderIsNone => String::from_str(
                "The command encoder hasn't been initialized.",
            ),
            Error::InvalidStep(_) => String::from_str("The step was handed to the wrong handler."),
        }
    }

    /// Whether the error only asks to try again on a later tick.
    pub fn recoverable(&self) -> (yes: bool)
        ensures
            yes == self@.recoverable(),
    {
        match self {
            Error::PipelineNotReady => true,
            _ => false,
        }
    }
}

} // verus!
