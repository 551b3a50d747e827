use vstd::prelude::*;

verus! {

/// Errors that can occur during parsing or serialization
#[derive(Debug)]
pub enum ParseError {
    /// Error parsing markdown content
    Markdown(String),
    /// Error parsing HTML content
    Html(String),
    /// Error parsing JSON content
    Json(String),
    /// Generic parsing error
    Generic(String),
}

/// Errors that can occur during document editing operations
#[derive(Debug)]
pub enum EditError {
    /// The index is out of bounds
    IndexOutOfBounds,
    /// The operation is not supported for the given node type
    UnsupportedOperation,
    /// The range is invalid (e.g., end before start)
    InvalidRange,
    /// The operation was attempted on an invalid node
    InvalidNode,
    /// The operation could not be completed successfully
    OperationFailed,
    /// Other error with a message
    Other(String),
}

impl EditError {
    /// The human-readable message for this error.
    pub fn message(&self) -> (r: String)
        ensures
            match self {
                EditError::IndexOutOfBounds => r@ == "Index out of bounds"@,
                EditError::UnsupportedOperation => r@ == "Operation not supported for this node type"@,
                EditError::InvalidRange => r@ == "Invalid range provided"@,
                EditError::InvalidNode => r@ == "Operation attempted on invalid node"@,
                EditError::OperationFailed => r@ == "Operation failed to complete"@,
                EditError::Other(msg) => r@ == msg@,
            },
    {
        match self {
            EditError::IndexOutOfBounds => "Index out of bounds".to_owned(),
            EditError::UnsupportedOperation => "Operation not supported for this node type".to_owned(),
            EditError::InvalidRange => "Invalid range provided".to_owned(),
            EditError::InvalidNode => "Operation attempted on invalid node".to_owned(),
            EditError::OperationFailed => "Operation failed to complete".to_owned(),
            EditError::Other(msg) => msg.clone(),
        }
    }
}

impl ParseError {
    /// The human-readable message for this error: a prefix naming the kind
    /// of input, then the detail.
    pub fn message(&self) -> (r: String)
        ensures
            match self {
                ParseError::Markdown(m) => r@ == "Markdown parse error: "@ + m@,
                ParseError::Html(m) => r@ == "HTML parse error: "@ + m@,
                ParseError::Json(m) => r@ == "JSON parse error: "@ + m@,
                ParseError::Generic(m) => r@ == "Parse error: "@ + m@,
            },
    {
        match self {
            ParseError::Markdown(m) => crate::text::concat("Markdown parse error: ", m.as_str()),
            ParseError::Html(m) => crate::text::concat("HTML parse error: ", m.as_str()),
            ParseError::Json(m) => crate::text::concat("JSON parse error: ", m.as_str()),
            ParseError::Generic(m) => crate::text::concat("Parse error: ", m.as_str()),
        }
    }
}

} // verus!
