use vstd::prelude::*;
use vstd::string::*;

verus! {

/// The three attributes that the free-form diagnostic output must supply.
#[derive(Clone, Copy, Debug, PartialEq, Eq)]
pub enum GpuAttr {
    CudaCores,
    BusWidth,
    TransferRate,
}

/// Spec-level mirror of `Error`, with string payloads as character sequences.
pub ghost enum ErrModel {
    ToolInvocation(Seq<char>),
    XmlParse,
    FieldNotFound(Seq<char>),
    EmptyField,
    AttributeNotFound(GpuAttr),
    InvalidUnit(Seq<char>),
    MalformedNumber,
    MalformedSize,
}

/// Everything that can go wrong while extracting the capability record.
#[derive(Debug, PartialEq, Eq)]
pub enum Error {
    /// A diagnostic tool could not be run, or its output was not UTF-8.
    ToolInvocation(String),
    /// The structured tool's output is not well-formed XML.
    XmlParse,
    /// No XML element with the given tag name was found.
    FieldNotFound(String),
    /// The XML element holds no text.
    EmptyField,
    /// One of the three text attributes was never observed.
    AttributeNotFound(GpuAttr),
    /// A clock string's unit suffix is not Hz, kHz, MHz or GHz; carries the
    /// offending unit token (empty where the token is missing).
    InvalidUnit(String),
    /// A numeric field does not parse as a number.
    MalformedNumber,
    /// A memory size string does not parse.
    MalformedSize,
}

impl View for Error {
    type V = ErrModel;

    open spec fn view(&self) -> ErrModel {
        match self {
            Error::ToolInvocation(s) => ErrModel::ToolInvocation(s@),
            Error::XmlParse => ErrModel::XmlParse,
            Error::FieldNotFound(t) => ErrModel::FieldNotFound(t@),
            Error::EmptyField => ErrModel::EmptyField,
            Error::AttributeNotFound(a) => ErrModel::AttributeNotFound(*a),
            Error::InvalidUnit(t) => ErrModel::InvalidUnit(t@),
            Error::MalformedNumber => ErrModel::MalformedNumber,
            Error::MalformedSize => ErrModel::MalformedSize,
        }
    }
}

impl Error {
    /// The human-readable message reported for this error.
    pub open spec fn message_spec(&self) -> Seq<char> {
        match self {
            Error::ToolInvocation(s) => "tool invocation failed: "@ + s@,
            Error::XmlParse => "the diagnostic output is not well-formed XML"@,
            Error::FieldNotFound(t) => "no node "@ + t@ + " in the XML"@,
            Error::EmptyField => "the XML node has no text"@,
            Error::AttributeNotFound(a) => match a {
                GpuAttr::CudaCores => "CUDACores attribute not found"@,
                GpuAttr::BusWidth => "GPUMemoryInterface attribute not found"@,
                GpuAttr::TransferRate => "memTransferRatemax attribute not found"@,
            },
            Error::InvalidUnit(t) => "Invalid unit "@ + t@,
            Error::MalformedNumber => "malformed number"@,
            Error::MalformedSize => "malformed memory size"@,
        }
    }

    /// Renders the error as the message carried in the fallback report.
    pub fn message(&self) -> (r: String)
        ensures
            r@ == self.message_spec(),
    {
        match self {
            Error::ToolInvocation(s) => {
                let mut m = String::from_str("tool invocation failed: ");
                m.append(s.as_str());
                m
            },
            Error::XmlParse => String::from_str("the diagnostic output is not well-formed XML"),
            Error::FieldNotFound(t) => {
                let mut m = String::from_str("no node ");
                m.append(t.as_str());
                m.append(" in the XML");
                m
            },
            Error::EmptyField => String::from_str("the XML node has no text"),
            Error::AttributeNotFound(a) => match a {
                GpuAttr::CudaCores => String::from_str("CUDACores attribute not found"),
                GpuAttr::BusWidth => String::from_str("GPUMemoryInterface attribute not found"),
                GpuAttr::TransferRate => String::from_str("memTransferRatemax attribute not found"),
            },
            Error::InvalidUnit(t) => {
                let mut m = String::from_str("Invalid unit ");
                m.append(t.as_str());
                m
            },
            Error::MalformedNumber => String::from_str("malformed number"),
            Error::MalformedSize => String::from_str("malformed memory size"),
        }
    }
}

} // verus!
