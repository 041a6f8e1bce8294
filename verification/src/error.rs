//! The errors of the document builder.
use vstd::prelude::*;

verus! {

/// Why the parse of one program file was abandoned.
///
/// Every failure is fatal to the file being read: nothing is retried and no
/// partly built document is handed out.
#[derive(Clone, Copy, Debug, PartialEq, Eq, Structural)]
pub enum ParseError {
    /// The bytes of the file are not a well-formed sequence of XML events.
    InvalidXml,
    /// An event was asked for after the last one.
    EndOfStream,
    /// A name or a value is not UTF-8.
    InvalidEncoding,
    /// A tag whose name is in none of the whitelists.
    UnknownTag,
    /// Character data outside of attributes.
    UnexpectedText,
    /// An event, a name, a prefix or a value other than the one the format fixes.
    UnexpectedStructure,
    /// A geometry string that is not four unsigned integers.
    MalformedBounds,
    /// A joint string without exactly one input and one output node joint.
    MalformedJoints,
    /// A required attribute or part of the document is absent.
    MissingRequiredField,
    /// An attribute whose name the tag does not admit.
    UnknownAttribute,
    /// A method call whose target is not modelled.
    UnknownMethodTarget,
    /// Two wires with one id.
    DuplicateWireId,
    /// A second XML declaration.
    DuplicateDeclaration,
    /// A second version.
    DuplicateVersion,
    /// A second name for one document.
    DuplicateName,
}

} // verus!
