//! Version dispatch: routes validation to the rules of the declared version.
pub mod gn_z11;

use vstd::prelude::*;
use crate::ast::{Node, SpecNode, RnmdlVersion, SpecVersion, version_named, version_display};
use crate::text::{unicode_lowercase, string_of, append_str, decimal, append_decimal};

verus! {

#[derive(Debug)]
pub struct ValidationError {
    pub message: String,
    pub line: usize,
}

pub struct SpecValidationError {
    pub message: Seq<char>,
    pub line: nat,
}

impl View for ValidationError {
    type V = SpecValidationError;

    open spec fn view(&self) -> SpecValidationError {
        SpecValidationError { message: self.message@, line: self.line as nat }
    }
}

pub open spec fn errors_view(v: Seq<ValidationError>) -> Seq<SpecValidationError> {
    v.map_values(|e: ValidationError| e@)
}

impl ValidationError {
    pub fn new(message: String, line: usize) -> (e: Self)
        ensures
            e.message@ == message@,
            e.line == line,
    {
        ValidationError { message, line }
    }

    /// The message shown to users: "[Validation Error] Line L: message".
    pub fn to_string(&self) -> (r: String)
        ensures
            r@ == "[Validation Error] Line "@ + decimal(self.line as nat) + ": "@ + self.message@,
    {
        let mut r = string_of("[Validation Error] Line ");
        append_decimal(&mut r, self.line);
        append_str(&mut r, ": ");
        append_str(&mut r, self.message.as_str());
        r
    }
}

/// The version a document declares: that of its first declaration, or "none".
pub open spec fn declared_version(n: SpecNode) -> SpecVersion {
    match n {
        SpecNode::Document { header, .. } => if header.declarations.len() > 0 {
            version_named(unicode_lowercase(header.declarations[0].version))
        } else {
            SpecVersion::Unknown("none"@)
        },
        _ => SpecVersion::Unknown("none"@),
    }
}

pub open spec fn msg_unknown_version(v: Seq<char>) -> Seq<char> {
    "Unknown version '"@ + v
        + "'. Known versions: gn-z11, milky-way, sol, luna, andromeda, pallas, halley, ceres, chiron"@
}

pub open spec fn msg_unimplemented_version(v: SpecVersion) -> Seq<char> {
    "Version '"@ + version_display(v) + "' is not yet implemented in this build."@
}

/// The errors of a document under the rules of the version it declares. GN-Z11 and its
/// bugfix sets use the GN-Z11 rules, and so does MILKY-WAY until it has rules of its own.
pub open spec fn validate_versioned(n: SpecNode) -> Seq<SpecValidationError> {
    if n is Document {
        match declared_version(n) {
            SpecVersion::GnZ11 | SpecVersion::Pallas | SpecVersion::Halley | SpecVersion::Ceres
            | SpecVersion::Chiron | SpecVersion::MilkyWay => gn_z11::validator::validate_spec(n),
            SpecVersion::Unknown(v) => seq![SpecValidationError { message: msg_unknown_version(v), line: 1 }],
            v => seq![SpecValidationError { message: msg_unimplemented_version(v), line: 1 }],
        }
    } else {
        seq![SpecValidationError { message: "Root node must be a Document"@, line: 0 }]
    }
}

/// Validate a document using the rules for its declared version.
pub fn validate(document: &Node) -> (r: Vec<ValidationError>)
    ensures
        errors_view(r@) == validate_versioned(document@),
{
    let version = match document {
        Node::Document { header, .. } => {
            if header.declarations.len() > 0 {
                proof {
                    assert(document@->header.declarations[0] == header.declarations@[0]@);
                }
                RnmdlVersion::from_str(header.declarations[0].version.as_str())
            } else {
                RnmdlVersion::Unknown(string_of("none"))
            }
        },
        _ => {
            let r = vec![ValidationError::new(string_of("Root node must be a Document"), 0)];
            assert(errors_view(r@) =~= validate_versioned(document@));
            return r;
        },
    };
    match version {
        RnmdlVersion::GnZ11
        | RnmdlVersion::Pallas
        | RnmdlVersion::Halley
        | RnmdlVersion::Ceres
        | RnmdlVersion::Chiron
        | RnmdlVersion::MilkyWay => gn_z11::validator::validate(document),
        RnmdlVersion::Unknown(v) => {
            let mut m = string_of("Unknown version '");
            append_str(&mut m, v.as_str());
            append_str(
                &mut m,
                "'. Known versions: gn-z11, milky-way, sol, luna, andromeda, pallas, halley, ceres, chiron",
            );
            let r = vec![ValidationError::new(m, 1)];
            assert(errors_view(r@) =~= validate_versioned(document@));
            r
        },
        _ => {
            let mut m = string_of("Version '");
            let name = version.display_name();
            append_str(&mut m, name.as_str());
            append_str(&mut m, "' is not yet implemented in this build.");
            let r = vec![ValidationError::new(m, 1)];
            assert(errors_view(r@) =~= validate_versioned(document@));
            r
        },
    }
}

} // verus!
