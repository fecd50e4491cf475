//! Turning parsed binary containers into graph nodes.
//!
//! Decoding the container formats themselves is the binary parser's work;
//! this module classifies its outcome: ELF containers become binary or
//! library nodes, PE containers portable-executable nodes, every other
//! container is rejected the way a corrupt file is skipped.

use vstd::prelude::*;
use vstd::string::StringExecFns;

use crate::errors::BingraphError;
use crate::node::{BinNode, NodeType, NodeV};

verus! {

/// What the binary-container parser reports of one file: an ELF with its
/// shared-library flag and its declared libraries, a PE with its declared
/// libraries, or some other recognized container.
pub enum ParsedObject {
    Elf { is_lib: bool, libraries: Vec<String> },
    Pe { libraries: Vec<String> },
    Other,
}

/// The outcome of parsing `bytes` as a binary container: `None` when the
/// parser rejects the bytes, `Some` of what it decoded otherwise. The
/// outcome is a function of the bytes alone.
pub uninterp spec fn parse_outcome(bytes: Seq<u8>) -> Option<ParsedObject>;

/// Relies on goblin's `Object::parse`: a deterministic decode of the bytes
/// that yields an ELF with `elf.is_lib` and `elf.libraries`, a PE with
/// `pe.libraries`, some other recognized container, or an error.
#[verifier::external_body]
fn parse_object(bytes: &Vec<u8>) -> (r: Result<ParsedObject, goblin::error::Error>)
    ensures
        match r {
            Ok(p) => parse_outcome(bytes@) == Some(p),
            Err(_) => parse_outcome(bytes@) is None,
        },
{
    match goblin::Object::parse(bytes) {
        Ok(goblin::Object::Elf(elf)) => Ok(ParsedObject::Elf {
            is_lib: elf.is_lib,
            libraries: elf.libraries.into_iter().map(String::from).collect(),
        }),
        Ok(goblin::Object::PE(pe)) => Ok(ParsedObject::Pe {
            libraries: pe.libraries.into_iter().map(String::from).collect(),
        }),
        Ok(_) => Ok(ParsedObject::Other),
        Err(e) => Err(e),
    }
}

/// The node a parse outcome yields for the file at `path` whose filename
/// is `name`, or `None` for a container of another kind.
pub open spec fn node_of_parsed(name: Seq<char>, path: Seq<char>, p: ParsedObject) -> Option<
    NodeV,
> {
    match p {
        ParsedObject::Elf { is_lib, libraries } => Some(NodeV {
            name,
            absolute_path: path,
            node_type: if is_lib {
                NodeType::ELFLibrary
            } else {
                NodeType::ELFBinary
            },
            dependencies: libraries.deep_view(),
            in_degree: 0,
            out_degree: 0,
            betweenness_centrality: None,
            katz_centrality: None,
            eigen_centrality: None,
            closeness_centrality: None,
        }),
        ParsedObject::Pe { libraries } => Some(NodeV {
            name,
            absolute_path: path,
            node_type: NodeType::PortableExecutable,
            dependencies: libraries.deep_view(),
            in_degree: 0,
            out_degree: 0,
            betweenness_centrality: None,
            katz_centrality: None,
            eigen_centrality: None,
            closeness_centrality: None,
        }),
        ParsedObject::Other => None,
    }
}

/// The diagnostic for a file whose container kind yields no node.
pub open spec fn unknown_type_message(path: Seq<char>) -> Seq<char> {
    "\""@ + path + "\" is of unknown file type"@
}

impl BinNode {
    /// The node for the parse outcome `parsed` of the file at
    /// `absolute_path` whose filename is `name`. A container of a kind the
    /// graph does not track is rejected with a diagnostic, exactly when
    /// `node_of_parsed` yields nothing.
    pub fn from_parsed(name: String, absolute_path: String, parsed: ParsedObject) -> (r: Result<
        BinNode,
        BingraphError,
    >)
        ensures
            match r {
                Ok(node) => node_of_parsed(name@, absolute_path@, parsed) == Some(node@),
                Err(e) => {
                    &&& node_of_parsed(name@, absolute_path@, parsed) is None
                    &&& e matches BingraphError::GeneralError(m) && m@ == unknown_type_message(
                        absolute_path@,
                    )
                },
            },
    {
        match parsed {
            ParsedObject::Elf { is_lib, libraries } => {
                let t = if is_lib {
                    NodeType::ELFLibrary
                } else {
                    NodeType::ELFBinary
                };
                Ok(BinNode::new(name, absolute_path, t, libraries))
            },
            ParsedObject::Pe { libraries } => Ok(
                BinNode::new(name, absolute_path, NodeType::PortableExecutable, libraries),
            ),
            ParsedObject::Other => {
                let mut m = String::from_str("\"");
                m.append(absolute_path.as_str());
                m.append("\" is of unknown file type");
                Err(BingraphError::GeneralError(m))
            },
        }
    }

    /// Parses `bytes`, the content of the file at `absolute_path` whose
    /// filename is `name`, and yields its node. The call succeeds exactly
    /// when the bytes decode to an ELF or PE container; undecodable bytes
    /// carry the parser's error, any other container the diagnostic of
    /// [`BinNode::from_parsed`].
    pub fn from_bytes(name: String, absolute_path: String, bytes: &Vec<u8>) -> (r: Result<
        BinNode,
        BingraphError,
    >)
        ensures
            match r {
                Ok(node) => parse_outcome(bytes@) matches Some(p) && node_of_parsed(
                    name@,
                    absolute_path@,
                    p,
                ) == Some(node@),
                Err(e) => match e {
                    BingraphError::GoblinError(_) => parse_outcome(bytes@) is None,
                    BingraphError::GeneralError(m) => parse_outcome(bytes@) matches Some(p)
                        && node_of_parsed(name@, absolute_path@, p) is None && m@
                        == unknown_type_message(absolute_path@),
                    BingraphError::IOError(_) => false,
                },
            },
    {
        match parse_object(bytes) {
            Ok(p) => BinNode::from_parsed(name, absolute_path, p),
            Err(e) => Err(BingraphError::GoblinError(e)),
        }
    }
}

} // verus!
