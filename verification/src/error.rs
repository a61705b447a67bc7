use vstd::prelude::*;

verus! {

/// The ways an operation on the tree can be refused.
#[derive(Clone, Copy, Debug, PartialEq, Eq, Structural)]
pub enum Error {
    /// A character offset lies outside the text it addresses.
    IndexSize,
    /// The child's type is not allowed under the parent's type; or, where
    /// nothing else stands against an insertion, it would place a node
    /// below itself.
    HierarchyRequest,
    /// A node named as a child is not in the child list it was looked for in.
    NotFound,
    /// The two nodes belong to different documents.
    WrongDocument,
    /// The node's type lacks what the operation needs.
    InvalidState,
    /// A name is malformed, an ID value is already taken, or a processing
    /// instruction's target is reserved.
    Syntax,
}

} // verus!
