//! The syntax-tree model: node kinds, nodes, and well-formedness.

use vstd::prelude::*;

verus! {

/// The closed vocabulary of syntax-node kinds. One variant stands for each
/// recognized top-level construct of the grammar, one for each token kind
/// that the leaf renderers handle, and `Other` for any kind outside the
/// recognized set, which the dispatcher reproduces verbatim.
#[derive(Clone, Copy, PartialEq, Eq, Structural, Debug)]
pub enum NodeKind {
    Assertion,
    HardcodedSymbol,
    FunctionDeclaration,
    FunctionDefinition,
    Enum,
    EnumStruct,
    Typedef,
    Typeset,
    Functag,
    Funcenum,
    Methodmap,
    Struct,
    StructDeclaration,
    GlobalVariableDeclaration,
    OldGlobalVariableDeclaration,
    PreprocInclude,
    PreprocTryinclude,
    PreprocMacro,
    PreprocDefine,
    PreprocUndefine,
    AliasDeclaration,
    AliasAssignment,
    Comment,
    PreprocIf,
    PreprocElse,
    PreprocEndif,
    PreprocEndinput,
    PreprocPragma,
    AssertToken,
    StaticAssertToken,
    SemicolonToken,
    IntrinsicsHandleToken,
    FunctionCallArguments,
    Other,
}

/// One node of the parsed tree: a kind tag, the grammar's name for that
/// kind (used in diagnostics), the byte range of the source text it spans,
/// and its children in document order.
pub struct SyntaxNode {
    pub kind: NodeKind,
    pub kind_name: String,
    pub start: usize,
    pub end: usize,
    pub children: Vec<SyntaxNode>,
}

impl SyntaxNode {
    /// The node and, recursively, all its children span ranges that lie
    /// inside a source of `src_len` bytes.
    pub open spec fn wf(self, src_len: nat) -> bool
        decreases self,
    {
        &&& self.start <= self.end <= src_len
        &&& forall|i: int|
            0 <= i < self.children@.len() ==> (#[trigger] self.children@[i]).wf(src_len)
    }
}

/// The source bytes spanned by a node.
pub open spec fn node_text(source: Seq<u8>, node: SyntaxNode) -> Seq<u8> {
    source.subrange(node.start as int, node.end as int)
}

/// True of the kinds that the dispatcher routes to a construct-specific
/// renderer.
pub open spec fn is_construct(k: NodeKind) -> bool {
    match k {
        NodeKind::FunctionDeclaration => true,
        NodeKind::FunctionDefinition => true,
        NodeKind::Enum => true,
        NodeKind::EnumStruct => true,
        NodeKind::Typedef => true,
        NodeKind::Typeset => true,
        NodeKind::Functag => true,
        NodeKind::Funcenum => true,
        NodeKind::Methodmap => true,
        NodeKind::Struct => true,
        NodeKind::StructDeclaration => true,
        NodeKind::GlobalVariableDeclaration => true,
        NodeKind::OldGlobalVariableDeclaration => true,
        NodeKind::PreprocInclude => true,
        NodeKind::PreprocTryinclude => true,
        NodeKind::PreprocMacro => true,
        NodeKind::PreprocDefine => true,
        NodeKind::PreprocUndefine => true,
        NodeKind::AliasDeclaration => true,
        NodeKind::AliasAssignment => true,
        NodeKind::Comment => true,
        NodeKind::PreprocIf => true,
        NodeKind::PreprocElse => true,
        NodeKind::PreprocEndif => true,
        NodeKind::PreprocEndinput => true,
        NodeKind::PreprocPragma => true,
        _ => false,
    }
}

} // verus!
