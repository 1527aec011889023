//! The top-level dispatcher and the two leaf renderers.
//!
//! Construct-specific rendering (functions, enums, methodmaps, preprocessor
//! directives, comments, expression argument lists, ...) is the business of
//! an external collaborator, abstracted by the [`Renderer`] trait: its spec
//! functions give each collaborator a deterministic model, and every
//! contract here is stated relative to that model. [`VerbatimRenderer`] is
//! the collaborator that reproduces every delegated node byte for byte.

use vstd::prelude::*;
use vstd::seq_lib::*;
use vstd::utf8::valid_utf8;

use crate::tree::{is_construct, node_text, NodeKind, SyntaxNode};
use crate::writer::{Diagnostic, EncodingError, RendererId, Writer, NEWLINE};

verus! {

/// The contract every construct renderer must satisfy: it reads the node
/// and the source bytes alone, appends to the output buffer, may request
/// that the dispatcher pass over trailing siblings it consumed by lookahead
/// (raising the skip budget), may report diagnostics, and fails exactly on
/// its model's encoding failures.
pub trait Renderer: Sized {
    /// Whether rendering the node succeeds.
    spec fn r_ok(&self, node: SyntaxNode, source: Seq<u8>) -> bool;

    /// The bytes appended on success.
    spec fn r_out(&self, node: SyntaxNode, source: Seq<u8>) -> Seq<u8>;

    /// How many upcoming siblings the renderer consumed by lookahead.
    spec fn r_skip(&self, node: SyntaxNode, source: Seq<u8>) -> nat;

    /// The diagnostics reported on success.
    spec fn r_diags(&self, node: SyntaxNode, source: Seq<u8>) -> Seq<Diagnostic>;

    /// Renders one delegated node into the writer.
    fn render(&self, node: &SyntaxNode, writer: &mut Writer) -> (res: Result<(), EncodingError>)
        requires
            node.wf(old(writer).source@.len()),
        ensures
            final(writer).source@ == old(writer).source@,
            old(writer).output@.is_prefix_of(final(writer).output@),
            res is Ok <==> self.r_ok(*node, old(writer).source@),
            res is Ok ==> final(writer).output@ == old(writer).output@ + self.r_out(
                *node,
                old(writer).source@,
            ),
            res is Ok ==> final(writer).skip == old(writer).skip + self.r_skip(
                *node,
                old(writer).source@,
            ),
            res is Ok ==> final(writer).diagnostics@ == old(writer).diagnostics@ + self.r_diags(
                *node,
                old(writer).source@,
            ),
    ;
}

/// The collaborator that renders every delegated node by reproducing its
/// original source bytes exactly, requests no skips, and reports nothing.
pub struct VerbatimRenderer;

impl Renderer for VerbatimRenderer {
    open spec fn r_ok(&self, node: SyntaxNode, source: Seq<u8>) -> bool {
        valid_utf8(node_text(source, node))
    }

    open spec fn r_out(&self, node: SyntaxNode, source: Seq<u8>) -> Seq<u8> {
        node_text(source, node)
    }

    open spec fn r_skip(&self, node: SyntaxNode, source: Seq<u8>) -> nat {
        0
    }

    open spec fn r_diags(&self, node: SyntaxNode, source: Seq<u8>) -> Seq<Diagnostic> {
        Seq::empty()
    }

    fn render(&self, node: &SyntaxNode, writer: &mut Writer) -> (res: Result<(), EncodingError>) {
        let res = writer.emit_range(node.start, node.end);
        proof {
            if res is Ok {
                lemma_concat_is_prefix(old(writer).output@, node_text(old(writer).source@, *node));
            }
        }
        res
    }
}

/// A sequence is a prefix of itself followed by anything.
proof fn lemma_concat_is_prefix(a: Seq<u8>, b: Seq<u8>)
    ensures
        a.is_prefix_of(a + b),
{
    assert(a =~= (a + b).subrange(0, a.len() as int));
}

/// What a leaf renderer does with a child of a given kind.
#[derive(Clone, Copy, PartialEq, Eq, Structural, Debug)]
pub enum LeafAction {
    /// Append the child's original bytes.
    Verbatim,
    /// Hand the child to the external collaborator.
    Delegate,
    /// A structural surprise: report it and emit nothing for the child.
    Surprise,
}

/// The fixed vocabulary of each leaf renderer: which child kinds it emits
/// verbatim, which it delegates, and that everything else is a surprise.
pub open spec fn leaf_vocab(rid: RendererId, k: NodeKind) -> LeafAction {
    match rid {
        RendererId::Assertion => match k {
            NodeKind::AssertToken => LeafAction::Verbatim,
            NodeKind::StaticAssertToken => LeafAction::Verbatim,
            NodeKind::SemicolonToken => LeafAction::Verbatim,
            NodeKind::FunctionCallArguments => LeafAction::Delegate,
            NodeKind::Comment => LeafAction::Delegate,
            _ => LeafAction::Surprise,
        },
        RendererId::HardcodedSymbol => match k {
            NodeKind::IntrinsicsHandleToken => LeafAction::Verbatim,
            NodeKind::SemicolonToken => LeafAction::Verbatim,
            NodeKind::Comment => LeafAction::Delegate,
            _ => LeafAction::Surprise,
        },
    }
}

fn classify_leaf_child(rid: RendererId, k: NodeKind) -> (a: LeafAction)
    ensures
        a == leaf_vocab(rid, k),
{
    match rid {
        RendererId::Assertion => match k {
            NodeKind::AssertToken => LeafAction::Verbatim,
            NodeKind::StaticAssertToken => LeafAction::Verbatim,
            NodeKind::SemicolonToken => LeafAction::Verbatim,
            NodeKind::FunctionCallArguments => LeafAction::Delegate,
            NodeKind::Comment => LeafAction::Delegate,
            _ => LeafAction::Surprise,
        },
        RendererId::HardcodedSymbol => match k {
            NodeKind::IntrinsicsHandleToken => LeafAction::Verbatim,
            NodeKind::SemicolonToken => LeafAction::Verbatim,
            NodeKind::Comment => LeafAction::Delegate,
            _ => LeafAction::Surprise,
        },
    }
}

/// Whether one child of a leaf statement renders without an encoding error.
pub open spec fn leaf_child_ok<R: Renderer>(
    c: R,
    rid: RendererId,
    child: SyntaxNode,
    source: Seq<u8>,
) -> bool {
    match leaf_vocab(rid, child.kind) {
        LeafAction::Verbatim => valid_utf8(node_text(source, child)),
        LeafAction::Delegate => c.r_ok(child, source),
        LeafAction::Surprise => true,
    }
}

/// The bytes one child of a leaf statement contributes to the output.
pub open spec fn leaf_child_out<R: Renderer>(
    c: R,
    rid: RendererId,
    child: SyntaxNode,
    source: Seq<u8>,
) -> Seq<u8> {
    match leaf_vocab(rid, child.kind) {
        LeafAction::Verbatim => node_text(source, child),
        LeafAction::Delegate => c.r_out(child, source),
        LeafAction::Surprise => Seq::empty(),
    }
}

/// The skip budget one child of a leaf statement adds.
pub open spec fn leaf_child_skip<R: Renderer>(
    c: R,
    rid: RendererId,
    child: SyntaxNode,
    source: Seq<u8>,
) -> nat {
    match leaf_vocab(rid, child.kind) {
        LeafAction::Verbatim => 0,
        LeafAction::Delegate => c.r_skip(child, source),
        LeafAction::Surprise => 0,
    }
}

/// The diagnostics one child of a leaf statement produces.
pub open spec fn leaf_child_diags<R: Renderer>(
    c: R,
    rid: RendererId,
    child: SyntaxNode,
    source: Seq<u8>,
) -> Seq<Diagnostic> {
    match leaf_vocab(rid, child.kind) {
        LeafAction::Verbatim => Seq::empty(),
        LeafAction::Delegate => c.r_diags(child, source),
        LeafAction::Surprise => seq![
            Diagnostic { kind_name: child.kind_name, renderer: rid },
        ],
    }
}

/// Whether every child of a leaf statement renders without error.
pub open spec fn leaf_children_ok<R: Renderer>(
    c: R,
    rid: RendererId,
    children: Seq<SyntaxNode>,
    source: Seq<u8>,
) -> bool
    decreases children.len(),
{
    children.len() == 0 || (leaf_child_ok(c, rid, children[0], source) && leaf_children_ok(
        c,
        rid,
        children.skip(1),
        source,
    ))
}

/// The bytes the children of a leaf statement contribute, in order.
pub open spec fn leaf_children_out<R: Renderer>(
    c: R,
    rid: RendererId,
    children: Seq<SyntaxNode>,
    source: Seq<u8>,
) -> Seq<u8>
    decreases children.len(),
{
    if children.len() == 0 {
        Seq::empty()
    } else {
        leaf_child_out(c, rid, children[0], source) + leaf_children_out(
            c,
            rid,
            children.skip(1),
            source,
        )
    }
}

/// The total skip budget the children of a leaf statement add.
pub open spec fn leaf_children_skip<R: Renderer>(
    c: R,
    rid: RendererId,
    children: Seq<SyntaxNode>,
    source: Seq<u8>,
) -> nat
    decreases children.len(),
{
    if children.len() == 0 {
        0
    } else {
        leaf_child_skip(c, rid, children[0], source) + leaf_children_skip(
            c,
            rid,
            children.skip(1),
            source,
        )
    }
}

/// The diagnostics the children of a leaf statement produce, in order.
pub open spec fn leaf_children_diags<R: Renderer>(
    c: R,
    rid: RendererId,
    children: Seq<SyntaxNode>,
    source: Seq<u8>,
) -> Seq<Diagnostic>
    decreases children.len(),
{
    if children.len() == 0 {
        Seq::empty()
    } else {
        leaf_child_diags(c, rid, children[0], source) + leaf_children_diags(
            c,
            rid,
            children.skip(1),
            source,
        )
    }
}

/// The full rendering of a leaf statement: its children's contributions
/// followed by exactly one line break.
pub open spec fn leaf_statement_out<R: Renderer>(
    c: R,
    rid: RendererId,
    node: SyntaxNode,
    source: Seq<u8>,
) -> Seq<u8> {
    leaf_children_out(c, rid, node.children@, source) + seq![NEWLINE]
}

/// Walks the children of a leaf statement in order and performs the
/// vocabulary's action for each one; the shared body of the two leaf
/// renderers.
#[verifier::loop_isolation(false)]
fn write_leaf_children<R: Renderer>(
    rid: RendererId,
    node: &SyntaxNode,
    writer: &mut Writer,
    ext: &R,
) -> (res: Result<(), EncodingError>)
    requires
        node.wf(old(writer).source@.len()),
    ensures
        final(writer).source@ == old(writer).source@,
        old(writer).output@.is_prefix_of(final(writer).output@),
        res is Ok <==> leaf_children_ok(*ext, rid, node.children@, old(writer).source@),
        res is Ok ==> final(writer).output@ == old(writer).output@ + leaf_children_out(
            *ext,
            rid,
            node.children@,
            old(writer).source@,
        ),
        res is Ok ==> final(writer).skip == old(writer).skip + leaf_children_skip(
            *ext,
            rid,
            node.children@,
            old(writer).source@,
        ),
        res is Ok ==> final(writer).diagnostics@ == old(writer).diagnostics@ + leaf_children_diags(
            *ext,
            rid,
            node.children@,
            old(writer).source@,
        ),
{
    let ghost src = old(writer).source@;
    let ghost all = node.children@;
    let n = node.children.len();
    let mut i: usize = 0;
    proof {
        assert(all.skip(0) =~= all);
    }
    while i < n
        invariant
            n == all.len(),
            all == node.children@,
            i <= n,
            node.wf(src.len()),
            writer.source@ == src,
            old(writer).output@.is_prefix_of(writer.output@),
            leaf_children_ok(*ext, rid, all, src) == leaf_children_ok(
                *ext,
                rid,
                all.skip(i as int),
                src,
            ),
            old(writer).output@ + leaf_children_out(*ext, rid, all, src) == writer.output@
                + leaf_children_out(*ext, rid, all.skip(i as int), src),
            old(writer).skip + leaf_children_skip(*ext, rid, all, src) == writer.skip
                + leaf_children_skip(*ext, rid, all.skip(i as int), src),
            old(writer).diagnostics@ + leaf_children_diags(*ext, rid, all, src) == writer.diagnostics@
                + leaf_children_diags(*ext, rid, all.skip(i as int), src),
        decreases n - i,
    {
        let ghost rest = all.skip(i as int);
        let ghost pre_output = writer.output@;
        let ghost pre_diags = writer.diagnostics@;
        proof {
            assert(rest[0] == all[i as int]);
            assert(rest.skip(1) =~= all.skip(i as int + 1));
            assert(node.children@[i as int].wf(src.len()));
        }
        let child = &node.children[i];
        let action = classify_leaf_child(rid, child.kind);
        match action {
            LeafAction::Verbatim => {
                let r = writer.emit_range(child.start, child.end);
                if r.is_err() {
                    proof {
                        assert(!leaf_child_ok(*ext, rid, rest[0], src));
                        assert(!leaf_children_ok(*ext, rid, rest, src));
                    }
                    return Err(EncodingError::InvalidByteSequence);
                }
            },
            LeafAction::Delegate => {
                let r = ext.render(child, writer);
                if let Err(e) = r {
                    proof {
                        assert(!leaf_child_ok(*ext, rid, rest[0], src));
                        assert(!leaf_children_ok(*ext, rid, rest, src));
                    }
                    return Err(e);
                }
            },
            LeafAction::Surprise => {
                let d = Diagnostic { kind_name: child.kind_name.clone(), renderer: rid };
                writer.diagnostics.push(d);
            },
        }
        proof {
            let emitted = leaf_child_out(*ext, rid, all[i as int], src);
            let reported = leaf_child_diags(*ext, rid, all[i as int], src);
            assert(writer.output@ == pre_output + emitted);
            assert(writer.diagnostics@ == pre_diags + reported);
            assert((pre_output + emitted) + leaf_children_out(*ext, rid, rest.skip(1), src)
                =~= pre_output + (emitted + leaf_children_out(*ext, rid, rest.skip(1), src)));
            assert((pre_diags + reported) + leaf_children_diags(*ext, rid, rest.skip(1), src)
                =~= pre_diags + (reported + leaf_children_diags(*ext, rid, rest.skip(1), src)));
            assert(old(writer).output@.is_prefix_of(writer.output@)) by {
                lemma_concat_is_prefix(pre_output, emitted);
                assert(pre_output =~= writer.output@.subrange(0, pre_output.len() as int));
                assert(old(writer).output@ =~= writer.output@.subrange(
                    0,
                    old(writer).output@.len() as int,
                ));
            }
        }
        i = i + 1;
    }
    proof {
        assert(all.skip(n as int).len() == 0);
        assert(writer.output@ + Seq::<u8>::empty() =~= writer.output@);
        assert(writer.diagnostics@ + Seq::<Diagnostic>::empty() =~= writer.diagnostics@);
    }
    Ok(())
}

/// Renders an assertion statement: keyword and terminator verbatim, the
/// argument list and comments through the collaborator, surprises reported
/// and omitted, and exactly one line break at the end.
pub fn write_assertion<R: Renderer>(node: &SyntaxNode, writer: &mut Writer, ext: &R) -> (res: Result<
    (),
    EncodingError,
>)
    requires
        node.wf(old(writer).source@.len()),
    ensures
        final(writer).source@ == old(writer).source@,
        old(writer).output@.is_prefix_of(final(writer).output@),
        res is Ok <==> leaf_children_ok(*ext, RendererId::Assertion, node.children@, old(writer).source@),
        res is Ok ==> final(writer).output@ == old(writer).output@ + leaf_statement_out(
            *ext,
            RendererId::Assertion,
            *node,
            old(writer).source@,
        ),
        res is Ok ==> final(writer).skip == old(writer).skip + leaf_children_skip(
            *ext,
            RendererId::Assertion,
            node.children@,
            old(writer).source@,
        ),
        res is Ok ==> final(writer).diagnostics@ == old(writer).diagnostics@ + leaf_children_diags(
            *ext,
            RendererId::Assertion,
            node.children@,
            old(writer).source@,
        ),
{
    write_leaf_statement(RendererId::Assertion, node, writer, ext)
}

/// Renders a hardcoded compiler-intrinsic symbol declaration: the fixed
/// keyword phrase and terminator verbatim, comments through the
/// collaborator, surprises reported and omitted, one line break at the end.
pub fn write_hardcoded_symbol<R: Renderer>(
    node: &SyntaxNode,
    writer: &mut Writer,
    ext: &R,
) -> (res: Result<(), EncodingError>)
    requires
        node.wf(old(writer).source@.len()),
    ensures
        final(writer).source@ == old(writer).source@,
        old(writer).output@.is_prefix_of(final(writer).output@),
        res is Ok <==> leaf_children_ok(
            *ext,
            RendererId::HardcodedSymbol,
            node.children@,
            old(writer).source@,
        ),
        res is Ok ==> final(writer).output@ == old(writer).output@ + leaf_statement_out(
            *ext,
            RendererId::HardcodedSymbol,
            *node,
            old(writer).source@,
        ),
        res is Ok ==> final(writer).skip == old(writer).skip + leaf_children_skip(
            *ext,
            RendererId::HardcodedSymbol,
            node.children@,
            old(writer).source@,
        ),
        res is Ok ==> final(writer).diagnostics@ == old(writer).diagnostics@ + leaf_children_diags(
            *ext,
            RendererId::HardcodedSymbol,
            node.children@,
            old(writer).source@,
        ),
{
    write_leaf_statement(RendererId::HardcodedSymbol, node, writer, ext)
}

/// The shared shape of the two leaf renderers: walk the children, then
/// append the single trailing line break.
fn write_leaf_statement<R: Renderer>(
    rid: RendererId,
    node: &SyntaxNode,
    writer: &mut Writer,
    ext: &R,
) -> (res: Result<(), EncodingError>)
    requires
        node.wf(old(writer).source@.len()),
    ensures
        final(writer).source@ == old(writer).source@,
        old(writer).output@.is_prefix_of(final(writer).output@),
        res is Ok <==> leaf_children_ok(*ext, rid, node.children@, old(writer).source@),
        res is Ok ==> final(writer).output@ == old(writer).output@ + leaf_statement_out(
            *ext,
            rid,
            *node,
            old(writer).source@,
        ),
        res is Ok ==> final(writer).skip == old(writer).skip + leaf_children_skip(
            *ext,
            rid,
            node.children@,
            old(writer).source@,
        ),
        res is Ok ==> final(writer).diagnostics@ == old(writer).diagnostics@ + leaf_children_diags(
            *ext,
            rid,
            node.children@,
            old(writer).source@,
        ),
{
    let r = write_leaf_children(rid, node, writer, ext);
    if let Err(e) = r {
        return Err(e);
    }
    let ghost mid_output = writer.output@;
    writer.breakl();
    proof {
        let body = leaf_children_out(*ext, rid, node.children@, old(writer).source@);
        assert((old(writer).output@ + body) + seq![NEWLINE] =~= old(writer).output@ + (body
            + seq![NEWLINE]));
        lemma_concat_is_prefix(old(writer).output@, body + seq![NEWLINE]);
    }
    Ok(())
}

/// Whether a top-level child renders without an encoding error.
pub open spec fn top_child_ok<R: Renderer>(c: R, child: SyntaxNode, source: Seq<u8>) -> bool {
    if child.kind == NodeKind::Assertion {
        leaf_children_ok(c, RendererId::Assertion, child.children@, source)
    } else if child.kind == NodeKind::HardcodedSymbol {
        leaf_children_ok(c, RendererId::HardcodedSymbol, child.children@, source)
    } else if is_construct(child.kind) {
        c.r_ok(child, source)
    } else {
        valid_utf8(node_text(source, child))
    }
}

/// The bytes a top-level child contributes to the output.
pub open spec fn top_child_out<R: Renderer>(c: R, child: SyntaxNode, source: Seq<u8>) -> Seq<u8> {
    if child.kind == NodeKind::Assertion {
        leaf_statement_out(c, RendererId::Assertion, child, source)
    } else if child.kind == NodeKind::HardcodedSymbol {
        leaf_statement_out(c, RendererId::HardcodedSymbol, child, source)
    } else if is_construct(child.kind) {
        c.r_out(child, source)
    } else {
        node_text(source, child)
    }
}

/// The skip budget left pending after a top-level child is rendered.
pub open spec fn top_child_skip<R: Renderer>(c: R, child: SyntaxNode, source: Seq<u8>) -> nat {
    if child.kind == NodeKind::Assertion {
        leaf_children_skip(c, RendererId::Assertion, child.children@, source)
    } else if child.kind == NodeKind::HardcodedSymbol {
        leaf_children_skip(c, RendererId::HardcodedSymbol, child.children@, source)
    } else if is_construct(child.kind) {
        c.r_skip(child, source)
    } else {
        0
    }
}

/// The diagnostics a top-level child produces.
pub open spec fn top_child_diags<R: Renderer>(c: R, child: SyntaxNode, source: Seq<u8>) -> Seq<
    Diagnostic,
> {
    if child.kind == NodeKind::Assertion {
        leaf_children_diags(c, RendererId::Assertion, child.children@, source)
    } else if child.kind == NodeKind::HardcodedSymbol {
        leaf_children_diags(c, RendererId::HardcodedSymbol, child.children@, source)
    } else if is_construct(child.kind) {
        c.r_diags(child, source)
    } else {
        Seq::empty()
    }
}

/// Whether the whole dispatch over a sibling sequence succeeds, starting
/// with the given skip budget.
pub open spec fn dispatch_ok<R: Renderer>(
    c: R,
    children: Seq<SyntaxNode>,
    source: Seq<u8>,
    skip_budget: nat,
) -> bool
    decreases children.len(),
{
    if children.len() == 0 {
        true
    } else if skip_budget > 0 {
        dispatch_ok(c, children.skip(1), source, (skip_budget - 1) as nat)
    } else {
        top_child_ok(c, children[0], source) && dispatch_ok(
            c,
            children.skip(1),
            source,
            top_child_skip(c, children[0], source),
        )
    }
}

/// The bytes the whole dispatch over a sibling sequence emits: nothing for
/// the siblings consumed by the skip budget, each remaining sibling's
/// contribution in document order.
pub open spec fn dispatch_out<R: Renderer>(
    c: R,
    children: Seq<SyntaxNode>,
    source: Seq<u8>,
    skip_budget: nat,
) -> Seq<u8>
    decreases children.len(),
{
    if children.len() == 0 {
        Seq::empty()
    } else if skip_budget > 0 {
        dispatch_out(c, children.skip(1), source, (skip_budget - 1) as nat)
    } else {
        top_child_out(c, children[0], source) + dispatch_out(
            c,
            children.skip(1),
            source,
            top_child_skip(c, children[0], source),
        )
    }
}

/// The diagnostics the whole dispatch over a sibling sequence produces.
pub open spec fn dispatch_diags<R: Renderer>(
    c: R,
    children: Seq<SyntaxNode>,
    source: Seq<u8>,
    skip_budget: nat,
) -> Seq<Diagnostic>
    decreases children.len(),
{
    if children.len() == 0 {
        Seq::empty()
    } else if skip_budget > 0 {
        dispatch_diags(c, children.skip(1), source, (skip_budget - 1) as nat)
    } else {
        top_child_diags(c, children[0], source) + dispatch_diags(
            c,
            children.skip(1),
            source,
            top_child_skip(c, children[0], source),
        )
    }
}

/// The skip budget left pending once the whole sibling sequence has been
/// dispatched.
pub open spec fn dispatch_end_skip<R: Renderer>(
    c: R,
    children: Seq<SyntaxNode>,
    source: Seq<u8>,
    skip_budget: nat,
) -> nat
    decreases children.len(),
{
    if children.len() == 0 {
        skip_budget
    } else if skip_budget > 0 {
        dispatch_end_skip(c, children.skip(1), source, (skip_budget - 1) as nat)
    } else {
        dispatch_end_skip(c, children.skip(1), source, top_child_skip(c, children[0], source))
    }
}

/// Routes one top-level child, with no skip pending, to exactly one of the
/// construct renderers, the two leaf renderers, or the verbatim fallback.
fn dispatch_child<R: Renderer>(child: &SyntaxNode, writer: &mut Writer, ext: &R) -> (res: Result<
    (),
    EncodingError,
>)
    requires
        child.wf(old(writer).source@.len()),
        old(writer).skip == 0,
    ensures
        final(writer).source@ == old(writer).source@,
        old(writer).output@.is_prefix_of(final(writer).output@),
        res is Ok <==> top_child_ok(*ext, *child, old(writer).source@),
        res is Ok ==> final(writer).output@ == old(writer).output@ + top_child_out(
            *ext,
            *child,
            old(writer).source@,
        ),
        res is Ok ==> final(writer).skip == top_child_skip(*ext, *child, old(writer).source@),
        res is Ok ==> final(writer).diagnostics@ == old(writer).diagnostics@ + top_child_diags(
            *ext,
            *child,
            old(writer).source@,
        ),
{
    match child.kind {
        NodeKind::Assertion => write_assertion(child, writer, ext),
        NodeKind::HardcodedSymbol => write_hardcoded_symbol(child, writer, ext),
        NodeKind::FunctionDeclaration
        | NodeKind::FunctionDefinition
        | NodeKind::Enum
        | NodeKind::EnumStruct
        | NodeKind::Typedef
        | NodeKind::Typeset
        | NodeKind::Functag
        | NodeKind::Funcenum
        | NodeKind::Methodmap
        | NodeKind::Struct
        | NodeKind::StructDeclaration
        | NodeKind::GlobalVariableDeclaration
        | NodeKind::OldGlobalVariableDeclaration
        | NodeKind::PreprocInclude
        | NodeKind::PreprocTryinclude
        | NodeKind::PreprocMacro
        | NodeKind::PreprocDefine
        | NodeKind::PreprocUndefine
        | NodeKind::AliasDeclaration
        | NodeKind::AliasAssignment
        | NodeKind::Comment
        | NodeKind::PreprocIf
        | NodeKind::PreprocElse
        | NodeKind::PreprocEndif
        | NodeKind::PreprocEndinput
        | NodeKind::PreprocPragma => {
            proof {
                assert(is_construct(child.kind));
            }
            ext.render(child, writer)
        },
        _ => {
            proof {
                assert(!is_construct(child.kind));
            }
            let r = writer.emit_range(child.start, child.end);
            proof {
                if r is Ok {
                    lemma_concat_is_prefix(
                        old(writer).output@,
                        node_text(old(writer).source@, *child),
                    );
                }
            }
            r
        },
    }
}

/// The top-level dispatcher: visits the root's direct children in document
/// order; a child covered by the pending skip budget is passed over with
/// the budget decremented and nothing emitted; every other child is routed
/// by its kind to a construct renderer, a leaf renderer, or the verbatim
/// fallback. The first encoding failure aborts the whole file.
#[verifier::loop_isolation(false)]
pub fn write_source_file<R: Renderer>(
    root_node: &SyntaxNode,
    writer: &mut Writer,
    ext: &R,
) -> (res: Result<(), EncodingError>)
    requires
        root_node.wf(old(writer).source@.len()),
    ensures
        final(writer).source@ == old(writer).source@,
        old(writer).output@.is_prefix_of(final(writer).output@),
        res is Ok <==> dispatch_ok(
            *ext,
            root_node.children@,
            old(writer).source@,
            old(writer).skip as nat,
        ),
        res is Ok ==> final(writer).output@ == old(writer).output@ + dispatch_out(
            *ext,
            root_node.children@,
            old(writer).source@,
            old(writer).skip as nat,
        ),
        res is Ok ==> final(writer).diagnostics@ == old(writer).diagnostics@ + dispatch_diags(
            *ext,
            root_node.children@,
            old(writer).source@,
            old(writer).skip as nat,
        ),
        res is Ok ==> final(writer).skip == dispatch_end_skip(
            *ext,
            root_node.children@,
            old(writer).source@,
            old(writer).skip as nat,
        ),
{
    let ghost src = old(writer).source@;
    let ghost all = root_node.children@;
    let ghost skip0 = old(writer).skip as nat;
    let n = root_node.children.len();
    let mut i: usize = 0;
    proof {
        assert(all.skip(0) =~= all);
    }
    while i < n
        invariant
            n == all.len(),
            all == root_node.children@,
            i <= n,
            root_node.wf(src.len()),
            writer.source@ == src,
            old(writer).output@.is_prefix_of(writer.output@),
            dispatch_ok(*ext, all, src, skip0) == dispatch_ok(
                *ext,
                all.skip(i as int),
                src,
                writer.skip as nat,
            ),
            old(writer).output@ + dispatch_out(*ext, all, src, skip0) == writer.output@
                + dispatch_out(*ext, all.skip(i as int), src, writer.skip as nat),
            old(writer).diagnostics@ + dispatch_diags(*ext, all, src, skip0) == writer.diagnostics@
                + dispatch_diags(*ext, all.skip(i as int), src, writer.skip as nat),
            dispatch_end_skip(*ext, all, src, skip0) == dispatch_end_skip(
                *ext,
                all.skip(i as int),
                src,
                writer.skip as nat,
            ),
        decreases n - i,
    {
        let ghost rest = all.skip(i as int);
        let ghost pre_output = writer.output@;
        let ghost pre_diags = writer.diagnostics@;
        let ghost pre_skip = writer.skip as nat;
        proof {
            assert(rest[0] == all[i as int]);
            assert(rest.skip(1) =~= all.skip(i as int + 1));
            assert(root_node.children@[i as int].wf(src.len()));
        }
        if writer.skip > 0 {
            writer.skip = writer.skip - 1;
        } else {
            let child = &root_node.children[i];
            let r = dispatch_child(child, writer, ext);
            if let Err(e) = r {
                proof {
                    assert(!top_child_ok(*ext, rest[0], src));
                    assert(!dispatch_ok(*ext, rest, src, pre_skip));
                }
                return Err(e);
            }
            proof {
                let emitted = top_child_out(*ext, all[i as int], src);
                let reported = top_child_diags(*ext, all[i as int], src);
                assert((pre_output + emitted) + dispatch_out(
                    *ext,
                    rest.skip(1),
                    src,
                    writer.skip as nat,
                ) =~= pre_output + (emitted + dispatch_out(
                    *ext,
                    rest.skip(1),
                    src,
                    writer.skip as nat,
                )));
                assert((pre_diags + reported) + dispatch_diags(
                    *ext,
                    rest.skip(1),
                    src,
                    writer.skip as nat,
                ) =~= pre_diags + (reported + dispatch_diags(
                    *ext,
                    rest.skip(1),
                    src,
                    writer.skip as nat,
                )));
                assert(old(writer).output@ =~= writer.output@.subrange(
                    0,
                    old(writer).output@.len() as int,
                ));
            }
        }
        i = i + 1;
    }
    proof {
        assert(all.skip(n as int).len() == 0);
        assert(writer.output@ + Seq::<u8>::empty() =~= writer.output@);
        assert(writer.diagnostics@ + Seq::<Diagnostic>::empty() =~= writer.diagnostics@);
    }
    Ok(())
}

} // verus!

