//! The library-wide guarantees, stated and proved over the dispatch and
//! leaf-renderer models: verbatim fallback fidelity, skip-budget
//! correctness, the trailing line break of well-formed assertions, and the
//! isolation of structural surprises.

use vstd::prelude::*;

use crate::source_file::{
    dispatch_diags, dispatch_end_skip, dispatch_ok, dispatch_out, leaf_child_out,
    leaf_child_diags, leaf_children_diags, leaf_children_ok, leaf_children_out, leaf_children_skip,
    leaf_statement_out,
    leaf_vocab, top_child_ok, top_child_out, LeafAction, Renderer,
};
use crate::tree::{is_construct, node_text, NodeKind, SyntaxNode};
use crate::writer::{Diagnostic, RendererId, NEWLINE};

verus! {

/// Round-trip fidelity for unknown kinds: a top-level node whose kind is
/// outside the recognized set contributes exactly the original source bytes
/// it spans, and succeeds exactly when those bytes are valid text.
pub proof fn lemma_unknown_kind_roundtrip<R: Renderer>(c: R, node: SyntaxNode, source: Seq<u8>)
    requires
        node.kind != NodeKind::Assertion,
        node.kind != NodeKind::HardcodedSymbol,
        !is_construct(node.kind),
    ensures
        top_child_out(c, node, source) == node_text(source, node),
        top_child_ok(c, node, source) == vstd::utf8::valid_utf8(node_text(source, node)),
{
}

/// Skip correctness, first half: with a skip budget of `k`, the dispatcher
/// emits nothing and reports nothing for the first `k` siblings, and
/// resumes normal dispatch on sibling `k + 1` with the budget used up. The
/// budget is a natural number throughout and is only ever decremented when
/// it is positive, so it never goes negative.
pub proof fn lemma_skip_budget<R: Renderer>(
    c: R,
    children: Seq<SyntaxNode>,
    source: Seq<u8>,
    k: nat,
)
    requires
        k <= children.len(),
    ensures
        dispatch_out(c, children, source, k) == dispatch_out(
            c,
            children.skip(k as int),
            source,
            0,
        ),
        dispatch_diags(c, children, source, k) == dispatch_diags(
            c,
            children.skip(k as int),
            source,
            0,
        ),
        dispatch_ok(c, children, source, k) == dispatch_ok(c, children.skip(k as int), source, 0),
        dispatch_end_skip(c, children, source, k) == dispatch_end_skip(
            c,
            children.skip(k as int),
            source,
            0,
        ),
    decreases k,
{
    if k == 0 {
        assert(children.skip(0) =~= children);
    } else {
        assert(children.len() > 0);
        lemma_skip_budget(c, children.skip(1), source, (k - 1) as nat);
        assert(children.skip(1).skip(k - 1) =~= children.skip(k as int));
    }
}

/// Skip correctness, second half: a skip budget at least as large as the
/// sibling count silences the whole sequence and leaves the excess budget
/// pending.
pub proof fn lemma_skip_exhausts<R: Renderer>(
    c: R,
    children: Seq<SyntaxNode>,
    source: Seq<u8>,
    k: nat,
)
    requires
        k >= children.len(),
    ensures
        dispatch_out(c, children, source, k) == Seq::<u8>::empty(),
        dispatch_diags(c, children, source, k) == Seq::<Diagnostic>::empty(),
        dispatch_ok(c, children, source, k),
        dispatch_end_skip(c, children, source, k) == k - children.len(),
    decreases children.len(),
{
    if children.len() > 0 {
        lemma_skip_exhausts(c, children.skip(1), source, (k - 1) as nat);
    }
}

/// True when no byte of the sequence is a line break.
pub open spec fn no_line_break(s: Seq<u8>) -> bool {
    forall|i: int| 0 <= i < s.len() ==> s[i] != NEWLINE
}

/// True of the two keyword token kinds an assertion statement starts with.
pub open spec fn is_assert_keyword(k: NodeKind) -> bool {
    k == NodeKind::AssertToken || k == NodeKind::StaticAssertToken
}

/// How many children are keyword tokens.
pub open spec fn keyword_count(children: Seq<SyntaxNode>) -> int
    decreases children.len(),
{
    if children.len() == 0 {
        0
    } else {
        (if is_assert_keyword(children[0].kind) {
            1int
        } else {
            0int
        }) + keyword_count(children.skip(1))
    }
}

/// A well-formed assertion node: every child is in the assertion renderer's
/// vocabulary, exactly one child is the keyword token, and no child's
/// contribution contains a line break of its own.
pub open spec fn well_formed_assertion<R: Renderer>(c: R, node: SyntaxNode, source: Seq<u8>) -> bool {
    &&& node.kind == NodeKind::Assertion
    &&& forall|i: int|
        0 <= i < node.children@.len() ==> leaf_vocab(
            RendererId::Assertion,
            (#[trigger] node.children@[i]).kind,
        ) != LeafAction::Surprise
    &&& keyword_count(node.children@) == 1
    &&& forall|i: int|
        0 <= i < node.children@.len() ==> no_line_break(
            #[trigger] leaf_child_out(c, RendererId::Assertion, node.children@[i], source),
        )
}

proof fn lemma_children_out_line_free<R: Renderer>(
    c: R,
    rid: RendererId,
    children: Seq<SyntaxNode>,
    source: Seq<u8>,
)
    requires
        forall|i: int|
            0 <= i < children.len() ==> no_line_break(
                #[trigger] leaf_child_out(c, rid, children[i], source),
            ),
    ensures
        no_line_break(leaf_children_out(c, rid, children, source)),
    decreases children.len(),
{
    if children.len() > 0 {
        let tail = children.skip(1);
        assert forall|j: int| 0 <= j < tail.len() implies no_line_break(
            #[trigger] leaf_child_out(c, rid, tail[j], source),
        ) by {
            assert(tail[j] == children[j + 1]);
        }
        lemma_children_out_line_free(c, rid, tail, source);
        let head = leaf_child_out(c, rid, children[0], source);
        let rest = leaf_children_out(c, rid, tail, source);
        assert forall|i: int|
            0 <= i < (head + rest).len() implies (head + rest)[i] != NEWLINE by {
            if i < head.len() {
                assert((head + rest)[i] == head[i]);
            } else {
                assert((head + rest)[i] == rest[i - head.len()]);
            }
        }
    }
}

/// Assertion trailing newline: the rendering of a well-formed assertion
/// statement is nonempty, its last byte is the line break, and no earlier
/// byte is one — it ends with exactly one line break.
pub proof fn lemma_assertion_trailing_newline<R: Renderer>(c: R, node: SyntaxNode, source: Seq<u8>)
    requires
        well_formed_assertion(c, node, source),
    ensures
        leaf_statement_out(c, RendererId::Assertion, node, source).len() > 0,
        leaf_statement_out(c, RendererId::Assertion, node, source).last() == NEWLINE,
        forall|i: int|
            0 <= i < leaf_statement_out(c, RendererId::Assertion, node, source).len() - 1
                ==> leaf_statement_out(c, RendererId::Assertion, node, source)[i] != NEWLINE,
{
    lemma_children_out_line_free(c, RendererId::Assertion, node.children@, source);
    let body = leaf_children_out(c, RendererId::Assertion, node.children@, source);
    let full = body + seq![NEWLINE];
    assert(full.last() == NEWLINE);
    assert forall|i: int| 0 <= i < full.len() - 1 implies full[i] != NEWLINE by {
        assert(full[i] == body[i]);
    }
}

proof fn lemma_children_out_split<R: Renderer>(
    c: R,
    rid: RendererId,
    children: Seq<SyntaxNode>,
    k: int,
    source: Seq<u8>,
)
    requires
        0 <= k <= children.len(),
    ensures
        leaf_children_out(c, rid, children, source) == leaf_children_out(
            c,
            rid,
            children.take(k),
            source,
        ) + leaf_children_out(c, rid, children.skip(k), source),
    decreases k,
{
    let lhs = leaf_children_out(c, rid, children, source);
    if k == 0 {
        assert(children.take(0) =~= Seq::<SyntaxNode>::empty());
        assert(children.skip(0) =~= children);
        assert(Seq::<u8>::empty() + lhs =~= lhs);
    } else {
        let tail = children.skip(1);
        lemma_children_out_split(c, rid, tail, k - 1, source);
        assert(children.take(k)[0] == children[0]);
        assert(children.take(k).skip(1) =~= tail.take(k - 1));
        assert(tail.skip(k - 1) =~= children.skip(k));
        let head = leaf_child_out(c, rid, children[0], source);
        let a = leaf_children_out(c, rid, tail.take(k - 1), source);
        let b = leaf_children_out(c, rid, children.skip(k), source);
        assert(head + (a + b) =~= (head + a) + b);
    }
}

proof fn lemma_keyword_count_nonneg(children: Seq<SyntaxNode>)
    ensures
        keyword_count(children) >= 0,
    decreases children.len(),
{
    if children.len() > 0 {
        lemma_keyword_count_nonneg(children.skip(1));
    }
}

proof fn lemma_keyword_count_at_least_one(children: Seq<SyntaxNode>, j: int)
    requires
        0 <= j < children.len(),
        is_assert_keyword(children[j].kind),
    ensures
        keyword_count(children) >= 1,
    decreases j,
{
    lemma_keyword_count_nonneg(children.skip(1));
    if j > 0 {
        assert(children.skip(1)[j - 1] == children[j]);
        lemma_keyword_count_at_least_one(children.skip(1), j - 1);
    }
}

proof fn lemma_two_keywords(children: Seq<SyntaxNode>, j1: int, j2: int)
    requires
        0 <= j1 < j2 < children.len(),
        is_assert_keyword(children[j1].kind),
        is_assert_keyword(children[j2].kind),
    ensures
        keyword_count(children) >= 2,
    decreases j1,
{
    let tail = children.skip(1);
    if j1 == 0 {
        assert(tail[j2 - 1] == children[j2]);
        lemma_keyword_count_at_least_one(tail, j2 - 1);
    } else {
        assert(tail[j1 - 1] == children[j1]);
        assert(tail[j2 - 1] == children[j2]);
        lemma_two_keywords(tail, j1 - 1, j2 - 1);
    }
}

/// The keyword stands in a well-formed assertion exactly once: the child at
/// `k` is the only keyword token among the children, and the rendered
/// children split as the text before it, its exact source bytes, and the
/// text after it.
pub proof fn lemma_assertion_keyword_once<R: Renderer>(
    c: R,
    node: SyntaxNode,
    k: int,
    source: Seq<u8>,
)
    requires
        well_formed_assertion(c, node, source),
        0 <= k < node.children@.len(),
        is_assert_keyword(node.children@[k].kind),
    ensures
        forall|j: int|
            0 <= j < node.children@.len() && j != k ==> !is_assert_keyword(
                (#[trigger] node.children@[j]).kind,
            ),
        leaf_children_out(c, RendererId::Assertion, node.children@, source) == leaf_children_out(
            c,
            RendererId::Assertion,
            node.children@.take(k),
            source,
        ) + node_text(source, node.children@[k]) + leaf_children_out(
            c,
            RendererId::Assertion,
            node.children@.skip(k + 1),
            source,
        ),
{
    let children = node.children@;
    assert forall|j: int|
        0 <= j < children.len() && j != k implies !is_assert_keyword(
        (#[trigger] children[j]).kind,
    ) by {
        if is_assert_keyword(children[j].kind) {
            if j < k {
                lemma_two_keywords(children, j, k);
            } else {
                lemma_two_keywords(children, k, j);
            }
        }
    }
    lemma_children_out_split(c, RendererId::Assertion, children, k, source);
    let rest = children.skip(k);
    assert(rest[0] == children[k]);
    assert(rest.skip(1) =~= children.skip(k + 1));
    assert(leaf_child_out(c, RendererId::Assertion, children[k], source) == node_text(
        source,
        children[k],
    ));
    let pre = leaf_children_out(c, RendererId::Assertion, children.take(k), source);
    let kw = node_text(source, children[k]);
    let post = leaf_children_out(c, RendererId::Assertion, children.skip(k + 1), source);
    assert(pre + (kw + post) =~= (pre + kw) + post);
}

proof fn lemma_children_diags_split<R: Renderer>(
    c: R,
    rid: RendererId,
    children: Seq<SyntaxNode>,
    k: int,
    source: Seq<u8>,
)
    requires
        0 <= k <= children.len(),
    ensures
        leaf_children_diags(c, rid, children, source) == leaf_children_diags(
            c,
            rid,
            children.take(k),
            source,
        ) + leaf_children_diags(c, rid, children.skip(k), source),
    decreases k,
{
    let lhs = leaf_children_diags(c, rid, children, source);
    if k == 0 {
        assert(children.take(0) =~= Seq::<SyntaxNode>::empty());
        assert(children.skip(0) =~= children);
        assert(Seq::<Diagnostic>::empty() + lhs =~= lhs);
    } else {
        let tail = children.skip(1);
        lemma_children_diags_split(c, rid, tail, k - 1, source);
        assert(children.take(k)[0] == children[0]);
        assert(children.take(k).skip(1) =~= tail.take(k - 1));
        assert(tail.skip(k - 1) =~= children.skip(k));
        let head = leaf_child_diags(c, rid, children[0], source);
        let a = leaf_children_diags(c, rid, tail.take(k - 1), source);
        let b = leaf_children_diags(c, rid, children.skip(k), source);
        assert(head + (a + b) =~= (head + a) + b);
    }
}

/// Structural-surprise isolation, first half: inserting one surprise child
/// anywhere among a leaf statement's children changes neither the rendered
/// output, nor success, nor the skip budget; the diagnostics gain exactly
/// the one report of the surprise, in position.
pub proof fn lemma_surprise_isolated<R: Renderer>(
    c: R,
    rid: RendererId,
    children: Seq<SyntaxNode>,
    k: int,
    surprise: SyntaxNode,
    source: Seq<u8>,
)
    requires
        0 <= k <= children.len(),
        leaf_vocab(rid, surprise.kind) == LeafAction::Surprise,
    ensures
        leaf_children_out(c, rid, children.insert(k, surprise), source) == leaf_children_out(
            c,
            rid,
            children,
            source,
        ),
        leaf_children_ok(c, rid, children.insert(k, surprise), source) == leaf_children_ok(
            c,
            rid,
            children,
            source,
        ),
        leaf_children_skip(c, rid, children.insert(k, surprise), source) == leaf_children_skip(
            c,
            rid,
            children,
            source,
        ),
        leaf_children_diags(c, rid, children.insert(k, surprise), source) == leaf_children_diags(
            c,
            rid,
            children.take(k),
            source,
        ) + seq![Diagnostic { kind_name: surprise.kind_name, renderer: rid }]
            + leaf_children_diags(c, rid, children.skip(k), source),
    decreases k,
{
    let with = children.insert(k, surprise);
    if k == 0 {
        assert(with[0] == surprise);
        assert(with.skip(1) =~= children);
        let head_out = leaf_child_out(c, rid, surprise, source);
        assert(head_out == Seq::<u8>::empty());
        assert(head_out + leaf_children_out(c, rid, children, source) =~= leaf_children_out(
            c,
            rid,
            children,
            source,
        ));
        assert(children.take(0) =~= Seq::<SyntaxNode>::empty());
        assert(children.skip(0) =~= children);
        let d = seq![Diagnostic { kind_name: surprise.kind_name, renderer: rid }];
        assert(leaf_children_diags(c, rid, children.take(0), source) + d + leaf_children_diags(
            c,
            rid,
            children,
            source,
        ) =~= d + leaf_children_diags(c, rid, children, source));
    } else {
        assert(children.len() > 0);
        assert(with[0] == children[0]);
        assert(with.skip(1) =~= children.skip(1).insert(k - 1, surprise));
        lemma_surprise_isolated(c, rid, children.skip(1), k - 1, surprise, source);
        let tail = children.skip(1);
        assert(children.take(k)[0] == children[0]);
        assert(children.take(k).skip(1) =~= tail.take(k - 1));
        assert(tail.skip(k - 1) =~= children.skip(k));
        let head_d = leaf_child_diags(c, rid, children[0], source);
        let a = leaf_children_diags(c, rid, tail.take(k - 1), source);
        let d = seq![Diagnostic { kind_name: surprise.kind_name, renderer: rid }];
        let b = leaf_children_diags(c, rid, children.skip(k), source);
        assert(head_d + (a + d + b) =~= (head_d + a) + d + b);
    }
}

/// Structural-surprise isolation, second half: when the surrounding
/// children are surprise-free and quiet, the surprise's report is the only
/// diagnostic of the whole statement.
pub proof fn lemma_surprise_single_diagnostic<R: Renderer>(
    c: R,
    rid: RendererId,
    children: Seq<SyntaxNode>,
    k: int,
    surprise: SyntaxNode,
    source: Seq<u8>,
)
    requires
        0 <= k <= children.len(),
        leaf_vocab(rid, surprise.kind) == LeafAction::Surprise,
        leaf_children_diags(c, rid, children, source) == Seq::<Diagnostic>::empty(),
    ensures
        leaf_children_diags(c, rid, children.insert(k, surprise), source) == seq![
            Diagnostic { kind_name: surprise.kind_name, renderer: rid },
        ],
{
    lemma_surprise_isolated(c, rid, children, k, surprise, source);
    lemma_children_diags_split(c, rid, children, k, source);
    let a = leaf_children_diags(c, rid, children.take(k), source);
    let b = leaf_children_diags(c, rid, children.skip(k), source);
    assert(a.len() == 0 && b.len() == 0);
    assert(a =~= Seq::<Diagnostic>::empty());
    assert(b =~= Seq::<Diagnostic>::empty());
    let d = seq![Diagnostic { kind_name: surprise.kind_name, renderer: rid }];
    assert(a + d + b =~= d);
}

} // verus!
