//! How the events of a chapter are rewritten: each code span that marks an
//! alias becomes a link to the index page.

use crate::markdown::{NodeView, SpanView};
use crate::tag::{lemma_alias_is_trimmed, lemma_hash_marks_nothing, marker_alias};
use vstd::prelude::*;

verus! {

/// The text shown for an alias: `#` and the alias.
pub open spec fn hash_text(alias: Seq<char>) -> Seq<char> {
    seq!['#'] + alias
}

/// The target of the link for an alias: the way back to the root, the name of
/// the index page, `#` and the alias.
pub open spec fn link_dest(prefix: Seq<char>, filename: Seq<char>, alias: Seq<char>) -> Seq<char> {
    prefix + filename + hash_text(alias)
}

/// The title of the link for an alias: `Tag: ` and the alias.
pub open spec fn link_title(alias: Seq<char>) -> Seq<char> {
    seq!['T', 'a', 'g', ':', ' '] + alias
}

/// The three events that stand for a marker: a link around a code span.
pub open spec fn link_nodes(prefix: Seq<char>, filename: Seq<char>, alias: Seq<char>) -> Seq<
    NodeView,
> {
    let link = SpanView::Link {
        dest: link_dest(prefix, filename, alias),
        title: link_title(alias),
    };
    seq![NodeView::Start(link), NodeView::Code(hash_text(alias)), NodeView::End(link)]
}

/// The alias that an event marks, if it is a code span that marks one.
pub open spec fn node_alias(node: NodeView) -> Option<Seq<char>> {
    match node {
        NodeView::Code(text) => marker_alias(text),
        _ => None,
    }
}

/// What one event becomes: a marker becomes its link, any other event stays.
pub open spec fn link_node(node: NodeView, prefix: Seq<char>, filename: Seq<char>) -> Seq<
    NodeView,
> {
    match node_alias(node) {
        Some(alias) => link_nodes(prefix, filename, alias),
        None => seq![node],
    }
}

/// What a sequence of events becomes, event by event.
pub open spec fn link_tags(nodes: Seq<NodeView>, prefix: Seq<char>, filename: Seq<char>) -> Seq<
    NodeView,
>
    decreases nodes.len(),
{
    if nodes.len() == 0 {
        Seq::empty()
    } else {
        link_tags(nodes.drop_last(), prefix, filename) + link_node(nodes.last(), prefix, filename)
    }
}

/// The aliases that a sequence of events marks, in document order and as
/// written.
pub open spec fn found_aliases(nodes: Seq<NodeView>) -> Seq<Seq<char>>
    decreases nodes.len(),
{
    if nodes.len() == 0 {
        Seq::empty()
    } else {
        match node_alias(nodes.last()) {
            Some(alias) => found_aliases(nodes.drop_last()).push(alias),
            None => found_aliases(nodes.drop_last()),
        }
    }
}

/// Whether no event marks an alias.
pub open spec fn no_markers(nodes: Seq<NodeView>) -> bool {
    forall|i: int| 0 <= i < nodes.len() ==> node_alias(#[trigger] nodes[i]) is None
}

/// Events without a marker are left as they are, and yield no alias. A code
/// span that holds the bare prefix, or does not begin with the prefix, is
/// such an event.
pub proof fn lemma_link_tags_without_markers(
    nodes: Seq<NodeView>,
    prefix: Seq<char>,
    filename: Seq<char>,
)
    requires
        no_markers(nodes),
    ensures
        link_tags(nodes, prefix, filename) == nodes,
        found_aliases(nodes).len() == 0,
    decreases nodes.len(),
{
    if nodes.len() > 0 {
        let front = nodes.drop_last();
        assert forall|i: int| 0 <= i < front.len() implies node_alias(#[trigger] front[i])
            is None by {
            assert(front[i] == nodes[i]);
        }
        lemma_link_tags_without_markers(front, prefix, filename);
        assert(node_alias(nodes[nodes.len() - 1]) is None);
        assert(front + seq![nodes.last()] =~= nodes);
    } else {
        assert(link_tags(nodes, prefix, filename) =~= nodes);
    }
}

/// A single marker yields its alias once and becomes a link to the index
/// page around the code span `#alias`.
pub proof fn lemma_link_tags_of_marker(
    code: Seq<char>,
    prefix: Seq<char>,
    filename: Seq<char>,
)
    requires
        marker_alias(code) is Some,
    ensures
        found_aliases(seq![NodeView::Code(code)]) == seq![marker_alias(code)->0],
        link_tags(seq![NodeView::Code(code)], prefix, filename) == link_nodes(
            prefix,
            filename,
            marker_alias(code)->0,
        ),
{
    let one = seq![NodeView::Code(code)];
    let none = Seq::<NodeView>::empty();
    assert(one.drop_last() =~= none);
    assert(one.last() == NodeView::Code(code));
    assert(found_aliases(none) =~= Seq::<Seq<char>>::empty());
    assert(link_tags(none, prefix, filename) =~= none);
    assert(found_aliases(one) =~= seq![marker_alias(code)->0]);
    assert(link_tags(one, prefix, filename) =~= link_nodes(prefix, filename, marker_alias(code)->0));
}

/// What an event becomes holds no marker.
pub proof fn lemma_link_node_has_no_marker(node: NodeView, prefix: Seq<char>, filename: Seq<char>)
    ensures
        no_markers(link_node(node, prefix, filename)),
{
    match node_alias(node) {
        Some(alias) => {
            let code = node->Code_0;
            lemma_alias_is_trimmed(code);
            lemma_hash_marks_nothing(alias);
        },
        None => {},
    }
}

/// Rewritten events hold no marker.
pub proof fn lemma_link_tags_has_no_marker(
    nodes: Seq<NodeView>,
    prefix: Seq<char>,
    filename: Seq<char>,
)
    ensures
        no_markers(link_tags(nodes, prefix, filename)),
    decreases nodes.len(),
{
    if nodes.len() > 0 {
        lemma_link_tags_has_no_marker(nodes.drop_last(), prefix, filename);
        lemma_link_node_has_no_marker(nodes.last(), prefix, filename);
    }
}

/// Rewriting twice is rewriting once: the events that the first pass leaves
/// yield no alias, and a second pass, whatever its prefix and file name,
/// leaves them as they are.
pub proof fn lemma_link_tags_idempotent(
    nodes: Seq<NodeView>,
    prefix: Seq<char>,
    filename: Seq<char>,
    prefix2: Seq<char>,
    filename2: Seq<char>,
)
    ensures
        found_aliases(link_tags(nodes, prefix, filename)).len() == 0,
        link_tags(link_tags(nodes, prefix, filename), prefix2, filename2) == link_tags(
            nodes,
            prefix,
            filename,
        ),
{
    lemma_link_tags_has_no_marker(nodes, prefix, filename);
    lemma_link_tags_without_markers(link_tags(nodes, prefix, filename), prefix2, filename2);
}

} // verus!
