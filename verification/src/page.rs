//! The index page: a heading, then for each alias in ascending order a
//! heading and the places where the alias was found, sorted by their ancestors
//! and name.

use crate::chapter::TagError;
use crate::index::{distinct_aliases, view_entries, view_places, EntryView, IndexEntry, TagIndex};
use crate::markdown::{view_nodes, Node, NodeView, Span, SpanView};
use crate::order::{
    indices_view, key_view, keys_view, lemma_names_lt_total, lemma_sort_order, names_lt,
    sort_order, sorted_indices, text_lt,
};
use crate::paths::{path_text, path_to_text};
use crate::tag::{names_of, Tag, TagView};
use crate::text::chars_of;
use vstd::prelude::*;
use vstd::string::StringExecFns;

verus! {

/// The line of ancestors shown before a link: `/`, then each ancestor
/// followed by `/`.
pub open spec fn breadcrumb(parents: Seq<Seq<char>>) -> Seq<char>
    decreases parents.len(),
{
    if parents.len() == 0 {
        seq!['/']
    } else {
        breadcrumb(parents.drop_last()) + parents.last() + seq!['/']
    }
}

/// The key by which a place is sorted: its ancestors, then its own name.
pub open spec fn place_key(tag: TagView) -> Seq<Seq<char>> {
    tag.parent_names.push(tag.chapter_name)
}

/// The keys of a list of places.
pub open spec fn place_keys(tags: Seq<TagView>) -> Seq<Seq<Seq<char>>> {
    tags.map_values(|tag: TagView| place_key(tag))
}

/// The keys of a list of entries: each alias, as a list of one name.
pub open spec fn entry_keys(entries: Seq<EntryView>) -> Seq<Seq<Seq<char>>> {
    entries.map_values(|entry: EntryView| seq![entry.alias])
}

/// The events for one place: the line of ancestors, a link to the chapter
/// that shows and is titled by the chapter's name, and a blank line.
pub open spec fn place_nodes(tag: TagView) -> Seq<NodeView> {
    let link = SpanView::Link { dest: path_text(tag.path)->0, title: tag.chapter_name };
    seq![
        NodeView::Text(breadcrumb(tag.parent_names)),
        NodeView::Start(link),
        NodeView::Text(tag.chapter_name),
        NodeView::End(link),
        NodeView::Text(seq!['\n', '\n']),
    ]
}

/// The events for the places at the indices `order`, one after the other.
pub open spec fn listed_places(tags: Seq<TagView>, order: Seq<int>) -> Seq<NodeView>
    decreases order.len(),
{
    if order.len() == 0 {
        Seq::empty()
    } else {
        listed_places(tags, order.drop_last()) + place_nodes(tags[order.last()])
    }
}

/// The heading of an entry: the alias as a code span in a heading of level 2.
pub open spec fn entry_head(alias: Seq<char>) -> Seq<NodeView> {
    seq![
        NodeView::Start(SpanView::Header(2)),
        NodeView::Code(alias),
        NodeView::End(SpanView::Header(2)),
    ]
}

/// The events for one entry: its heading, then its places in sorted order.
pub open spec fn entry_nodes(entry: EntryView) -> Seq<NodeView> {
    entry_head(entry.alias) + listed_places(entry.tags, sort_order(place_keys(entry.tags)))
}

/// The events for the entries at the indices `order`, one after the other.
pub open spec fn listed_entries(entries: Seq<EntryView>, order: Seq<int>) -> Seq<NodeView>
    decreases order.len(),
{
    if order.len() == 0 {
        Seq::empty()
    } else {
        listed_entries(entries, order.drop_last()) + entry_nodes(entries[order.last()])
    }
}

/// The heading of the page: `Tags` in a heading of level 1.
pub open spec fn page_head() -> Seq<NodeView> {
    seq![
        NodeView::Start(SpanView::Header(1)),
        NodeView::Text(seq!['T', 'a', 'g', 's']),
        NodeView::End(SpanView::Header(1)),
    ]
}

/// The events of the index page: its heading, then the entries in the sorted
/// order of their aliases.
pub open spec fn page_nodes(entries: Seq<EntryView>) -> Seq<NodeView> {
    page_head() + listed_entries(entries, sort_order(entry_keys(entries)))
}

/// Whether the path of every place has a text form.
pub open spec fn places_have_text(tags: Seq<TagView>) -> bool {
    forall|i: int| 0 <= i < tags.len() ==> path_text((#[trigger] tags[i]).path) is Some
}

/// Whether the path of every place of every entry has a text form.
pub open spec fn paths_have_text(entries: Seq<EntryView>) -> bool {
    forall|i: int| 0 <= i < entries.len() ==> places_have_text((#[trigger] entries[i]).tags)
}

/// The page lists the aliases in strictly ascending order, where no alias has
/// two entries.
pub proof fn lemma_entries_ascend(entries: Seq<EntryView>)
    requires
        distinct_aliases(entries),
    ensures
        sort_order(entry_keys(entries)).len() == entries.len(),
        forall|i: int|
            0 <= i < entries.len() ==> 0 <= #[trigger] sort_order(entry_keys(entries))[i]
                < entries.len(),
        forall|x: int| 0 <= x < entries.len() ==> sort_order(entry_keys(entries)).contains(x),
        forall|i: int, j: int|
            0 <= i < j < entries.len() ==> text_lt(
                entries[#[trigger] sort_order(entry_keys(entries))[i]].alias,
                entries[#[trigger] sort_order(entry_keys(entries))[j]].alias,
            ),
{
    let keys = entry_keys(entries);
    let order = sort_order(keys);
    lemma_sort_order(keys);
    assert forall|i: int, j: int| 0 <= i < j < entries.len() implies text_lt(
        entries[#[trigger] order[i]].alias,
        entries[#[trigger] order[j]].alias,
    ) by {
        let x = order[i];
        let y = order[j];
        assert(x != y);
        if x < y {
            assert(entries[x].alias != entries[y].alias);
        } else {
            assert(entries[y].alias != entries[x].alias);
        }
        assert(keys[x] == seq![entries[x].alias]);
        assert(keys[y] == seq![entries[y].alias]);
        assert(keys[x].first() == entries[x].alias);
        assert(keys[y].first() == entries[y].alias);
        lemma_names_lt_total(keys[x], keys[y]);
        assert(!names_lt(keys[y], keys[x]));
    }
}

/// An entry lists its places by ancestors and name: no place is followed by
/// one with a smaller key, places with equal keys stay in the order in which
/// they were found, and every place is listed once.
pub proof fn lemma_places_ascend(tags: Seq<TagView>)
    ensures
        sort_order(place_keys(tags)).len() == tags.len(),
        sort_order(place_keys(tags)).no_duplicates(),
        forall|i: int|
            0 <= i < tags.len() ==> 0 <= #[trigger] sort_order(place_keys(tags))[i] < tags.len(),
        forall|x: int| 0 <= x < tags.len() ==> sort_order(place_keys(tags)).contains(x),
        forall|i: int, j: int|
            0 <= i < j < tags.len() ==> !names_lt(
                place_key(tags[#[trigger] sort_order(place_keys(tags))[j]]),
                place_key(tags[#[trigger] sort_order(place_keys(tags))[i]]),
            ),
        forall|i: int, j: int|
            0 <= i < j < tags.len() && place_key(tags[#[trigger] sort_order(place_keys(tags))[i]])
                == place_key(tags[#[trigger] sort_order(place_keys(tags))[j]]) ==> sort_order(
                place_keys(tags),
            )[i] < sort_order(place_keys(tags))[j],
{
    lemma_sort_order(place_keys(tags));
}

/// Whether no event is one of the parser's that is only carried along.
pub open spec fn all_built(nodes: Seq<NodeView>) -> bool {
    forall|i: int| 0 <= i < nodes.len() ==> !(nodes[i] is Raw)
}

/// The places of an entry are all built here.
pub proof fn lemma_places_built(tags: Seq<TagView>, order: Seq<int>)
    ensures
        all_built(listed_places(tags, order)),
    decreases order.len(),
{
    if order.len() > 0 {
        lemma_places_built(tags, order.drop_last());
    }
}

/// The entries of the page are all built here.
pub proof fn lemma_entries_built(entries: Seq<EntryView>, order: Seq<int>)
    ensures
        all_built(listed_entries(entries, order)),
    decreases order.len(),
{
    if order.len() > 0 {
        lemma_entries_built(entries, order.drop_last());
        let entry = entries[order.last()];
        lemma_places_built(entry.tags, sort_order(place_keys(entry.tags)));
    }
}

/// The events of the index page are all built here.
pub proof fn lemma_page_built(entries: Seq<EntryView>)
    ensures
        all_built(page_nodes(entries)),
{
    lemma_entries_built(entries, sort_order(entry_keys(entries)));
}

/// Computes [`breadcrumb`].
pub fn breadcrumb_of(parents: &Vec<String>) -> (line: String)
    ensures
        line@ == breadcrumb(names_of(parents@)),
{
    proof {
        reveal_strlit("/");
    }
    let mut line = String::from_str("/");
    let mut i: usize = 0;
    assert(names_of(parents@).take(0) =~= Seq::<Seq<char>>::empty());
    assert(line@ =~= seq!['/']);
    while i < parents.len()
        invariant
            i <= parents.len(),
            line@ == breadcrumb(names_of(parents@).take(i as int)),
            "/"@ == seq!['/'],
        decreases parents.len() - i,
    {
        assert(names_of(parents@).take(i + 1).drop_last() == names_of(parents@).take(i as int));
        assert(names_of(parents@).take(i + 1).last() == parents@[i as int]@);
        line.append(parents[i].as_str());
        line.append("/");
        i = i + 1;
    }
    assert(names_of(parents@).take(parents.len() as int) == names_of(parents@));
    line
}

/// The sort key of a place.
fn place_key_of(tag: &Tag) -> (key: Vec<Vec<char>>)
    ensures
        key_view(key) == place_key(tag@),
{
    let mut key: Vec<Vec<char>> = Vec::new();
    let mut i: usize = 0;
    while i < tag.parent_names.len()
        invariant
            i <= tag.parent_names.len(),
            key.len() == i,
            key_view(key) == names_of(tag.parent_names@).take(i as int),
        decreases tag.parent_names.len() - i,
    {
        let ghost before = key_view(key);
        key.push(chars_of(tag.parent_names[i].as_str()));
        assert(key_view(key) =~= before.push(tag.parent_names@[i as int]@));
        assert(key_view(key) =~= names_of(tag.parent_names@).take(i + 1));
        i = i + 1;
    }
    assert(names_of(tag.parent_names@).take(tag.parent_names.len() as int) == names_of(
        tag.parent_names@,
    ));
    let ghost before = key_view(key);
    key.push(chars_of(tag.chapter_name.as_str()));
    assert(key_view(key) =~= before.push(tag.chapter_name@));
    key
}

/// The sort keys of a list of places.
fn place_keys_of(tags: &Vec<Tag>) -> (keys: Vec<Vec<Vec<char>>>)
    ensures
        keys_view(keys@) == place_keys(view_places(tags@)),
{
    let mut keys: Vec<Vec<Vec<char>>> = Vec::new();
    let mut i: usize = 0;
    while i < tags.len()
        invariant
            i <= tags.len(),
            keys.len() == i,
            keys_view(keys@) == place_keys(view_places(tags@)).take(i as int),
        decreases tags.len() - i,
    {
        let ghost before = keys_view(keys@);
        keys.push(place_key_of(&tags[i]));
        assert(keys_view(keys@) =~= before.push(place_key(tags@[i as int]@)));
        assert(keys_view(keys@) =~= place_keys(view_places(tags@)).take(i + 1));
        i = i + 1;
    }
    assert(place_keys(view_places(tags@)).take(tags.len() as int) == place_keys(
        view_places(tags@),
    ));
    keys
}

/// The sort keys of a list of entries.
fn entry_keys_of(entries: &Vec<IndexEntry>) -> (keys: Vec<Vec<Vec<char>>>)
    ensures
        keys_view(keys@) == entry_keys(view_entries(entries@)),
{
    let mut keys: Vec<Vec<Vec<char>>> = Vec::new();
    let mut i: usize = 0;
    while i < entries.len()
        invariant
            i <= entries.len(),
            keys.len() == i,
            keys_view(keys@) == entry_keys(view_entries(entries@)).take(i as int),
        decreases entries.len() - i,
    {
        let ghost before = keys_view(keys@);
        let mut key: Vec<Vec<char>> = Vec::new();
        key.push(chars_of(entries[i].alias.as_str()));
        assert(key_view(key) =~= seq![entries@[i as int].alias@]);
        keys.push(key);
        assert(keys_view(keys@) =~= before.push(seq![entries@[i as int].alias@]));
        assert(keys_view(keys@) =~= entry_keys(view_entries(entries@)).take(i + 1));
        i = i + 1;
    }
    assert(entry_keys(view_entries(entries@)).take(entries.len() as int) == entry_keys(
        view_entries(entries@),
    ));
    keys
}

/// Appends the events of one place, or fails where its path has no text
/// form.
fn push_place(tag: &Tag, out: &mut Vec<Node<'static>>) -> (r: Result<(), TagError>)
    ensures
        match r {
            Ok(_) => path_text(tag.path) is Some && view_nodes(final(out)@) == view_nodes(old(out)@)
                + place_nodes(tag@),
            Err(error) => error == TagError::PathResolution && path_text(tag.path) is None,
        },
{
    let ghost before = view_nodes(out@);
    match path_to_text(&tag.path) {
        None => Err(TagError::PathResolution),
        Some(dest) => {
            proof {
                reveal_strlit("\n\n");
            }
            out.push(Node::Text(breadcrumb_of(&tag.parent_names)));
            out.push(
                Node::Start(Span::Link { dest: dest.clone(), title: tag.chapter_name.clone() }),
            );
            out.push(Node::Text(tag.chapter_name.clone()));
            out.push(Node::End(Span::Link { dest, title: tag.chapter_name.clone() }));
            out.push(Node::Text(String::from_str("\n\n")));
            assert("\n\n"@ =~= seq!['\n', '\n']);
            assert(view_nodes(out@) =~= before + place_nodes(tag@));
            Ok(())
        },
    }
}

/// Appends the events of one entry, or fails where the path of one of its
/// places has no text form.
fn push_entry(entry: &IndexEntry, out: &mut Vec<Node<'static>>) -> (r: Result<(), TagError>)
    ensures
        match r {
            Ok(_) => places_have_text(entry@.tags) && view_nodes(final(out)@) == view_nodes(
                old(out)@,
            ) + entry_nodes(entry@),
            Err(error) => error == TagError::PathResolution && !places_have_text(entry@.tags),
        },
{
    let ghost before = view_nodes(out@);
    let ghost tags = entry@.tags;
    out.push(Node::Start(Span::Header(2)));
    out.push(Node::Code(entry.alias.clone()));
    out.push(Node::End(Span::Header(2)));
    assert(view_nodes(out@) =~= before + entry_head(entry@.alias));
    let keys = place_keys_of(&entry.tags);
    let order = sorted_indices(&keys);
    let ghost sorted = sort_order(place_keys(tags));
    proof {
        lemma_sort_order(place_keys(tags));
    }
    let mut j: usize = 0;
    assert(sorted.take(0) =~= Seq::<int>::empty());
    assert(before + entry_head(entry@.alias) + listed_places(tags, sorted.take(0)) =~= before
        + entry_head(entry@.alias));
    while j < order.len()
        invariant
            j <= order.len(),
            tags == entry@.tags,
            tags == view_places(entry.tags@),
            sorted == sort_order(place_keys(tags)),
            sorted == indices_view(order@),
            sorted.len() == tags.len(),
            forall|i: int| 0 <= i < tags.len() ==> 0 <= #[trigger] sorted[i] < tags.len(),
            forall|i: int| 0 <= i < j ==> path_text(tags[#[trigger] sorted[i]].path) is Some,
            view_nodes(out@) == before + entry_head(entry@.alias) + listed_places(
                tags,
                sorted.take(j as int),
            ),
        decreases order.len() - j,
    {
        assert(sorted[j as int] == order@[j as int]);
        assert(sorted.take(j + 1).drop_last() == sorted.take(j as int));
        assert(sorted.take(j + 1).last() == order@[j as int]);
        let tag = &entry.tags[order[j]];
        assert(tag@ == tags[sorted[j as int]]);
        match push_place(tag, out) {
            Err(error) => {
                return Err(error);
            },
            Ok(_) => {},
        }
        assert(view_nodes(out@) =~= before + entry_head(entry@.alias) + listed_places(
            tags,
            sorted.take(j + 1),
        ));
        j = j + 1;
    }
    assert(sorted.take(order.len() as int) == sorted);
    proof {
        assert forall|x: int| 0 <= x < tags.len() implies path_text((#[trigger] tags[x]).path)
            is Some by {
            assert(sorted.contains(x));
            let k = choose|k: int| 0 <= k < sorted.len() && sorted[k] == x;
            assert(path_text(tags[sorted[k]].path) is Some);
        }
        assert(view_nodes(out@) =~= before + entry_nodes(entry@));
    }
    Ok(())
}

/// The events of the index page for an index, or `PathResolution` where the
/// path of one of its places has no text form.
pub fn index_nodes(index: &TagIndex) -> (r: Result<Vec<Node<'static>>, TagError>)
    ensures
        match r {
            Ok(nodes) => paths_have_text(index@) && view_nodes(nodes@) == page_nodes(index@),
            Err(error) => error == TagError::PathResolution && !paths_have_text(index@),
        },
{
    let entries = index.entries();
    let ghost all = index@;
    proof {
        reveal_strlit("Tags");
    }
    let mut out: Vec<Node<'static>> = Vec::new();
    out.push(Node::Start(Span::Header(1)));
    out.push(Node::Text(String::from_str("Tags")));
    out.push(Node::End(Span::Header(1)));
    assert("Tags"@ =~= seq!['T', 'a', 'g', 's']);
    assert(view_nodes(out@) =~= page_head());
    let keys = entry_keys_of(entries);
    let order = sorted_indices(&keys);
    let ghost sorted = sort_order(entry_keys(all));
    proof {
        lemma_sort_order(entry_keys(all));
    }
    let mut i: usize = 0;
    assert(sorted.take(0) =~= Seq::<int>::empty());
    assert(page_head() + listed_entries(all, sorted.take(0)) =~= page_head());
    while i < order.len()
        invariant
            i <= order.len(),
            all == view_entries(entries@),
            all == index@,
            sorted == sort_order(entry_keys(all)),
            sorted == indices_view(order@),
            sorted.len() == all.len(),
            forall|k: int| 0 <= k < all.len() ==> 0 <= #[trigger] sorted[k] < all.len(),
            forall|k: int| 0 <= k < i ==> places_have_text(all[#[trigger] sorted[k]].tags),
            view_nodes(out@) == page_head() + listed_entries(all, sorted.take(i as int)),
        decreases order.len() - i,
    {
        assert(sorted[i as int] == order@[i as int]);
        assert(sorted.take(i + 1).drop_last() == sorted.take(i as int));
        assert(sorted.take(i + 1).last() == order@[i as int]);
        let entry = &entries[order[i]];
        assert(entry@ == all[sorted[i as int]]);
        match push_entry(entry, &mut out) {
            Err(error) => {
                return Err(error);
            },
            Ok(_) => {},
        }
        assert(view_nodes(out@) =~= page_head() + listed_entries(all, sorted.take(i + 1)));
        i = i + 1;
    }
    assert(sorted.take(order.len() as int) == sorted);
    proof {
        assert forall|x: int| 0 <= x < all.len() implies places_have_text((#[trigger] all[x]).tags) by {
            assert(sorted.contains(x));
            let k = choose|k: int| 0 <= k < sorted.len() && sorted[k] == x;
            assert(places_have_text(all[sorted[k]].tags));
        }
    }
    Ok(out)
}

} // verus!
