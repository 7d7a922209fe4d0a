//! The index of tags: for each alias the places where it was found, in the
//! order in which they were found. No alias has two entries.

use crate::tag::{view_tags, AliasedTag, AliasedTagView, Tag, TagView};
use vstd::prelude::*;

verus! {

/// The places recorded under one alias.
#[derive(Debug, PartialEq)]
pub struct IndexEntry {
    pub alias: String,
    pub tags: Vec<Tag>,
}

/// The mathematical value of an [`IndexEntry`].
pub ghost struct EntryView {
    pub alias: Seq<char>,
    pub tags: Seq<TagView>,
}

/// The values of a list of places.
pub open spec fn view_places(tags: Seq<Tag>) -> Seq<TagView> {
    tags.map_values(|tag: Tag| tag@)
}

impl View for IndexEntry {
    type V = EntryView;

    open spec fn view(&self) -> EntryView {
        EntryView { alias: self.alias@, tags: view_places(self.tags@) }
    }
}

/// The values of a list of entries.
pub open spec fn view_entries(entries: Seq<IndexEntry>) -> Seq<EntryView> {
    entries.map_values(|entry: IndexEntry| entry@)
}

/// Whether no two entries have the same alias.
pub open spec fn distinct_aliases(entries: Seq<EntryView>) -> bool {
    forall|i: int, j: int|
        0 <= i < j < entries.len() ==> (#[trigger] entries[i]).alias != (#[trigger] entries[j]).alias
}

/// The position of the first entry for `alias`, or the number of entries
/// where there is none.
pub open spec fn alias_index(entries: Seq<EntryView>, alias: Seq<char>) -> int
    decreases entries.len(),
{
    if entries.len() == 0 {
        0
    } else if entries.first().alias == alias {
        0
    } else {
        1 + alias_index(entries.drop_first(), alias)
    }
}

/// The entries after one place has been recorded under `alias`: it joins the
/// entry of that alias, or opens a new entry at the end.
pub open spec fn recorded(entries: Seq<EntryView>, alias: Seq<char>, tag: TagView) -> Seq<
    EntryView,
> {
    let i = alias_index(entries, alias);
    if i < entries.len() {
        entries.update(i, EntryView { alias, tags: entries[i].tags.push(tag) })
    } else {
        entries.push(EntryView { alias, tags: seq![tag] })
    }
}

/// The entries after the places under `alias` have been set to `tags`.
pub open spec fn replaced(entries: Seq<EntryView>, alias: Seq<char>, tags: Seq<TagView>) -> Seq<
    EntryView,
> {
    let i = alias_index(entries, alias);
    if i < entries.len() {
        entries.update(i, EntryView { alias, tags })
    } else {
        entries.push(EntryView { alias, tags })
    }
}

/// The index that a list of tags gives when they are recorded one by one.
pub open spec fn grouped(tags: Seq<AliasedTagView>) -> Seq<EntryView>
    decreases tags.len(),
{
    if tags.len() == 0 {
        Seq::empty()
    } else {
        recorded(grouped(tags.drop_last()), tags.last().alias, tags.last().tag)
    }
}

/// The first entry for an alias is where `alias_index` says, and no earlier
/// entry has that alias.
pub proof fn lemma_alias_index(entries: Seq<EntryView>, alias: Seq<char>)
    ensures
        0 <= alias_index(entries, alias) <= entries.len(),
        alias_index(entries, alias) < entries.len() ==> entries[alias_index(entries, alias)].alias
            == alias,
        forall|i: int| 0 <= i < alias_index(entries, alias) ==> (#[trigger] entries[i]).alias != alias,
    decreases entries.len(),
{
    if entries.len() > 0 && entries.first().alias != alias {
        let rest = entries.drop_first();
        lemma_alias_index(rest, alias);
        assert forall|i: int| 0 <= i < alias_index(entries, alias) implies (#[trigger] entries[i]).alias
            != alias by {
            if i > 0 {
                assert(rest[i - 1] == entries[i]);
            }
        }
    }
}

/// Recording a place keeps the aliases distinct.
pub proof fn lemma_recorded_distinct(entries: Seq<EntryView>, alias: Seq<char>, tag: TagView)
    requires
        distinct_aliases(entries),
    ensures
        distinct_aliases(recorded(entries, alias, tag)),
{
    lemma_alias_index(entries, alias);
}

/// Setting the places of an alias keeps the aliases distinct.
pub proof fn lemma_replaced_distinct(entries: Seq<EntryView>, alias: Seq<char>, tags: Seq<TagView>)
    requires
        distinct_aliases(entries),
    ensures
        distinct_aliases(replaced(entries, alias, tags)),
{
    lemma_alias_index(entries, alias);
}

/// Tags recorded one by one give an index without a repeated alias, and an
/// empty index only where there was no tag.
pub proof fn lemma_grouped(tags: Seq<AliasedTagView>)
    ensures
        distinct_aliases(grouped(tags)),
        grouped(tags).len() == 0 <==> tags.len() == 0,
    decreases tags.len(),
{
    if tags.len() > 0 {
        lemma_grouped(tags.drop_last());
        lemma_recorded_distinct(grouped(tags.drop_last()), tags.last().alias, tags.last().tag);
        lemma_alias_index(grouped(tags.drop_last()), tags.last().alias);
    }
}

/// The index of tags.
#[derive(Debug, PartialEq)]
pub struct TagIndex {
    entries: Vec<IndexEntry>,
}

impl View for TagIndex {
    type V = Seq<EntryView>;

    closed spec fn view(&self) -> Seq<EntryView> {
        view_entries(self.entries@)
    }
}

impl TagIndex {
    /// An index without entries.
    pub fn new() -> (index: TagIndex)
        ensures
            index@ == Seq::<EntryView>::empty(),
    {
        let index = TagIndex { entries: Vec::new() };
        assert(index@ =~= Seq::<EntryView>::empty());
        index
    }

    /// The number of aliases.
    pub fn len(&self) -> (n: usize)
        ensures
            n == self@.len(),
    {
        self.entries.len()
    }

    /// Whether the index has no alias.
    pub fn is_empty(&self) -> (b: bool)
        ensures
            b == (self@.len() == 0),
    {
        self.entries.len() == 0
    }

    /// The entries, in the order in which their aliases were first recorded.
    pub fn entries(&self) -> (entries: &Vec<IndexEntry>)
        ensures
            view_entries(entries@) == self@,
    {
        &self.entries
    }

    /// The position of the entry for `alias`, if there is one.
    pub fn position(&self, alias: &String) -> (found: Option<usize>)
        ensures
            match found {
                Some(i) => i == alias_index(self@, alias@) && i < self@.len(),
                None => alias_index(self@, alias@) == self@.len(),
            },
    {
        let mut i: usize = 0;
        assert(self@.skip(0) == self@);
        while i < self.entries.len()
            invariant
                i <= self.entries.len(),
                alias_index(self@, alias@) == i + alias_index(self@.skip(i as int), alias@),
            decreases self.entries.len() - i,
        {
            assert(self@.skip(i as int).first() == self.entries@[i as int]@);
            if self.entries[i].alias == *alias {
                return Some(i);
            }
            assert(self@.skip(i as int).drop_first() == self@.skip(i + 1));
            i = i + 1;
        }
        None
    }

    /// Records one place under `alias`: it joins the entry of that alias, or
    /// opens a new entry at the end.
    pub fn record(&mut self, alias: String, tag: Tag)
        ensures
            final(self)@ == recorded(old(self)@, alias@, tag@),
            distinct_aliases(old(self)@) ==> distinct_aliases(final(self)@),
    {
        proof {
            if distinct_aliases(old(self)@) {
                lemma_recorded_distinct(old(self)@, alias@, tag@);
            }
        }
        match self.position(&alias) {
            Some(i) => {
                let ghost before = self.entries@;
                let ghost places = self.entries@[i as int].tags@;
                self.entries[i].tags.push(tag);
                proof {
                    lemma_alias_index(view_entries(before), alias@);
                    assert(self.entries@[i as int].alias == before[i as int].alias);
                    assert(view_places(self.entries@[i as int].tags@) =~= view_places(places).push(
                        tag@,
                    ));
                    assert(self.entries@ =~= before.update(i as int, self.entries@[i as int]));
                }
                assert(self@ =~= recorded(view_entries(before), alias@, tag@));
            },
            None => {
                let ghost before = self.entries@;
                let mut tags: Vec<Tag> = Vec::new();
                tags.push(tag);
                self.entries.push(IndexEntry { alias, tags });
                assert(view_places(tags@) =~= seq![tag@]);
                assert(self@ =~= recorded(view_entries(before), alias@, tag@));
            },
        }
    }

    /// Sets the places under `alias` to `tags`, in the entry of that alias or
    /// in a new entry at the end. Returns the places that were there before.
    pub fn insert(&mut self, alias: String, tags: Vec<Tag>) -> (previous: Option<Vec<Tag>>)
        ensures
            final(self)@ == replaced(old(self)@, alias@, view_places(tags@)),
            distinct_aliases(old(self)@) ==> distinct_aliases(final(self)@),
            match previous {
                Some(places) => alias_index(old(self)@, alias@) < old(self)@.len() && view_places(
                    places@,
                ) == old(self)@[alias_index(old(self)@, alias@)].tags,
                None => alias_index(old(self)@, alias@) == old(self)@.len(),
            },
    {
        proof {
            if distinct_aliases(old(self)@) {
                lemma_replaced_distinct(old(self)@, alias@, view_places(tags@));
            }
        }
        match self.position(&alias) {
            Some(i) => {
                let ghost before = self.entries@;
                let mut places = tags;
                std::mem::swap(&mut self.entries[i].tags, &mut places);
                proof {
                    lemma_alias_index(view_entries(before), alias@);
                    assert(self.entries@[i as int].alias == before[i as int].alias);
                    assert(self.entries@ =~= before.update(i as int, self.entries@[i as int]));
                    assert(self@ =~= replaced(view_entries(before), alias@, view_places(tags@)));
                }
                Some(places)
            },
            None => {
                let ghost before = self.entries@;
                self.entries.push(IndexEntry { alias, tags });
                assert(self@ =~= replaced(view_entries(before), alias@, view_places(tags@)));
                None
            },
        }
    }

    /// The index of a list of tags, recorded one by one.
    pub fn from_tags(tags: Vec<AliasedTag>) -> (index: TagIndex)
        ensures
            index@ == grouped(view_tags(tags@)),
            distinct_aliases(index@),
    {
        let ghost all = view_tags(tags@);
        let ghost raw = tags@;
        let mut index = TagIndex::new();
        assert(all.take(0) =~= Seq::<AliasedTagView>::empty());
        for tag in it: tags
            invariant
                it.seq() == raw,
                all == view_tags(raw),
                index@ == grouped(all.take(it.index() as int)),
        {
            let ghost k = it.index() as int;
            assert(all.take(k + 1).drop_last() == all.take(k));
            assert(all.take(k + 1).last() == tag@);
            let (alias, place) = tag.into_parts();
            index.record(alias, place);
        }
        assert(all.take(raw.len() as int) == all);
        proof {
            lemma_grouped(all);
        }
        index
    }
}

} // verus!
