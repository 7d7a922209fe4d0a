//! Tag markers and the record of where one was found.

use crate::text::{
    chars_of, is_trimmed, lemma_trim_commutes, lemma_trim_end_after, lemma_trim_is_trimmed,
    ascii_lower, is_ascii_text, lemma_trim_start_keeps_last, lowercase, string_of, trim,
    trim_bounds, trim_end,
};
use std::path::PathBuf;
use vstd::prelude::*;

verus! {

/// The text that opens a tag marker inside an inline code span.
pub const TAG_STRING_PREFIX: &'static str = "tag:";

/// The characters of [`TAG_STRING_PREFIX`].
pub open spec fn tag_prefix() -> Seq<char> {
    seq!['t', 'a', 'g', ':']
}

/// The alias that the text of a code span marks, if it marks one: the text is
/// trimmed, must begin with the prefix and go on after it; the alias is what
/// follows the prefix, trimmed again.
pub open spec fn marker_alias(code: Seq<char>) -> Option<Seq<char>> {
    let t = trim(code);
    if t.len() > tag_prefix().len() && t.subrange(0, tag_prefix().len() as int) == tag_prefix() {
        Some(trim(t.skip(tag_prefix().len() as int)))
    } else {
        None
    }
}

/// A code span `tag:X` marks the alias that trimming leaves of `X`, where that
/// is not empty.
pub proof fn lemma_marker_with_alias(x: Seq<char>)
    requires
        trim(x).len() > 0,
    ensures
        marker_alias(tag_prefix() + x) == Some(trim(x)),
{
    let code = tag_prefix() + x;
    assert(code.first() == 't');
    lemma_trim_commutes(x);
    lemma_trim_end_after(tag_prefix(), x);
    let t = tag_prefix() + trim_end(x);
    assert(trim(code) == t);
    assert(t.subrange(0, 4) =~= tag_prefix());
    assert(t.skip(4) =~= trim_end(x));
    lemma_trim_is_trimmed(x);
}

/// A code span that holds the prefix and nothing behind it marks no alias.
pub proof fn lemma_bare_prefix_marks_nothing(code: Seq<char>)
    requires
        trim(code) == tag_prefix(),
    ensures
        marker_alias(code) is None,
{
}

/// A code span that does not begin with the prefix marks no alias.
pub proof fn lemma_other_code_marks_nothing(code: Seq<char>)
    requires
        !tag_prefix().is_prefix_of(trim(code)),
    ensures
        marker_alias(code) is None,
{
    let t = trim(code);
    if t.len() > 4 && t.subrange(0, 4) == tag_prefix() {
        assert forall|i: int| 0 <= i < 4 implies tag_prefix()[i] == t[i] by {
            assert(t.subrange(0, 4)[i] == t[i]);
        }
    }
}

/// An alias that a code span marks is not empty and has no white space at
/// either end.
pub proof fn lemma_alias_is_trimmed(code: Seq<char>)
    requires
        marker_alias(code) is Some,
    ensures
        marker_alias(code)->0.len() > 0,
        is_trimmed(marker_alias(code)->0),
{
    let t = trim(code);
    let rest = t.skip(4);
    lemma_trim_is_trimmed(code);
    assert(rest.last() == t.last());
    lemma_trim_start_keeps_last(rest);
}

/// The code span `#alias` that stands in a link marks no alias itself.
pub proof fn lemma_hash_marks_nothing(alias: Seq<char>)
    requires
        alias.len() > 0,
        is_trimmed(alias),
    ensures
        marker_alias(seq!['#'] + alias) is None,
{
    let h = seq!['#'] + alias;
    assert(h.first() == '#');
    assert(h.last() == alias.last());
    assert(trim(h) == h);
    if h.len() > 4 && h.subrange(0, 4) == tag_prefix() {
        assert(h.subrange(0, 4)[0] == h[0]);
    }
}

/// The views of a list of strings.
pub open spec fn names_of(names: Seq<String>) -> Seq<Seq<char>> {
    names.map_values(|name: String| name@)
}

/// A copy of a list of names.
pub fn clone_names(names: &Vec<String>) -> (copy: Vec<String>)
    ensures
        names_of(copy@) == names_of(names@),
{
    let mut copy: Vec<String> = Vec::new();
    let mut i: usize = 0;
    while i < names.len()
        invariant
            i <= names.len(),
            copy.len() == i,
            names_of(copy@) == names_of(names@.take(i as int)),
        decreases names.len() - i,
    {
        let ghost before = copy@;
        copy.push(names[i].clone());
        assert forall|j: int| 0 <= j < i + 1 implies names_of(copy@)[j] == names_of(
            names@.take(i + 1),
        )[j] by {
            if j < i {
                assert(names_of(before)[j] == names_of(names@.take(i as int))[j]);
            }
        }
        assert(names_of(copy@) =~= names_of(names@.take(i + 1)));
        i = i + 1;
    }
    assert(names@.take(names.len() as int) == names@);
    copy
}

/// Where an alias was found: the chapter's name, its output path and the
/// names of its ancestors from the root down.
#[derive(Debug, PartialEq, Clone)]
pub struct Tag {
    pub chapter_name: String,
    pub path: PathBuf,
    pub parent_names: Vec<String>,
}

/// The mathematical value of a [`Tag`].
pub ghost struct TagView {
    pub chapter_name: Seq<char>,
    pub path: PathBuf,
    pub parent_names: Seq<Seq<char>>,
}

impl View for Tag {
    type V = TagView;

    open spec fn view(&self) -> TagView {
        TagView {
            chapter_name: self.chapter_name@,
            path: self.path,
            parent_names: names_of(self.parent_names@),
        }
    }
}

/// An alias together with one place where it was found.
#[derive(Debug, PartialEq)]
pub struct AliasedTag {
    alias: String,
    tag: Tag,
}

/// The mathematical value of an [`AliasedTag`].
pub ghost struct AliasedTagView {
    pub alias: Seq<char>,
    pub tag: TagView,
}

impl View for AliasedTag {
    type V = AliasedTagView;

    closed spec fn view(&self) -> AliasedTagView {
        AliasedTagView { alias: self.alias@, tag: self.tag@ }
    }
}

/// Whether each alias of ASCII characters has as its lowercase form the
/// alias with each of the letters `A` to `Z` replaced by its small letter.
pub open spec fn ascii_folded(aliases: Seq<Seq<char>>) -> bool {
    forall|i: int|
        0 <= i < aliases.len() && is_ascii_text(#[trigger] aliases[i]) ==> lowercase(aliases[i])
            == ascii_lower(aliases[i])
}

/// The values of a list of tags.
pub open spec fn view_tags(tags: Seq<AliasedTag>) -> Seq<AliasedTagView> {
    tags.map_values(|tag: AliasedTag| tag@)
}

impl AliasedTag {
    /// Pairs an alias with the chapter it was found in. The alias is stored
    /// in lowercase; for an alias of ASCII characters that is the alias with
    /// each of the letters `A` to `Z` replaced by its small letter.
    pub fn new(alias: &str, chapter_name: String, path: PathBuf, parent_names: Vec<String>) -> (r:
        AliasedTag)
        ensures
            r@ == (AliasedTagView {
                alias: lowercase(alias@),
                tag: TagView {
                    chapter_name: chapter_name@,
                    path: path,
                    parent_names: names_of(parent_names@),
                },
            }),
            is_ascii_text(alias@) ==> r@.alias == ascii_lower(alias@),
    {
        AliasedTag { alias: alias.to_lowercase(), tag: Tag { chapter_name, path, parent_names } }
    }

    /// The alias, in lowercase.
    pub fn alias(&self) -> (r: &String)
        ensures
            r@ == self@.alias,
    {
        &self.alias
    }

    /// The place where the alias was found.
    pub fn tag(&self) -> (r: &Tag)
        ensures
            r@ == self@.tag,
    {
        &self.tag
    }

    /// Splits the pair into the alias and the place.
    pub fn into_parts(self) -> (r: (String, Tag))
        ensures
            r.0@ == self@.alias,
            r.1@ == self@.tag,
    {
        (self.alias, self.tag)
    }
}

/// Finds the alias that the text of a code span marks, if it marks one.
pub fn find_alias(code: &str) -> (found: Option<String>)
    ensures
        match found {
            Some(alias) => marker_alias(code@) == Some(alias@),
            None => marker_alias(code@) is None,
        },
{
    let v = chars_of(code);
    let prefix = chars_of(TAG_STRING_PREFIX);
    proof {
        reveal_strlit("tag:");
        assert(prefix@ =~= tag_prefix());
        assert(v@.subrange(0, v.len() as int) == v@);
    }
    let (a, b) = trim_bounds(&v, 0, v.len());
    let ghost t = v@.subrange(a as int, b as int);
    if b - a <= prefix.len() {
        return None;
    }
    let mut i: usize = 0;
    while i < prefix.len()
        invariant
            i <= prefix.len(),
            prefix.len() < b - a,
            a <= b <= v.len(),
            t == v@.subrange(a as int, b as int),
            t == trim(code@),
            prefix@ == tag_prefix(),
            t.subrange(0, i as int) == prefix@.subrange(0, i as int),
        decreases prefix.len() - i,
    {
        if v[a + i] != prefix[i] {
            proof {
                assert(t[i as int] != prefix@[i as int]);
                assert(t.subrange(0, prefix.len() as int)[i as int] == t[i as int]);
            }
            return None;
        }
        assert(t.subrange(0, i + 1) =~= t.subrange(0, i as int).push(t[i as int]));
        assert(prefix@.subrange(0, i + 1) =~= prefix@.subrange(0, i as int).push(prefix@[i as int]));
        i = i + 1;
    }
    assert(prefix@.subrange(0, prefix.len() as int) == prefix@);
    assert(t.skip(prefix.len() as int) =~= v@.subrange(a + prefix.len(), b as int));
    let (c, d) = trim_bounds(&v, a + prefix.len(), b);
    Some(string_of(&v, c, d))
}

} // verus!
