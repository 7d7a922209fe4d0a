//! The preprocessor: it runs the tagger over the chapters of a book and
//! builds the index page.

use crate::chapter::{Chapter, ChapterView, TagError};
use crate::config::{chosen_filename, filename_setting};
use crate::index::{grouped, lemma_grouped, TagIndex};
use crate::links::found_aliases;
use crate::markdown::{cmark_text, markdown_nodes};
use crate::page::{page_nodes, paths_have_text};
use crate::paths::path_text;
use crate::tag::{view_tags, AliasedTag, AliasedTagView};
use crate::tagger::{found_tags, linked_content, page_name, page_path, Tagger};
use toml::value::Table;
use vstd::prelude::*;

verus! {

/// The name under which the preprocessor is registered with the book builder.
pub const PREPROCESSOR_NAME: &'static str = "tag";

/// The values of a list of chapters.
pub open spec fn view_chapters(chapters: Seq<Chapter>) -> Seq<ChapterView> {
    chapters.map_values(|chapter: Chapter| chapter@)
}

/// The number of chapters at the start of the book whose new text can be
/// written: the position of the first that fails, or the length of the book.
pub open spec fn written_chapters(filename: Seq<char>, chapters: Seq<ChapterView>) -> int
    decreases chapters.len(),
{
    if chapters.len() == 0 {
        0
    } else if linked_content(filename, chapters.first()) is None {
        0
    } else {
        1 + written_chapters(filename, chapters.drop_first())
    }
}

/// A chapter with its markers turned into links.
pub open spec fn linked_chapter(filename: Seq<char>, chapter: ChapterView) -> ChapterView {
    ChapterView { content: linked_content(filename, chapter)->0, ..chapter }
}

/// The tags of a chapter, in document order.
pub open spec fn chapter_tags(chapter: ChapterView) -> Seq<AliasedTagView> {
    found_tags(markdown_nodes(chapter.content), chapter)
}

/// The tags of a book, chapter by chapter.
pub open spec fn book_tags(chapters: Seq<ChapterView>) -> Seq<AliasedTagView>
    decreases chapters.len(),
{
    if chapters.len() == 0 {
        Seq::empty()
    } else {
        book_tags(chapters.drop_last()) + chapter_tags(chapters.last())
    }
}

/// The preprocessor that turns tag markers into links and adds the index
/// page.
pub struct TagPreprocessor {}

impl TagPreprocessor {
    /// A preprocessor.
    pub fn new() -> (preprocessor: TagPreprocessor) {
        TagPreprocessor {  }
    }

    /// The name of the preprocessor: `tag`.
    pub fn name(&self) -> (name: &'static str)
        ensures
            name@ == PREPROCESSOR_NAME@,
    {
        PREPROCESSOR_NAME
    }

    /// Whether the preprocessor serves a renderer: it serves every one, since
    /// it only writes Markdown.
    pub fn supports_renderer(&self, renderer: &str) -> (supported: bool)
        ensures
            supported,
    {
        true
    }

    /// Runs the preprocessor over the chapters of a book, given in document
    /// order, with the file name that the configuration names. See
    /// [`TagPreprocessor::tag_book`].
    pub fn run(&self, config: Option<&Table>, chapters: &mut Vec<Chapter>) -> (r: Result<
        Option<Chapter>,
        TagError,
    >)
        ensures
            book_outcome(
                chosen_filename(filename_setting(config)),
                view_chapters(old(chapters)@),
                view_chapters(final(chapters)@),
                r,
            ),
    {
        let tagger = Tagger::new(config);
        self.tag_book(&tagger, chapters)
    }

    /// Rewrites the chapters one after the other and stops at the first whose
    /// new text cannot be written: that chapter and those behind it stay as
    /// they were, and the error is returned. Otherwise the tags of all
    /// chapters are grouped by alias; where there is none, no page is
    /// returned, else the index page, or the error of building it.
    pub fn tag_book(&self, tagger: &Tagger, chapters: &mut Vec<Chapter>) -> (r: Result<
        Option<Chapter>,
        TagError,
    >)
        ensures
            book_outcome(tagger@, view_chapters(old(chapters)@), view_chapters(final(chapters)@), r),
    {
        let ghost before = view_chapters(chapters@);
        let ghost name = tagger@;
        let mut tags: Vec<AliasedTag> = Vec::new();
        let mut i: usize = 0;
        proof {
            assert(before.skip(0) == before);
            assert(view_tags(tags@) =~= book_tags(before.take(0)));
        }
        while i < chapters.len()
            invariant
                i <= chapters.len(),
                name == tagger@,
                before == view_chapters(old(chapters)@),
                chapters.len() == before.len(),
                written_chapters(name, before) == i + written_chapters(name, before.skip(i as int)),
                forall|k: int|
                    0 <= k < i ==> (#[trigger] view_chapters(chapters@)[k]) == linked_chapter(
                        name,
                        before[k],
                    ),
                forall|k: int| i <= k < before.len() ==> (#[trigger] view_chapters(chapters@)[k]) == before[k],
                view_tags(tags@) == book_tags(before.take(i as int)),
            decreases chapters.len() - i,
        {
            let ghost so_far = view_chapters(chapters@);
            let ghost tags_so_far = view_tags(tags@);
            proof {
                assert(before.skip(i as int).first() == before[i as int]);
                assert(before.skip(i as int).drop_first() == before.skip(i + 1));
                assert(before.take(i + 1).drop_last() == before.take(i as int));
                assert(before.take(i + 1).last() == before[i as int]);
                assert(so_far[i as int] == before[i as int]);
            }
            let outcome = tagger.process_chapter(&mut chapters[i]);
            match outcome {
                Err(error) => {
                    proof {
                        assert(view_chapters(chapters@) =~= so_far);
                    }
                    return Err(error);
                },
                Ok(mut found) => {
                    let ghost new_tags = view_tags(found@);
                    tags.append(&mut found);
                    proof {
                        assert(view_tags(tags@) =~= tags_so_far + new_tags);
                        assert(view_chapters(chapters@) =~= so_far.update(
                            i as int,
                            linked_chapter(name, before[i as int]),
                        ));
                    }
                },
            }
            i = i + 1;
        }
        proof {
            assert(before.take(before.len() as int) == before);
            assert(before.skip(before.len() as int).len() == 0);
        }
        let index = TagIndex::from_tags(tags);
        proof {
            lemma_grouped(book_tags(before));
        }
        if index.is_empty() {
            Ok(None)
        } else {
            match tagger.build_tags_page(index) {
                Ok(page) => Ok(Some(page)),
                Err(error) => Err(error),
            }
        }
    }
}

/// What a run over a book leaves: `before` and `after` are the chapters
/// before and after it, `r` is what it returns.
pub open spec fn book_outcome(
    filename: Seq<char>,
    before: Seq<ChapterView>,
    after: Seq<ChapterView>,
    r: Result<Option<Chapter>, TagError>,
) -> bool {
    let written = written_chapters(filename, before);
    let index = grouped(book_tags(before));
    &&& after.len() == before.len()
    &&& forall|k: int| 0 <= k < written ==> #[trigger] after[k] == linked_chapter(filename, before[k])
    &&& forall|k: int| written <= k < before.len() ==> #[trigger] after[k] == before[k]
    &&& match r {
        Ok(None) => written == before.len() && book_tags(before).len() == 0,
        Ok(Some(page)) => {
            &&& written == before.len()
            &&& book_tags(before).len() > 0
            &&& paths_have_text(index)
            &&& cmark_text(page_nodes(index)) == Some(page.content@)
            &&& page.name@ == page_name()
            &&& path_text(page.path) == Some(page_path(filename))
            &&& page.parent_names@.len() == 0
        },
        Err(TagError::Serialization) => written < before.len() || (book_tags(before).len() > 0
            && paths_have_text(index) && cmark_text(page_nodes(index)) is None),
        Err(TagError::PathResolution) => written == before.len() && book_tags(before).len() > 0
            && !paths_have_text(index),
    }
}

/// A book in which no chapter holds a marker has no tags.
pub proof fn lemma_book_without_markers(chapters: Seq<ChapterView>)
    requires
        forall|i: int|
            0 <= i < chapters.len() ==> found_aliases(
                markdown_nodes((#[trigger] chapters[i]).content),
            ).len() == 0,
    ensures
        book_tags(chapters).len() == 0,
    decreases chapters.len(),
{
    if chapters.len() > 0 {
        let front = chapters.drop_last();
        assert forall|i: int| 0 <= i < front.len() implies found_aliases(
            markdown_nodes((#[trigger] front[i]).content),
        ).len() == 0 by {
            assert(front[i] == chapters[i]);
        }
        lemma_book_without_markers(front);
        assert(chapter_tags(chapters[chapters.len() - 1]).len() == 0);
    }
}

/// A run over a book in which no chapter holds a marker adds no index page:
/// where it succeeds, it returns none.
pub proof fn lemma_no_markers_no_page(
    filename: Seq<char>,
    before: Seq<ChapterView>,
    after: Seq<ChapterView>,
    r: Result<Option<Chapter>, TagError>,
)
    requires
        book_outcome(filename, before, after, r),
        forall|i: int|
            0 <= i < before.len() ==> found_aliases(
                markdown_nodes((#[trigger] before[i]).content),
            ).len() == 0,
    ensures
        r is Ok ==> r->Ok_0 is None,
        r is Err ==> r->Err_0 == TagError::Serialization && written_chapters(filename, before)
            < before.len(),
{
    lemma_book_without_markers(before);
}

/// The ancestors of a chapter have no part in its new text.
pub proof fn lemma_ancestors_leave_links(filename: Seq<char>, a: ChapterView, b: ChapterView)
    requires
        a.content == b.content,
        a.path == b.path,
    ensures
        linked_content(filename, a) == linked_content(filename, b),
{
}

} // verus!
