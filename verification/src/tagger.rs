//! The tagger: it rewrites the markers of a chapter into links and reports
//! the aliases it found.

use crate::chapter::{Chapter, ChapterView, TagError};
use crate::config::{
    chosen_filename, filename_setting, table_text, DEFAULT_FILENAME, FILENAME_KEY,
};
use crate::index::TagIndex;
use crate::links::{
    found_aliases, hash_text, lemma_link_tags_of_marker, link_dest, link_node, link_nodes,
    link_tags, link_title,
};
use crate::markdown::{
    check_heads, cmark_text, heads_named, lemma_built_heads_named, markdown_nodes, parse_nodes,
    render_nodes, view_nodes, Node, NodeView, Span,
};
use crate::page::{index_nodes, lemma_page_built, page_nodes, paths_have_text};
use crate::paths::{chapter_prefix, path_from_text, path_text, root_of};
use crate::tag::{
    ascii_folded, clone_names, find_alias, lemma_marker_with_alias, tag_prefix, view_tags,
    AliasedTag, AliasedTagView, TagView,
};
use crate::text::{concat3, lowercase, trim};
use toml::value::Table;
use vstd::prelude::*;
use vstd::string::StringExecFns;

verus! {

/// The place that a chapter is.
pub open spec fn chapter_tag(chapter: ChapterView) -> TagView {
    TagView { chapter_name: chapter.name, path: chapter.path, parent_names: chapter.parent_names }
}

/// The tags that a sequence of events yields in a chapter: one for each
/// marker, in document order, the alias in lowercase.
pub open spec fn found_tags(nodes: Seq<NodeView>, chapter: ChapterView) -> Seq<AliasedTagView> {
    found_aliases(nodes).map_values(
        |alias: Seq<char>| AliasedTagView { alias: lowercase(alias), tag: chapter_tag(chapter) },
    )
}

/// The events of a chapter after its markers have become links.
pub open spec fn linked_nodes(filename: Seq<char>, chapter: ChapterView) -> Seq<NodeView> {
    link_tags(markdown_nodes(chapter.content), chapter_prefix(chapter.path), filename)
}

/// The new text of a chapter, or `None` where its events cannot be written.
pub open spec fn linked_content(filename: Seq<char>, chapter: ChapterView) -> Option<Seq<char>> {
    if heads_named(linked_nodes(filename, chapter)) {
        cmark_text(linked_nodes(filename, chapter))
    } else {
        None
    }
}

/// A code span `tag:X`, where trimming leaves something of `X`, yields one tag
/// whose alias is what trimming leaves of `X`, in lowercase, and becomes a
/// link to the index page around the code span `#` and what trimming leaves
/// of `X`.
pub proof fn lemma_tagged_span(
    x: Seq<char>,
    chapter: ChapterView,
    prefix: Seq<char>,
    filename: Seq<char>,
)
    requires
        trim(x).len() > 0,
    ensures
        found_tags(seq![NodeView::Code(tag_prefix() + x)], chapter) == seq![
            AliasedTagView { alias: lowercase(trim(x)), tag: chapter_tag(chapter) },
        ],
        link_tags(seq![NodeView::Code(tag_prefix() + x)], prefix, filename) == link_nodes(
            prefix,
            filename,
            trim(x),
        ),
{
    lemma_marker_with_alias(x);
    lemma_link_tags_of_marker(tag_prefix() + x, prefix, filename);
    assert(found_tags(seq![NodeView::Code(tag_prefix() + x)], chapter) =~= seq![
        AliasedTagView { alias: lowercase(trim(x)), tag: chapter_tag(chapter) },
    ]);
}

/// The name of the index page as a chapter.
pub open spec fn page_name() -> Seq<char> {
    seq!['T', 'a', 'g', 's']
}

/// The text of the output path of the index page: `./` and the file name.
pub open spec fn page_path(filename: Seq<char>) -> Seq<char> {
    seq!['.', '/'] + filename
}

/// Rewrites chapters for one file name of the index page.
pub struct Tagger {
    output_filename: String,
}

impl View for Tagger {
    type V = Seq<char>;

    /// The file name of the index page.
    closed spec fn view(&self) -> Seq<char> {
        self.output_filename@
    }
}

impl Tagger {
    /// A tagger for the file name that the configuration gives under
    /// `filename`, or for `tags.md` where it gives none that is a string.
    pub fn new(config: Option<&Table>) -> (tagger: Tagger)
        ensures
            tagger@ == chosen_filename(filename_setting(config)),
    {
        let setting = match config {
            Some(table) => table_text(table, FILENAME_KEY),
            None => None,
        };
        Tagger::with_setting(setting)
    }

    /// A tagger for a looked-up setting: the text found, or `tags.md` where
    /// the key is missing (`None`) or its value is not a string
    /// (`Some(None)`).
    pub fn with_setting(setting: Option<Option<String>>) -> (tagger: Tagger)
        ensures
            tagger@ == match setting {
                Some(Some(name)) => name@,
                _ => DEFAULT_FILENAME@,
            },
    {
        match setting {
            Some(Some(name)) => Tagger { output_filename: name },
            _ => Tagger { output_filename: String::from_str(DEFAULT_FILENAME) },
        }
    }

    /// The file name of the index page.
    pub fn output_filename(&self) -> (name: &String)
        ensures
            name@ == self@,
    {
        &self.output_filename
    }

    /// Rewrites the events of a chapter: each code span that marks an alias
    /// becomes a link to the index page around the code span `#alias`, and
    /// every other event stays as it is. Returns the new events and one tag
    /// for each marker, in document order, its alias in lowercase. `prefix`
    /// leads from the chapter back to the root.
    pub fn link_tags<'a>(&self, nodes: Vec<Node<'a>>, chapter: &Chapter, prefix: &str) -> (r: (
        Vec<Node<'a>>,
        Vec<AliasedTag>,
    ))
        ensures
            view_nodes(r.0@) == link_tags(view_nodes(nodes@), prefix@, self@),
            view_tags(r.1@) == found_tags(view_nodes(nodes@), chapter@),
            ascii_folded(found_aliases(view_nodes(nodes@))),
    {
        let ghost src = view_nodes(nodes@);
        let ghost raw = nodes@;
        let mut out: Vec<Node<'a>> = Vec::new();
        let mut tags: Vec<AliasedTag> = Vec::new();
        assert(view_nodes(out@) =~= link_tags(src.take(0), prefix@, self@));
        assert(view_tags(tags@) =~= found_tags(src.take(0), chapter@));
        for node in it: nodes
            invariant
                it.seq() == raw,
                src == view_nodes(raw),
                view_nodes(out@) == link_tags(src.take(it.index() as int), prefix@, self@),
                view_tags(tags@) == found_tags(src.take(it.index() as int), chapter@),
                ascii_folded(found_aliases(src.take(it.index() as int))),
        {
            let ghost k = it.index() as int;
            let ghost before = view_nodes(out@);
            let ghost tags_before = view_tags(tags@);
            proof {
                assert(src.take(k + 1).drop_last() == src.take(k));
                assert(src.take(k + 1).last() == node@);
            }
            match node {
                Node::Code(text) => {
                    match find_alias(text.as_str()) {
                        Some(alias) => {
                            proof {
                                reveal_strlit("#");
                                reveal_strlit("Tag: ");
                                reveal_strlit("");
                            }
                            let hash = concat3("#", alias.as_str(), "");
                            let dest = concat3(prefix, self.output_filename.as_str(), hash.as_str());
                            let title = concat3("Tag: ", alias.as_str(), "");
                            assert(hash@ =~= hash_text(alias@));
                            assert(dest@ =~= link_dest(prefix@, self@, alias@));
                            assert(title@ =~= link_title(alias@));
                            tags.push(
                                AliasedTag::new(
                                    alias.as_str(),
                                    chapter.name.clone(),
                                    chapter.path.clone(),
                                    clone_names(&chapter.parent_names),
                                ),
                            );
                            out.push(
                                Node::Start(Span::Link { dest: dest.clone(), title: title.clone() }),
                            );
                            out.push(Node::Code(hash));
                            out.push(Node::End(Span::Link { dest, title }));
                            assert(view_nodes(out@) =~= before + link_node(node@, prefix@, self@));
                            assert(view_tags(tags@) =~= tags_before.push(
                                AliasedTagView {
                                    alias: lowercase(alias@),
                                    tag: chapter_tag(chapter@),
                                },
                            ));
                        },
                        None => {
                            out.push(Node::Code(text));
                            assert(view_nodes(out@) =~= before + link_node(node@, prefix@, self@));
                        },
                    }
                },
                other => {
                    out.push(other);
                    assert(view_nodes(out@) =~= before + link_node(node@, prefix@, self@));
                },
            }
            assert(view_tags(tags@) =~= found_tags(src.take(k + 1), chapter@));
        }
        assert(src.take(raw.len() as int) == src);
        (out, tags)
    }

    /// Rewrites one chapter: parses its text, turns each marker into a link
    /// to the index page, writes the events back as the chapter's new text,
    /// and returns the tags found, in document order. Where the events cannot
    /// be written back the chapter is left as it was.
    pub fn process_chapter(&self, chapter: &mut Chapter) -> (r: Result<Vec<AliasedTag>, TagError>)
        ensures
            match r {
                Ok(tags) => {
                    &&& linked_content(self@, old(chapter)@) == Some(final(chapter).content@)
                    &&& view_tags(tags@) == found_tags(
                        markdown_nodes(old(chapter).content@),
                        old(chapter)@,
                    )
                    &&& final(chapter)@ == (ChapterView {
                        content: final(chapter).content@,
                        ..old(chapter)@
                    })
                },
                Err(error) => {
                    &&& error == TagError::Serialization
                    &&& linked_content(self@, old(chapter)@) is None
                    &&& *final(chapter) == *old(chapter)
                },
            },
    {
        let prefix = root_of(&chapter.path);
        let nodes = parse_nodes(chapter.content.as_str());
        let (linked, tags) = self.link_tags(nodes, chapter, prefix.as_str());
        if !check_heads(&linked) {
            return Err(TagError::Serialization);
        }
        match render_nodes(&linked) {
            Ok(text) => {
                chapter.content = text;
                Ok(tags)
            },
            Err(_) => Err(TagError::Serialization),
        }
    }

    /// Builds the index page: a chapter named `Tags` at `./` and the file
    /// name, without ancestors, whose text lists every alias of the index in
    /// ascending order with the places where it was found. Fails with
    /// `PathResolution` where the path of a place has no text form, and with
    /// `Serialization` where the page cannot be written as text.
    pub fn build_tags_page(&self, index: TagIndex) -> (r: Result<Chapter, TagError>)
        ensures
            match r {
                Ok(page) => {
                    &&& paths_have_text(index@)
                    &&& cmark_text(page_nodes(index@)) == Some(page.content@)
                    &&& page.name@ == page_name()
                    &&& path_text(page.path) == Some(page_path(self@))
                    &&& page.parent_names@.len() == 0
                },
                Err(TagError::PathResolution) => !paths_have_text(index@),
                Err(TagError::Serialization) => paths_have_text(index@) && cmark_text(
                    page_nodes(index@),
                ) is None,
            },
    {
        let nodes = match index_nodes(&index) {
            Ok(nodes) => nodes,
            Err(error) => {
                return Err(error);
            },
        };
        proof {
            lemma_page_built(index@);
            lemma_built_heads_named(page_nodes(index@));
        }
        match render_nodes(&nodes) {
            Ok(content) => {
                proof {
                    reveal_strlit("Tags");
                    reveal_strlit("./");
                    reveal_strlit("");
                }
                let path = concat3("./", self.output_filename.as_str(), "");
                assert(path@ =~= page_path(self@));
                let name = String::from_str("Tags");
                assert(name@ =~= page_name());
                Ok(
                    Chapter {
                        name,
                        content,
                        path: path_from_text(path),
                        parent_names: Vec::new(),
                    },
                )
            },
            Err(_) => Err(TagError::Serialization),
        }
    }
}

} // verus!
