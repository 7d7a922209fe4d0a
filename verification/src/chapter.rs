//! Chapters and the errors of the tagging step.

use crate::tag::names_of;
use std::path::PathBuf;
use vstd::prelude::*;
use vstd::string::StringExecFns;

verus! {

/// One chapter of the book: its display name, its text, its output path and
/// the names of its ancestors from the root down.
#[derive(Debug, PartialEq, Clone)]
pub struct Chapter {
    pub name: String,
    pub content: String,
    pub path: PathBuf,
    pub parent_names: Vec<String>,
}

/// The mathematical value of a [`Chapter`].
pub ghost struct ChapterView {
    pub name: Seq<char>,
    pub content: Seq<char>,
    pub path: PathBuf,
    pub parent_names: Seq<Seq<char>>,
}

impl View for Chapter {
    type V = ChapterView;

    open spec fn view(&self) -> ChapterView {
        ChapterView {
            name: self.name@,
            content: self.content@,
            path: self.path,
            parent_names: names_of(self.parent_names@),
        }
    }
}

impl Chapter {
    /// A chapter with the given name, text, output path and ancestors.
    pub fn new(name: &str, content: String, path: PathBuf, parent_names: Vec<String>) -> (chapter:
        Chapter)
        ensures
            chapter@ == (ChapterView {
                name: name@,
                content: content@,
                path: path,
                parent_names: names_of(parent_names@),
            }),
    {
        Chapter { name: String::from_str(name), content, path, parent_names }
    }
}

/// Why the tagging step failed.
#[derive(Debug, PartialEq, Eq, Clone, Copy)]
pub enum TagError {
    /// The events of a chapter or of the index page could not be written
    /// back as text.
    Serialization,
    /// The path of a place where an alias was found has no text form.
    PathResolution,
}

impl TagError {
    /// A description of the error.
    pub fn message(&self) -> (text: String)
        ensures
            self is Serialization ==> text@ == "Markdown serialization failed"@,
            self is PathResolution ==> text@ == "Couldn't build output path"@,
    {
        match self {
            TagError::Serialization => String::from_str("Markdown serialization failed"),
            TagError::PathResolution => String::from_str("Couldn't build output path"),
        }
    }
}

} // verus!
