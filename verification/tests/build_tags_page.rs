use mdbook_tag::chapter::TagError;
use mdbook_tag::index::TagIndex;
use mdbook_tag::markdown::{Node, Span};
use mdbook_tag::page::{breadcrumb_of, index_nodes};
use mdbook_tag::tag::Tag;
use mdbook_tag::tagger::Tagger;
use std::path::PathBuf;
use toml::value::Table;
use toml::Value;

#[test]
fn simple() {
    let tagger = Tagger::new(None);
    let mut tags = TagIndex::new();
    tags.insert(
        "hello".into(),
        vec![Tag {
            chapter_name: "Chapter".into(),
            path: PathBuf::from("./chapter.md"),
            parent_names: vec![],
        }],
    );
    let expected = "# Tags\n\n## `hello`\n\n/[Chapter](./chapter.md \"Chapter\")\n\n";

    let chapter = tagger.build_tags_page(tags).unwrap();

    assert_eq!("Tags", chapter.name);
    assert_eq!(expected, chapter.content);
}

#[test]
fn alternative_file_name() {
    let alternative_name = "my_tags.md";
    let mut config = Table::new();
    config.insert("filename".into(), Value::String(alternative_name.into()));

    let tagger = Tagger::new(Some(&config));

    let mut tags = TagIndex::new();
    tags.insert(
        "hello".into(),
        vec![Tag {
            chapter_name: "Chapter".into(),
            path: PathBuf::from("./chapter.md"),
            parent_names: vec![],
        }],
    );

    let chapter = tagger.build_tags_page(tags).unwrap();

    assert_eq!(
        PathBuf::from(format!("./{}", alternative_name)),
        chapter.path
    );
}

#[test]
fn tag_sorting() {
    let tagger = Tagger::new(None);

    let chapter_tag = Tag {
        chapter_name: "Chapter".into(),
        path: PathBuf::from("./chapter.md"),
        parent_names: vec![],
    };
    let mut tags = TagIndex::new();
    tags.insert("a".into(), vec![chapter_tag.clone()]);
    tags.insert("b".into(), vec![chapter_tag]);

    let expected = "# Tags\n\n## `a`\n\n/[Chapter](./chapter.md \"Chapter\")\n\n## `b`\n\n/[Chapter](./chapter.md \"Chapter\")\n\n";

    let chapter = tagger.build_tags_page(tags).unwrap();

    assert_eq!(expected, chapter.content);
}

#[test]
fn tag_sorting_does_not_follow_insertion() {
    let chapter_tag = Tag {
        chapter_name: "Chapter".into(),
        path: PathBuf::from("./chapter.md"),
        parent_names: vec![],
    };
    let mut tags = TagIndex::new();
    tags.insert("b".into(), vec![chapter_tag.clone()]);
    tags.insert("a".into(), vec![chapter_tag.clone()]);
    tags.insert("ab".into(), vec![chapter_tag]);

    let expected = "# Tags\n\n## `a`\n\n/[Chapter](./chapter.md \"Chapter\")\n\n## `ab`\n\n/[Chapter](./chapter.md \"Chapter\")\n\n## `b`\n\n/[Chapter](./chapter.md \"Chapter\")\n\n";

    let chapter = Tagger::new(None).build_tags_page(tags).unwrap();

    assert_eq!(expected, chapter.content);
}

#[test]
fn path_sorting() {
    let tagger = Tagger::new(None);

    let mut tags = TagIndex::new();
    tags.insert(
        "a".into(),
        vec![
            Tag {
                chapter_name: "a".into(),
                path: PathBuf::from("./chapter.md"),
                parent_names: vec![],
            },
            Tag {
                chapter_name: "a".into(),
                path: PathBuf::from("./chapter.md"),
                parent_names: vec!["a".into()],
            },
            Tag {
                chapter_name: "b".into(),
                path: PathBuf::from("./chapter.md"),
                parent_names: vec!["b".into()],
            },
        ],
    );

    let expected =
        "# Tags\n\n## `a`\n\n/[a](./chapter.md \"a\")\n\n/a/[a](./chapter.md \"a\")\n\n/b/[b](./chapter.md \"b\")\n\n";

    let chapter = tagger.build_tags_page(tags).unwrap();

    assert_eq!(expected, chapter.content);
}

#[test]
fn path_sorting_from_reverse_order() {
    let mut tags = TagIndex::new();
    tags.insert(
        "a".into(),
        vec![
            Tag {
                chapter_name: "b".into(),
                path: PathBuf::from("./third.md"),
                parent_names: vec!["b".into()],
            },
            Tag {
                chapter_name: "a".into(),
                path: PathBuf::from("./second.md"),
                parent_names: vec!["a".into()],
            },
            Tag {
                chapter_name: "a".into(),
                path: PathBuf::from("./first.md"),
                parent_names: vec![],
            },
        ],
    );

    let expected =
        "# Tags\n\n## `a`\n\n/[a](./first.md \"a\")\n\n/a/[a](./second.md \"a\")\n\n/b/[b](./third.md \"b\")\n\n";

    let chapter = Tagger::new(None).build_tags_page(tags).unwrap();

    assert_eq!(expected, chapter.content);
}

#[test]
fn places_with_equal_keys_keep_their_order() {
    let place = |path: &str| Tag {
        chapter_name: "Same".into(),
        path: PathBuf::from(path),
        parent_names: vec!["Up".into()],
    };
    let mut tags = TagIndex::new();
    tags.insert("a".into(), vec![place("./2.md"), place("./1.md"), place("./3.md")]);

    let expected = "# Tags\n\n## `a`\n\n/Up/[Same](./2.md \"Same\")\n\n/Up/[Same](./1.md \"Same\")\n\n/Up/[Same](./3.md \"Same\")\n\n";

    let chapter = Tagger::new(None).build_tags_page(tags).unwrap();

    assert_eq!(expected, chapter.content);
}

#[test]
fn page_is_a_root_chapter_named_tags() {
    let mut tags = TagIndex::new();
    tags.insert("x".into(), vec![]);

    let chapter = Tagger::new(None).build_tags_page(tags).unwrap();

    assert_eq!("Tags", chapter.name);
    assert_eq!(PathBuf::from("./tags.md"), chapter.path);
    assert_eq!(Vec::<String>::new(), chapter.parent_names);
    assert_eq!("# Tags\n\n## `x`", chapter.content);
}

#[test]
fn empty_index_gives_only_the_heading() {
    let chapter = Tagger::new(None).build_tags_page(TagIndex::new()).unwrap();

    assert_eq!("# Tags", chapter.content);
}

#[test]
fn index_nodes_lists_the_events() {
    let mut tags = TagIndex::new();
    tags.insert(
        "x".into(),
        vec![Tag {
            chapter_name: "C".into(),
            path: PathBuf::from("./c.md"),
            parent_names: vec!["A".into(), "B".into()],
        }],
    );

    let nodes = index_nodes(&tags).unwrap();

    assert_eq!(
        vec![
            Node::Start(Span::Header(1)),
            Node::Text("Tags".into()),
            Node::End(Span::Header(1)),
            Node::Start(Span::Header(2)),
            Node::Code("x".into()),
            Node::End(Span::Header(2)),
            Node::Text("/A/B/".into()),
            Node::Start(Span::Link { dest: "./c.md".into(), title: "C".into() }),
            Node::Text("C".into()),
            Node::End(Span::Link { dest: "./c.md".into(), title: "C".into() }),
            Node::Text("\n\n".into()),
        ],
        nodes
    );
}

#[test]
fn breadcrumb_names_the_ancestors() {
    assert_eq!("/", breadcrumb_of(&vec![]));
    assert_eq!("/a/", breadcrumb_of(&vec!["a".into()]));
    assert_eq!("/Parent One/Parent Two/", breadcrumb_of(&vec!["Parent One".into(), "Parent Two".into()]));
}

#[test]
fn error_messages() {
    assert_eq!("Markdown serialization failed", TagError::Serialization.message());
    assert_eq!("Couldn't build output path", TagError::PathResolution.message());
}
