use mdbook_tag::chapter::{Chapter, TagError};
use mdbook_tag::markdown::{Node, Span};
use mdbook_tag::paths::root_of;
use mdbook_tag::tag::{find_alias, AliasedTag};
use mdbook_tag::tagger::Tagger;
use std::path::PathBuf;

const CHAPTER_NAME: &str = "Test Chapter";
const CHAPTER_FILE: &str = "chapter.md";
const EXPECTED: &str = "# Chapter\n\n[`#hello`](tags.md#hello \"Tag: hello\")";

fn verify_process_chapter(tag_aliases: Vec<&str>, mut chapter: Chapter, expected: &str) {
    let tagger = Tagger::new(None);
    let tags: Vec<_> = tag_aliases
        .into_iter()
        .map(|alias| {
            AliasedTag::new(
                alias,
                chapter.name.clone(),
                chapter.path.clone(),
                chapter.parent_names.clone(),
            )
        })
        .collect();

    assert_eq!(tags, tagger.process_chapter(&mut chapter).unwrap());

    assert_eq!(expected, chapter.content);
}

#[test]
fn simple_chapter() {
    let chapter = Chapter::new(
        CHAPTER_NAME,
        "# Chapter\n\n`tag:hello`".into(),
        PathBuf::from(format!("./{}", CHAPTER_FILE)),
        vec![],
    );

    verify_process_chapter(vec!["hello"], chapter, EXPECTED);
}

#[test]
fn sub_dir_chapter() {
    let chapter = Chapter::new(
        CHAPTER_NAME,
        "# Chapter\n\n`tag:hello`".into(),
        PathBuf::from(format!("./subchapter/{}", CHAPTER_FILE)),
        vec![],
    );

    verify_process_chapter(
        vec!["hello"],
        chapter,
        "# Chapter\n\n[`#hello`](../tags.md#hello \"Tag: hello\")",
    );
}

#[test]
fn sub_chapter() {
    let chapter = Chapter::new(
        CHAPTER_NAME,
        "# Chapter\n\n`tag:hello`".into(),
        PathBuf::from(format!("./{}", CHAPTER_FILE)),
        vec!["Parent One".into(), "Parent Two".into()],
    );

    verify_process_chapter(vec!["hello"], chapter, EXPECTED);
}

#[test]
fn two_directories_deep() {
    let chapter = Chapter::new(
        CHAPTER_NAME,
        "`tag:hello`".into(),
        PathBuf::from("./a/b/chapter.md"),
        vec![],
    );

    verify_process_chapter(
        vec!["hello"],
        chapter,
        "[`#hello`](../../tags.md#hello \"Tag: hello\")",
    );
}

#[test]
fn path_without_parent_gets_no_prefix() {
    let chapter = Chapter::new(CHAPTER_NAME, "`tag:hello`".into(), PathBuf::from(""), vec![]);

    verify_process_chapter(vec!["hello"], chapter, "[`#hello`](tags.md#hello \"Tag: hello\")");
}

#[test]
fn bare_prefix_is_left_alone() {
    let mut chapter = Chapter::new(
        CHAPTER_NAME,
        "# Chapter\n\n`tag:`".into(),
        PathBuf::from("./chapter.md"),
        vec![],
    );
    let tags = Tagger::new(None).process_chapter(&mut chapter).unwrap();

    assert_eq!(Vec::<AliasedTag>::new(), tags);
    assert_eq!("# Chapter\n\n`tag:`", chapter.content);
}

#[test]
fn other_code_is_left_alone() {
    let mut chapter = Chapter::new(
        CHAPTER_NAME,
        "Some `code` and `Tag:x` and `a tag:y` here.".into(),
        PathBuf::from("./chapter.md"),
        vec![],
    );
    let tags = Tagger::new(None).process_chapter(&mut chapter).unwrap();

    assert_eq!(Vec::<AliasedTag>::new(), tags);
    assert_eq!("Some `code` and `Tag:x` and `a tag:y` here.", chapter.content);
}

#[test]
fn marker_in_plain_text_is_not_a_tag() {
    let mut chapter = Chapter::new(
        CHAPTER_NAME,
        "Plain tag:hello text.".into(),
        PathBuf::from("./chapter.md"),
        vec![],
    );
    let tags = Tagger::new(None).process_chapter(&mut chapter).unwrap();

    assert_eq!(0, tags.len());
    assert_eq!("Plain tag:hello text.", chapter.content);
}

#[test]
fn alias_keeps_its_case_in_the_link() {
    let mut chapter = Chapter::new(
        CHAPTER_NAME,
        "`tag: Hello World `".into(),
        PathBuf::from("./chapter.md"),
        vec![],
    );
    let tags = Tagger::new(None).process_chapter(&mut chapter).unwrap();

    assert_eq!(1, tags.len());
    assert_eq!("hello world", tags[0].alias());
    assert_eq!(CHAPTER_NAME, tags[0].tag().chapter_name);
    assert_eq!(PathBuf::from("./chapter.md"), tags[0].tag().path);
    assert_eq!(
        "[`#Hello World`](tags.md#Hello World \"Tag: Hello World\")",
        chapter.content
    );
}

#[test]
fn tags_come_in_document_order() {
    let mut chapter = Chapter::new(
        CHAPTER_NAME,
        "`tag:b` then `tag:a` then `tag:b`".into(),
        PathBuf::from("./chapter.md"),
        vec!["Parent".into()],
    );
    let tags = Tagger::new(None).process_chapter(&mut chapter).unwrap();
    let aliases: Vec<&str> = tags.iter().map(|tag| tag.alias().as_str()).collect();

    assert_eq!(vec!["b", "a", "b"], aliases);
    assert_eq!(vec![String::from("Parent")], tags[1].tag().parent_names);
    assert_eq!(
        "[`#b`](tags.md#b \"Tag: b\") then [`#a`](tags.md#a \"Tag: a\") then [`#b`](tags.md#b \"Tag: b\")",
        chapter.content
    );
}

#[test]
fn second_pass_finds_nothing() {
    let mut chapter = Chapter::new(
        CHAPTER_NAME,
        "# Chapter\n\n`tag:hello`".into(),
        PathBuf::from("./chapter.md"),
        vec![],
    );
    let tagger = Tagger::new(None);
    let first = tagger.process_chapter(&mut chapter).unwrap();
    let after_first = chapter.content.clone();
    let second = tagger.process_chapter(&mut chapter).unwrap();

    assert_eq!(1, first.len());
    assert_eq!(0, second.len());
    assert_eq!(EXPECTED, after_first);
    assert_eq!(after_first, chapter.content);
}

#[test]
fn link_tags_replaces_one_event_by_three() {
    let chapter = Chapter::new(CHAPTER_NAME, String::new(), PathBuf::from("./x.md"), vec![]);
    let nodes = vec![
        Node::Text("see ".into()),
        Node::Code(" tag:Rust ".into()),
        Node::Code("tag:".into()),
        Node::End(Span::Header(3)),
    ];
    let (linked, tags) = Tagger::new(None).link_tags(nodes, &chapter, "../");

    assert_eq!(
        vec![
            Node::Text("see ".into()),
            Node::Start(Span::Link { dest: "../tags.md#Rust".into(), title: "Tag: Rust".into() }),
            Node::Code("#Rust".into()),
            Node::End(Span::Link { dest: "../tags.md#Rust".into(), title: "Tag: Rust".into() }),
            Node::Code("tag:".into()),
            Node::End(Span::Header(3)),
        ],
        linked
    );
    assert_eq!(
        vec![AliasedTag::new("rust", CHAPTER_NAME.into(), PathBuf::from("./x.md"), vec![])],
        tags
    );
}

#[test]
fn find_alias_follows_the_marker_syntax() {
    assert_eq!(Some("hello".to_string()), find_alias("tag:hello"));
    assert_eq!(Some("hello".to_string()), find_alias("  tag:  hello\t"));
    assert_eq!(Some("two words".to_string()), find_alias("tag:two words"));
    assert_eq!(Some("Mixed".to_string()), find_alias("tag:Mixed"));
    assert_eq!(Some(":".to_string()), find_alias("tag::"));
    assert_eq!(Some("é".to_string()), find_alias("tag:\u{3000}é\u{a0}"));
    assert_eq!(None, find_alias("tag:"));
    assert_eq!(None, find_alias(" tag: "));
    assert_eq!(None, find_alias(""));
    assert_eq!(None, find_alias("tag"));
    assert_eq!(None, find_alias("Tag:hello"));
    assert_eq!(None, find_alias("TAG:hello"));
    assert_eq!(None, find_alias("a tag:hello"));
    assert_eq!(None, find_alias("#hello"));
}

#[test]
fn aliased_tag_stores_the_alias_in_lower_case() {
    let tag = AliasedTag::new("HeLLo Wörld Ä", "C".into(), PathBuf::from("c.md"), vec!["P".into()]);

    assert_eq!("hello wörld ä", tag.alias());
    assert_eq!("C", tag.tag().chapter_name);
    assert_eq!(vec![String::from("P")], tag.tag().parent_names);
    let copy = tag.tag().clone();
    let (alias, place) = tag.into_parts();
    assert_eq!("hello wörld ä", alias);
    assert_eq!(copy, place);
}

#[test]
fn alias_is_folded_beyond_ascii() {
    let alias = |text: &str| {
        let tag = AliasedTag::new(text, "C".into(), PathBuf::from("./c.md"), vec![]);
        tag.alias().clone()
    };

    assert_eq!("été", alias("Été"));
    assert_eq!("été", alias("été"));
    assert_eq!("äöü ß", alias("ÄÖÜ ß"));
    assert_eq!("ὀδυσσεύς", alias("ὈΔΥΣΣΕΎΣ"));
    assert_eq!("i\u{307}", alias("\u{130}"));
    assert_eq!("日本 42", alias("日本 42"));
    assert_eq!("", alias(""));
}

#[test]
fn ascii_alias_changes_in_its_capitals_alone() {
    for code in 0u8..128 {
        let c = code as char;
        let tag = AliasedTag::new(&c.to_string(), "C".into(), PathBuf::from("./c.md"), vec![]);
        assert_eq!(&c.to_ascii_lowercase().to_string(), tag.alias(), "U+{:04X}", code);
    }
    let tag = AliasedTag::new("ABC xyz [\\]^_` 0-9 {|}~", "C".into(), PathBuf::from("./c.md"), vec![]);
    assert_eq!("abc xyz [\\]^_` 0-9 {|}~", tag.alias());
}

#[test]
fn marker_beyond_ascii_is_folded_in_the_tag_alone() {
    let mut chapter = Chapter::new(
        CHAPTER_NAME,
        "`tag:É`".into(),
        PathBuf::from("./chapter.md"),
        vec![],
    );
    let tags = Tagger::new(None).process_chapter(&mut chapter).unwrap();

    assert_eq!(
        vec![AliasedTag::new("é", CHAPTER_NAME.into(), PathBuf::from("./chapter.md"), vec![])],
        tags
    );
    assert_eq!("é", tags[0].alias());
    assert_eq!("[`#É`](tags.md#É \"Tag: É\")", chapter.content);
}

#[test]
fn markers_in_a_table_become_links() {
    let mut chapter = Chapter::new(
        CHAPTER_NAME,
        "| Name | Tag |\n|------|-----|\n| one | `tag:first` |\n| two | `tag:second` |\n".into(),
        PathBuf::from("./chapter.md"),
        vec![],
    );
    let tags = Tagger::new(None).process_chapter(&mut chapter).unwrap();
    let aliases: Vec<&str> = tags.iter().map(|tag| tag.alias().as_str()).collect();

    assert_eq!(vec!["first", "second"], aliases);
    assert!(chapter.content.contains("[`#first`](tags.md#first \"Tag: first\")"));
    assert!(chapter.content.contains("[`#second`](tags.md#second \"Tag: second\")"));
    assert!(chapter.content.contains("|Name|Tag|"));
}

#[test]
fn other_formatting_passes_through() {
    let text = "# Title\n\nSome *emphasis*, **strong** text and a [link](http://example.com \"there\").\n\n* one\n* two";
    let mut chapter = Chapter::new(CHAPTER_NAME, text.into(), PathBuf::from("./chapter.md"), vec![]);
    let tags = Tagger::new(None).process_chapter(&mut chapter).unwrap();

    assert_eq!(0, tags.len());
    assert_eq!(text, chapter.content);
}

#[test]
fn column_without_a_name_cannot_be_written() {
    let text = "| `tag:x` | b |\n|---|---|\n| 1 | 2 |\n";
    let mut chapter = Chapter::new(CHAPTER_NAME, text.into(), PathBuf::from("./chapter.md"), vec![]);

    let outcome = Tagger::new(None).process_chapter(&mut chapter);

    assert_eq!(Err(TagError::Serialization), outcome);
    assert_eq!(text, chapter.content);
}

#[test]
fn root_is_one_step_up_for_each_directory() {
    assert_eq!("", root_of(&PathBuf::from("chapter.md")));
    assert_eq!("", root_of(&PathBuf::from("./chapter.md")));
    assert_eq!("../", root_of(&PathBuf::from("./sub/chapter.md")));
    assert_eq!("../../", root_of(&PathBuf::from("a/b/chapter.md")));
    assert_eq!("../../../", root_of(&PathBuf::from("./a/b/c/chapter.md")));
    assert_eq!("", root_of(&PathBuf::from("")));
    assert_eq!("", root_of(&PathBuf::from("/")));
}
