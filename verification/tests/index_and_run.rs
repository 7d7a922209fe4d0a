use mdbook_tag::chapter::Chapter;
use mdbook_tag::index::{IndexEntry, TagIndex};
use mdbook_tag::preprocessor::{TagPreprocessor, PREPROCESSOR_NAME};
use mdbook_tag::tag::{AliasedTag, Tag, TAG_STRING_PREFIX};
use mdbook_tag::tagger::Tagger;
use std::path::PathBuf;
use toml::value::Table;
use toml::Value;

fn place(name: &str) -> Tag {
    Tag { chapter_name: name.into(), path: PathBuf::from(format!("./{}.md", name)), parent_names: vec![] }
}

fn chapter(name: &str, content: &str, path: &str) -> Chapter {
    Chapter::new(name, content.into(), PathBuf::from(path), vec![])
}

#[test]
fn constants() {
    assert_eq!("tag", PREPROCESSOR_NAME);
    assert_eq!("tag:", TAG_STRING_PREFIX);
    assert_eq!("tag", TagPreprocessor::new().name());
    assert!(TagPreprocessor::new().supports_renderer("html"));
    assert!(TagPreprocessor::new().supports_renderer("anything"));
}

#[test]
fn record_groups_by_alias() {
    let mut index = TagIndex::new();
    assert!(index.is_empty());
    index.record("b".into(), place("one"));
    index.record("a".into(), place("two"));
    index.record("b".into(), place("three"));

    assert_eq!(2, index.len());
    assert!(!index.is_empty());
    assert_eq!(Some(0), index.position(&"b".to_string()));
    assert_eq!(Some(1), index.position(&"a".to_string()));
    assert_eq!(None, index.position(&"B".to_string()));
    assert_eq!(
        &vec![
            IndexEntry { alias: "b".into(), tags: vec![place("one"), place("three")] },
            IndexEntry { alias: "a".into(), tags: vec![place("two")] },
        ],
        index.entries()
    );
}

#[test]
fn insert_replaces_the_places_of_an_alias() {
    let mut index = TagIndex::new();
    assert_eq!(None, index.insert("a".into(), vec![place("one")]));
    assert_eq!(None, index.insert("b".into(), vec![]));
    assert_eq!(Some(vec![place("one")]), index.insert("a".into(), vec![place("two"), place("three")]));

    assert_eq!(
        &vec![
            IndexEntry { alias: "a".into(), tags: vec![place("two"), place("three")] },
            IndexEntry { alias: "b".into(), tags: vec![] },
        ],
        index.entries()
    );
}

#[test]
fn from_tags_records_one_by_one() {
    let tags = vec![
        AliasedTag::new("X", "one".into(), PathBuf::from("./one.md"), vec![]),
        AliasedTag::new("y", "two".into(), PathBuf::from("./two.md"), vec![]),
        AliasedTag::new("x", "three".into(), PathBuf::from("./three.md"), vec![]),
    ];

    let index = TagIndex::from_tags(tags);

    assert_eq!(
        &vec![
            IndexEntry { alias: "x".into(), tags: vec![place("one"), place("three")] },
            IndexEntry { alias: "y".into(), tags: vec![place("two")] },
        ],
        index.entries()
    );
    assert!(TagIndex::from_tags(vec![]).is_empty());
}

#[test]
fn file_name_comes_from_the_configuration() {
    let mut config = Table::new();
    config.insert("filename".into(), Value::String("my_tags.md".into()));
    assert_eq!("my_tags.md", Tagger::new(Some(&config)).output_filename());

    let mut number = Table::new();
    number.insert("filename".into(), Value::Integer(3));
    assert_eq!("tags.md", Tagger::new(Some(&number)).output_filename());

    let mut other = Table::new();
    other.insert("file".into(), Value::String("my_tags.md".into()));
    assert_eq!("tags.md", Tagger::new(Some(&other)).output_filename());

    assert_eq!("tags.md", Tagger::new(Some(&Table::new())).output_filename());
    assert_eq!("tags.md", Tagger::new(None).output_filename());
}

#[test]
fn file_name_from_a_setting() {
    assert_eq!("x.md", Tagger::with_setting(Some(Some("x.md".into()))).output_filename());
    assert_eq!("tags.md", Tagger::with_setting(Some(None)).output_filename());
    assert_eq!("tags.md", Tagger::with_setting(None).output_filename());
}

#[test]
fn configured_file_name_is_the_link_target() {
    let mut config = Table::new();
    config.insert("filename".into(), Value::String("my_tags.md".into()));
    let mut one = chapter("One", "`tag:hello`", "./sub/one.md");

    let tags = Tagger::new(Some(&config)).process_chapter(&mut one).unwrap();

    assert_eq!(1, tags.len());
    assert_eq!("[`#hello`](../my_tags.md#hello \"Tag: hello\")", one.content);
}

#[test]
fn run_adds_the_index_page() {
    let mut chapters = vec![
        chapter("One", "# One\n\n`tag:Beta` and `tag:alpha`", "./one.md"),
        chapter("Two", "No tags here.", "./two.md"),
        Chapter::new(
            "Three",
            "`tag:beta`".into(),
            PathBuf::from("./sub/three.md"),
            vec!["Two".into()],
        ),
    ];

    let page = TagPreprocessor::new().run(None, &mut chapters).unwrap().unwrap();

    assert_eq!(
        "# One\n\n[`#Beta`](tags.md#Beta \"Tag: Beta\") and [`#alpha`](tags.md#alpha \"Tag: alpha\")",
        chapters[0].content
    );
    assert_eq!("No tags here.", chapters[1].content);
    assert_eq!("[`#beta`](../tags.md#beta \"Tag: beta\")", chapters[2].content);
    assert_eq!("Tags", page.name);
    assert_eq!(PathBuf::from("./tags.md"), page.path);
    assert_eq!(
        "# Tags\n\n## `alpha`\n\n/[One](./one.md \"One\")\n\n## `beta`\n\n/[One](./one.md \"One\")\n\n/Two/[Three](./sub/three.md \"Three\")\n\n",
        page.content
    );
}

#[test]
fn run_with_a_configured_file_name() {
    let mut config = Table::new();
    config.insert("filename".into(), Value::String("my_tags.md".into()));
    let mut chapters = vec![chapter("One", "`tag:x`", "./a/one.md")];

    let page = TagPreprocessor::new().run(Some(&config), &mut chapters).unwrap().unwrap();

    assert_eq!("[`#x`](../my_tags.md#x \"Tag: x\")", chapters[0].content);
    assert_eq!(PathBuf::from("./my_tags.md"), page.path);
}

#[test]
fn run_without_tags_adds_no_page() {
    let mut chapters = vec![
        chapter("One", "# One\n\nSome `code` and `tag:`.", "./one.md"),
        chapter("Two", "", ""),
    ];

    let page = TagPreprocessor::new().run(None, &mut chapters).unwrap();

    assert_eq!(None, page);
    assert_eq!("# One\n\nSome `code` and `tag:`.", chapters[0].content);
    assert_eq!("", chapters[1].content);

    let mut none: Vec<Chapter> = vec![];
    assert_eq!(None, TagPreprocessor::new().run(None, &mut none).unwrap());
}

#[test]
fn tag_book_uses_the_given_tagger() {
    let tagger = Tagger::with_setting(Some(Some("index.md".into())));
    let mut chapters = vec![chapter("One", "`tag:x`", "./one.md")];

    let page = TagPreprocessor::new().tag_book(&tagger, &mut chapters).unwrap().unwrap();

    assert_eq!("[`#x`](index.md#x \"Tag: x\")", chapters[0].content);
    assert_eq!(PathBuf::from("./index.md"), page.path);
    assert_eq!("# Tags\n\n## `x`\n\n/[One](./one.md \"One\")\n\n", page.content);
}

#[test]
fn aliases_that_differ_in_case_share_an_entry() {
    let mut chapters = vec![
        chapter("One", "`tag:É`", "./one.md"),
        chapter("Two", "`tag:é` and `tag:Rust`", "./two.md"),
        chapter("Three", "`tag:RUST`", "./three.md"),
    ];

    let page = TagPreprocessor::new().run(None, &mut chapters).unwrap().unwrap();

    assert_eq!("[`#É`](tags.md#É \"Tag: É\")", chapters[0].content);
    assert_eq!(
        "# Tags\n\n## `rust`\n\n/[Three](./three.md \"Three\")\n\n/[Two](./two.md \"Two\")\n\n## `é`\n\n/[One](./one.md \"One\")\n\n/[Two](./two.md \"Two\")\n\n",
        page.content
    );
}
