use ftags::encode::join_vec;
use ftags::{DecodeError, FTLTrait, FTag, FTagData, FTagFile, FTagList, MalformedRecord};

fn name(n: &str) -> FTag {
    FTag { name: n.to_string(), data: None }
}

fn single(n: &str, v: &str) -> FTag {
    FTag { name: n.to_string(), data: Some(FTagData::Single(v.to_string())) }
}

fn list(n: &str, items: &[&str]) -> FTag {
    FTag {
        name: n.to_string(),
        data: Some(FTagData::List(items.iter().map(|s| s.to_string()).collect())),
    }
}

fn file(path: &str, tags: Vec<FTag>) -> FTagFile {
    FTagFile { file: path.to_string(), tags }
}

fn items(v: &[&str]) -> FTagData {
    FTagData::List(v.iter().map(|s| s.to_string()).collect())
}

#[test]
fn test_parse_ftags() {
    let ftags_str = "a: tag, tag2
foo/b.jpg: file_type:jpg, img_tags:[1girl solo standing long_hair]";
    let ftags_proper: FTagList = vec![
        FTagFile {
            file: String::from("a").into(),
            tags: vec![
                FTag { name: String::from("tag"), data: None },
                FTag { name: String::from("tag2"), data: None },
            ],
        },
        FTagFile {
            file: String::from("foo/b.jpg").into(),
            tags: vec![
                FTag {
                    name: String::from("file_type"),
                    data: Some(FTagData::Single(String::from("jpg"))),
                },
                FTag {
                    name: String::from("img_tags"),
                    data: Some(FTagData::List(vec![
                        String::from("1girl"),
                        String::from("solo"),
                        String::from("standing"),
                        String::from("long_hair"),
                    ])),
                },
            ],
        },
    ];

    assert_eq!(FTagList::from_string(ftags_str.to_string()), Ok(ftags_proper));
}

#[test]
fn test_stringify_ftags() {
    let ftags: FTagList = vec![FTagFile {
        file: String::from(".cargo/bin").into(),
        tags: vec![
            FTag { name: String::from("directory"), data: None },
            FTag {
                name: String::from("child_content_type"),
                data: Some(FTagData::Single(String::from("binary"))),
            },
            FTag {
                name: String::from("misc_info"),
                data: Some(FTagData::List(vec![String::from("rust"), String::from("cargo")])),
            },
        ],
    }];
    let ftags_as_string =
        String::from(".cargo/bin: directory, child_content_type:binary, misc_info:[rust cargo]");

    assert_eq!(ftags.to_string(), ftags_as_string);
}

#[test]
fn test_full_parse_and_stringify() {
    let str =
        String::from(".cargo/bin: directory, child_content_type:binary, misc_info:[rust cargo]");

    assert_eq!(FTagList::from_string(str.clone()).unwrap().to_string(), str);
}

#[test]
fn test_join_vec() {
    let elements = vec!["a", "b", "c"];
    assert_eq!(join_vec(elements, ", "), "a, b, c");
}

#[test]
fn join_vec_of_nothing_and_of_one() {
    assert_eq!(join_vec(Vec::<String>::new(), ", "), "");
    assert_eq!(join_vec(vec!["a".to_string()], ", "), "a");
    assert_eq!(join_vec(vec!["", ""], "-"), "-");
    assert_eq!(join_vec(vec!["a", "b"], ""), "ab");
}

#[test]
fn value_scalar_is_taken_verbatim() {
    assert_eq!(FTagData::from_str("jpg"), Ok(FTagData::Single("jpg".to_string())));
    assert_eq!(FTagData::from_str(" a b "), Ok(FTagData::Single(" a b ".to_string())));
    assert_eq!(FTagData::from_str("[open"), Ok(FTagData::Single("[open".to_string())));
    assert_eq!(FTagData::from_str("close]"), Ok(FTagData::Single("close]".to_string())));
    assert_eq!(FTagData::from_str("["), Ok(FTagData::Single("[".to_string())));
    assert_eq!(FTagData::from_str("]"), Ok(FTagData::Single("]".to_string())));
}

#[test]
fn value_list_is_cut_at_spaces() {
    assert_eq!(FTagData::from_str("[rust cargo]"), Ok(items(&["rust", "cargo"])));
    assert_eq!(FTagData::from_str("[one]"), Ok(items(&["one"])));
    assert_eq!(FTagData::from_str("[a  b]"), Ok(items(&["a", "", "b"])));
}

#[test]
fn value_empty_brackets_are_a_list_of_one_empty_item() {
    assert_eq!(FTagData::from_str("[]"), Ok(items(&[""])));
    assert_eq!(FTagData::from_str("[ ]"), Ok(items(&["", ""])));
}

#[test]
fn value_list_items_lose_one_bracket_at_each_end() {
    assert_eq!(FTagData::from_str("[[a] [b]]"), Ok(items(&["a", "b"])));
    assert_eq!(FTagData::from_str("[[[a]] b]"), Ok(items(&["[a]", "b"])));
    assert_eq!(FTagData::from_str("[[ ]]"), Ok(items(&["", ""])));
}

#[test]
fn value_list_items_are_trimmed() {
    assert_eq!(FTagData::from_str("[a\t b\u{a0}]"), Ok(items(&["a", "b"])));
    assert_eq!(FTagData::from_str("[[\ta\t]]"), Ok(items(&["a"])));
}

#[test]
fn value_empty_text_is_malformed() {
    assert_eq!(FTagData::from_str(""), Err(DecodeError::MalformedValue));
}

#[test]
fn value_text() {
    assert_eq!(FTagData::Single("binary".to_string()).to_string(), "binary");
    assert_eq!(FTagData::Single(String::new()).to_string(), "");
    assert_eq!(items(&["rust", "cargo"]).to_string(), "[rust cargo]");
    assert_eq!(items(&["one"]).to_string(), "[one]");
    assert_eq!(items(&[]).to_string(), "[]");
    assert_eq!(items(&[""]).to_string(), "[]");
}

#[test]
fn value_round_trip() {
    for v in [
        FTagData::Single("jpg".to_string()),
        FTagData::Single("a b".to_string()),
        items(&["a"]),
        items(&["a", "b", "c"]),
        items(&[""]),
        items(&["", ""]),
        items(&["\u{e9}t\u{e9}", "\u{1f600}"]),
    ] {
        assert_eq!(FTagData::from_str(&v.to_string()), Ok(v.clone()));
    }
}

#[test]
fn value_that_does_not_survive() {
    assert_eq!(FTagData::from_str(&items(&[]).to_string()), Ok(items(&[""])));
    assert_eq!(FTagData::from_str(&items(&["a b"]).to_string()), Ok(items(&["a", "b"])));
    assert_eq!(
        FTagData::from_str(&FTagData::Single("[x]".to_string()).to_string()),
        Ok(items(&["x"]))
    );
    assert_eq!(
        FTagData::from_str(&FTagData::Single(String::new()).to_string()),
        Err(DecodeError::MalformedValue)
    );
}

#[test]
fn tag_without_colon_is_a_name() {
    assert_eq!(FTag::from_str("directory"), Ok(name("directory")));
    assert_eq!(FTag::from_str(""), Ok(name("")));
    assert_eq!(FTag::from_str(" spaced "), Ok(name(" spaced ")));
}

#[test]
fn tag_is_cut_at_its_first_colon() {
    assert_eq!(FTag::from_str("file_type:jpg"), Ok(single("file_type", "jpg")));
    assert_eq!(FTag::from_str("a:b:c"), Ok(single("a", "b:c")));
    assert_eq!(FTag::from_str(":x"), Ok(single("", "x")));
    assert_eq!(FTag::from_str("misc_info:[rust cargo]"), Ok(list("misc_info", &["rust", "cargo"])));
}

#[test]
fn tag_with_nothing_behind_the_colon_is_malformed() {
    assert_eq!(FTag::from_str("name:"), Err(DecodeError::MalformedTag));
    assert_eq!(FTag::from_str(":"), Err(DecodeError::MalformedTag));
}

#[test]
fn tag_text() {
    assert_eq!(name("directory").to_string(), "directory");
    assert_eq!(single("child_content_type", "binary").to_string(), "child_content_type:binary");
    assert_eq!(list("misc_info", &["rust", "cargo"]).to_string(), "misc_info:[rust cargo]");
}

#[test]
fn record_decodes_path_and_tags() {
    assert_eq!(
        FTagFile::from_str("foo/b.jpg: file_type:jpg, img_tags:[1girl solo]"),
        Ok(file("foo/b.jpg", vec![single("file_type", "jpg"), list("img_tags", &["1girl", "solo"])]))
    );
    assert_eq!(FTagFile::from_str("a:b,c"), Ok(file("a", vec![name("b"), name("c")])));
    assert_eq!(FTagFile::from_str("a:  b \t,\tc  "), Ok(file("a", vec![name("b"), name("c")])));
}

#[test]
fn record_path_is_not_trimmed() {
    assert_eq!(FTagFile::from_str(" a : b"), Ok(file(" a ", vec![name("b")])));
}

#[test]
fn record_is_cut_at_its_first_colon() {
    assert_eq!(FTagFile::from_str("a:b: c"), Ok(file("a", vec![single("b", " c")])));
    assert_eq!(FTagFile::from_str("c:/x: t"), Ok(file("c", vec![single("/x", " t")])));
}

#[test]
fn record_with_nothing_behind_the_colon_has_no_tags() {
    assert_eq!(FTagFile::from_str("path:"), Ok(file("path", vec![])));
    assert_eq!(FTagFile::from_str(":"), Ok(file("", vec![])));
}

#[test]
fn record_blank_pieces_are_tags_with_an_empty_name() {
    assert_eq!(FTagFile::from_str("path: "), Ok(file("path", vec![name("")])));
    assert_eq!(FTagFile::from_str("path: a,, b"), Ok(file("path", vec![name("a"), name(""), name("b")])));
}

#[test]
fn record_without_colon_is_malformed() {
    assert_eq!(FTagFile::from_str("no separator"), Err(DecodeError::MalformedRecord));
    assert_eq!(FTagFile::from_str(""), Err(DecodeError::MalformedRecord));
}

#[test]
fn record_with_a_malformed_tag_is_malformed() {
    assert_eq!(FTagFile::from_str("p: a, b:, c"), Err(DecodeError::MalformedTag));
    assert_eq!(FTagFile::from_str("p: a:"), Err(DecodeError::MalformedTag));
}

#[test]
fn record_text() {
    assert_eq!(
        file(".cargo/bin", vec![name("directory"), single("child_content_type", "binary"), list("misc_info", &["rust", "cargo"])])
            .to_string(),
        ".cargo/bin: directory, child_content_type:binary, misc_info:[rust cargo]"
    );
    assert_eq!(file("a", vec![name("b")]).to_string(), "a: b");
}

#[test]
fn record_without_tags_has_no_text() {
    assert_eq!(file("lonely", vec![]).to_string(), "");
}

#[test]
fn database_of_untagged_records_is_blank() {
    let one: FTagList = vec![file("a", vec![])];
    assert_eq!(one.to_string(), "");
    let three: FTagList = vec![file("a", vec![]), file("b", vec![]), file("c", vec![])];
    assert_eq!(three.to_string(), "\n\n");
    assert_eq!(FTagList::from_string(three.to_string()), Ok(vec![]));
    let none: FTagList = vec![];
    assert_eq!(none.to_string(), "");
    assert_eq!(FTagList::from_string(String::new()), Ok(vec![]));
}

#[test]
fn database_text_has_no_trailing_newline() {
    let db: FTagList = vec![file("a", vec![name("x")]), file("b", vec![name("y")])];
    assert_eq!(db.to_string(), "a: x\nb: y");
}

#[test]
fn database_untagged_record_leaves_a_blank_line() {
    let db: FTagList = vec![file("a", vec![name("x")]), file("gone", vec![]), file("b", vec![name("y")])];
    assert_eq!(db.to_string(), "a: x\n\nb: y");
    assert_eq!(
        FTagList::from_string(db.to_string()),
        Ok(vec![file("a", vec![name("x")]), file("b", vec![name("y")])])
    );
}

#[test]
fn database_skips_blank_lines() {
    assert_eq!(
        FTagList::from_string("\n\na: x\n\nb: y\n".to_string()),
        Ok(vec![file("a", vec![name("x")]), file("b", vec![name("y")])])
    );
}

#[test]
fn database_line_of_spaces_is_not_blank() {
    assert_eq!(
        FTagList::from_string("a: x\n  \nb: y".to_string()),
        Err(MalformedRecord {
            line: 2,
            content: "  ".to_string(),
            cause: DecodeError::MalformedRecord
        })
    );
}

#[test]
fn database_line_without_colon_stops_the_decoding() {
    assert_eq!(
        FTagList::from_string("a: x\n\nbad line\nc: y".to_string()),
        Err(MalformedRecord {
            line: 3,
            content: "bad line".to_string(),
            cause: DecodeError::MalformedRecord
        })
    );
    assert_eq!(
        FTagList::from_string("only".to_string()),
        Err(MalformedRecord { line: 1, content: "only".to_string(), cause: DecodeError::MalformedRecord })
    );
}

#[test]
fn database_names_the_first_of_several_bad_lines() {
    assert_eq!(
        FTagList::from_string("a: x\nb: t:\nbad\n".to_string()),
        Err(MalformedRecord {
            line: 2,
            content: "b: t:".to_string(),
            cause: DecodeError::MalformedTag
        })
    );
}

#[test]
fn database_round_trip() {
    let db: FTagList = vec![
        file("a", vec![name("tag"), name("tag2")]),
        file("foo/b.jpg", vec![single("file_type", "jpg"), list("img_tags", &["1girl", "solo"])]),
        file("dir with spaces/x", vec![single("", "v"), name("")]),
        file("", vec![list("l", &[""])]),
        file("\u{fc}ber", vec![single("gr\u{f6}\u{df}e", "\u{1f600}")]),
    ];
    assert_eq!(FTagList::from_string(db.to_string()), Ok(db));
}

#[test]
fn database_that_does_not_survive() {
    let tabbed: FTagList = vec![file("a", vec![name("t\t")])];
    assert_eq!(FTagList::from_string(tabbed.to_string()), Ok(vec![file("a", vec![name("t")])]));
    let colon: FTagList = vec![file("c:/x", vec![name("t")])];
    assert_eq!(FTagList::from_string(colon.to_string()), Ok(vec![file("c", vec![single("/x", " t")])]));
    let comma: FTagList = vec![file("a", vec![name("x,y")])];
    assert_eq!(FTagList::from_string(comma.to_string()), Ok(vec![file("a", vec![name("x"), name("y")])]));
}

#[test]
fn clones_are_equal() {
    let f = file("p", vec![name("a"), single("b", "c"), list("d", &["e", "f"])]);
    assert_eq!(f.clone(), f);
    assert_eq!(f.tags[2].clone(), f.tags[2]);
    assert_eq!(f.tags[2].data.clone(), f.tags[2].data);
}
