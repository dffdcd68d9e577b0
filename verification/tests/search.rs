use ftags::listing::list_tags;
use ftags::encode::join_vec;
use ftags::render::{render_search, render_tags};
use ftags::search::{match_record, search};
use ftags::{FTLTrait, FTag, FTagData, FTagFile, FTagList};

fn name(n: &str) -> FTag {
    FTag { name: n.to_string(), data: None }
}

fn single(n: &str, v: &str) -> FTag {
    FTag { name: n.to_string(), data: Some(FTagData::Single(v.to_string())) }
}

fn list(n: &str, items: &[&str]) -> FTag {
    FTag {
        name: n.to_string(),
        data: Some(FTagData::List(items.iter().map(|s| s.to_string()).collect())),
    }
}

fn file(path: &str, tags: Vec<FTag>) -> FTagFile {
    FTagFile { file: path.to_string(), tags }
}

fn photos() -> FTagList {
    vec![
        file("z.jpg", vec![single("file_type", "jpg"), name("holiday")]),
        file("a.png", vec![single("file_type", "png")]),
        file("notes.txt", vec![name("todo")]),
        file("m.jpg", vec![single("file_type", "jpg"), list("people", &["ann", "bob"])]),
    ]
}

#[test]
fn a_name_alone_matches_any_value_in_full() {
    let record = file("b.jpg", vec![single("file_type", "jpg")]);
    assert_eq!(match_record(&record, &vec![name("file_type")]), (true, true));
}

#[test]
fn another_value_matches_in_part_only() {
    let record = file("b.jpg", vec![single("file_type", "jpg")]);
    assert_eq!(match_record(&record, &vec![single("file_type", "png")]), (true, false));
    assert_eq!(match_record(&record, &vec![single("file_type", "jpg")]), (true, true));
}

#[test]
fn a_value_does_not_match_a_tag_without_value() {
    let record = file("x", vec![name("todo")]);
    assert_eq!(match_record(&record, &vec![single("todo", "now")]), (true, false));
    assert_eq!(match_record(&record, &vec![name("todo")]), (true, true));
}

#[test]
fn another_name_does_not_match() {
    let record = file("b.jpg", vec![single("file_type", "jpg")]);
    assert_eq!(match_record(&record, &vec![name("file")]), (false, false));
    assert_eq!(match_record(&record, &vec![]), (false, false));
    assert_eq!(match_record(&file("x", vec![]), &vec![name("file_type")]), (false, false));
}

#[test]
fn lists_match_as_a_whole() {
    let record = file("m.jpg", vec![list("people", &["ann", "bob"])]);
    assert_eq!(match_record(&record, &vec![list("people", &["ann", "bob"])]), (true, true));
    assert_eq!(match_record(&record, &vec![list("people", &["ann"])]), (true, false));
    assert_eq!(match_record(&record, &vec![list("people", &["bob", "ann"])]), (true, false));
    assert_eq!(match_record(&record, &vec![single("people", "ann")]), (true, false));
}

#[test]
fn one_tag_of_the_query_is_enough() {
    let record = file("b.jpg", vec![single("file_type", "jpg"), name("holiday")]);
    let query = vec![single("file_type", "png"), name("holiday")];
    assert_eq!(match_record(&record, &query), (true, true));
    let query = vec![single("file_type", "png"), name("work")];
    assert_eq!(match_record(&record, &query), (true, false));
}

#[test]
fn search_sorts_its_results() {
    let (full, partial) = search(&photos(), &vec![single("file_type", "jpg")]);
    assert_eq!(
        full,
        vec![
            file("m.jpg", vec![single("file_type", "jpg"), list("people", &["ann", "bob"])]),
            file("z.jpg", vec![single("file_type", "jpg"), name("holiday")]),
        ]
    );
    assert_eq!(
        partial,
        vec![
            file("a.png", vec![single("file_type", "png")]),
            file("m.jpg", vec![single("file_type", "jpg"), list("people", &["ann", "bob"])]),
            file("z.jpg", vec![single("file_type", "jpg"), name("holiday")]),
        ]
    );
}

#[test]
fn search_keeps_repeated_records() {
    let db: FTagList = vec![file("b", vec![name("t")]), file("a", vec![name("t")]), file("b", vec![name("t")])];
    let (full, partial) = search(&db, &vec![name("t")]);
    let want = vec![file("a", vec![name("t")]), file("b", vec![name("t")]), file("b", vec![name("t")])];
    assert_eq!(full, want);
    assert_eq!(partial, want);
}

#[test]
fn search_without_match_is_empty() {
    let (full, partial) = search(&photos(), &vec![name("nothing")]);
    assert_eq!(full, vec![]);
    assert_eq!(partial, vec![]);
    let (full, partial) = search(&photos(), &vec![]);
    assert_eq!(full, vec![]);
    assert_eq!(partial, vec![]);
}

#[test]
fn search_text_of_full_and_partial_matches() {
    let (full, partial) = search(&photos(), &vec![single("file_type", "jpg")]);
    assert_eq!(
        render_search(&full, &partial),
        "Full matches:\n    m.jpg: file_type:jpg, people:[ann bob]\n    z.jpg: file_type:jpg, holiday\n\nPartial Matches:\n    a.png: file_type:png\n    m.jpg: file_type:jpg, people:[ann bob]\n    z.jpg: file_type:jpg, holiday\n"
    );
}

#[test]
fn search_text_leaves_out_partial_matches_that_read_the_same() {
    let (full, partial) = search(&photos(), &vec![name("todo")]);
    assert_eq!(render_search(&full, &partial), "Full matches:\n    notes.txt: todo\n");
}

#[test]
fn search_text_of_partial_matches_alone() {
    let (full, partial) = search(&photos(), &vec![single("file_type", "gif")]);
    assert_eq!(full, vec![]);
    assert_eq!(
        render_search(&full, &partial),
        "Partial Matches:\n    a.png: file_type:png\n    m.jpg: file_type:jpg, people:[ann bob]\n    z.jpg: file_type:jpg, holiday\n"
    );
}

#[test]
fn search_text_of_nothing_is_empty() {
    assert_eq!(render_search(&vec![], &vec![]), "");
}

#[test]
fn search_text_of_full_matches_alone() {
    let full = vec![file("a", vec![name("t")])];
    assert_eq!(render_search(&full, &vec![]), "Full matches:\n    a: t\n");
}

#[test]
fn joined_files_and_tags() {
    let files = vec![file("a", vec![name("t")]), file("b", vec![name("u"), name("v")])];
    assert_eq!(join_vec(files, "\n    "), "a: t\n    b: u, v");
    assert_eq!(join_vec(Vec::<FTagFile>::new(), "\n"), "");
    assert_eq!(join_vec(vec![name("u"), single("v", "w")], ", "), "u, v:w");
    assert_eq!(join_vec(Vec::<FTag>::new(), ", "), "");
}

#[test]
fn list_tags_sorts_and_drops_repeats() {
    let db: FTagList = vec![
        file("a", vec![name("shared"), single("hue", "x"), list("hue", &["x"])]),
        file("b", vec![name("hue"), name("shared"), single("hue", "a")]),
    ];
    assert_eq!(
        list_tags(&db),
        vec![name("hue"), single("hue", "a"), single("hue", "x"), list("hue", &["x"]), name("shared")]
    );
}

#[test]
fn list_tags_holds_a_shared_tag_once() {
    let db: FTagList = vec![file("a", vec![single("t", "v")]), file("b", vec![single("t", "v")])];
    assert_eq!(list_tags(&db), vec![single("t", "v")]);
}

#[test]
fn list_tags_twice_gives_the_same() {
    let db = photos();
    let once = list_tags(&db);
    assert_eq!(list_tags(&db), once);
    let again: FTagList = vec![file("all", once.clone())];
    assert_eq!(list_tags(&again), once);
}

#[test]
fn list_tags_of_nothing() {
    assert_eq!(list_tags(&vec![]), vec![]);
    assert_eq!(list_tags(&vec![file("a", vec![])]), vec![]);
}

#[test]
fn listing_as_text() {
    let tags = list_tags(&photos());
    assert_eq!(
        render_tags(&tags, false),
        "file_type:jpg, file_type:png, holiday, people:[ann bob], todo"
    );
    assert_eq!(
        render_tags(&tags, true),
        "file_type:jpg\nfile_type:png\nholiday\npeople:[ann bob]\ntodo"
    );
    assert_eq!(render_tags(&vec![], true), "");
}

#[test]
fn search_after_decoding() {
    let db = FTagList::from_string("b: x:1\na: x:2, y\n".to_string()).unwrap();
    let (full, partial) = search(&db, &vec![FTag::from_str("x:2").unwrap()]);
    assert_eq!(full.to_string(), "a: x:2, y");
    assert_eq!(partial.to_string(), "a: x:2, y\nb: x:1");
}
