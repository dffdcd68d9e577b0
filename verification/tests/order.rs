use ftags::compare::{compare_chars, compare_data, compare_text, compare_vecs, same, Ranked};
use ftags::listing::list_tags;
use ftags::order::Order;
use ftags::sort::sort;
use ftags::{FTag, FTagData, FTagFile};
use std::cmp::Ordering;

fn name(n: &str) -> FTag {
    FTag { name: n.to_string(), data: None }
}

fn single(n: &str, v: &str) -> FTag {
    FTag { name: n.to_string(), data: Some(FTagData::Single(v.to_string())) }
}

fn list(n: &str, items: &[&str]) -> FTag {
    FTag {
        name: n.to_string(),
        data: Some(FTagData::List(items.iter().map(|s| s.to_string()).collect())),
    }
}

fn file(path: &str, tags: Vec<FTag>) -> FTagFile {
    FTagFile { file: path.to_string(), tags }
}

fn as_order(o: Ordering) -> Order {
    match o {
        Ordering::Less => Order::Before,
        Ordering::Equal => Order::Same,
        Ordering::Greater => Order::After,
    }
}

fn sample_texts() -> Vec<&'static str> {
    vec!["", "a", "A", "ab", "abc", "b", "a b", "\u{e9}", "\u{7f}", "\u{80}", "\u{ffff}", "\u{10000}", "z\u{1f600}", "zz"]
}

fn sample_tags() -> Vec<FTag> {
    vec![
        name(""),
        name("a"),
        name("b"),
        single("a", ""),
        single("a", "x"),
        single("a", "y"),
        single("b", "x"),
        list("a", &[]),
        list("a", &[""]),
        list("a", &["x"]),
        list("a", &["x", "y"]),
        list("a", &["y"]),
        list("b", &[]),
    ]
}

fn sample_files() -> Vec<FTagFile> {
    let mut out = Vec::new();
    for path in ["", "a", "a/b", "b"] {
        out.push(file(path, vec![]));
        out.push(file(path, vec![name("a")]));
        out.push(file(path, vec![name("a"), name("b")]));
        out.push(file(path, vec![single("a", "x")]));
        out.push(file(path, vec![name("b")]));
    }
    out
}

#[test]
fn characters_are_ordered_by_code_point() {
    assert_eq!(compare_chars('a', 'b'), Order::Before);
    assert_eq!(compare_chars('b', 'a'), Order::After);
    assert_eq!(compare_chars('a', 'a'), Order::Same);
    assert_eq!(compare_chars('Z', 'a'), Order::Before);
    assert_eq!(compare_chars('\u{ffff}', '\u{10000}'), Order::Before);
}

#[test]
fn texts_are_ordered_as_strings_are() {
    for a in sample_texts() {
        for b in sample_texts() {
            assert_eq!(compare_text(a, b), as_order(a.cmp(b)), "{:?} {:?}", a, b);
            assert_eq!(a.to_string().compare(&b.to_string()), as_order(a.cmp(b)));
        }
    }
}

#[test]
fn a_prefix_comes_first() {
    assert_eq!(compare_text("ab", "abc"), Order::Before);
    assert_eq!(compare_text("abc", "ab"), Order::After);
    assert_eq!(compare_text("", "a"), Order::Before);
}

#[test]
fn values_are_ordered_as_derived() {
    let values: Vec<Option<FTagData>> = sample_tags().into_iter().map(|t| t.data).collect();
    for a in &values {
        for b in &values {
            assert_eq!(compare_data(a, b), as_order(a.cmp(b)), "{:?} {:?}", a, b);
            if let (Some(x), Some(y)) = (a, b) {
                assert_eq!(x.compare(y), as_order(x.cmp(y)));
            }
        }
    }
}

#[test]
fn no_value_then_scalar_then_list() {
    assert_eq!(name("a").compare(&single("a", "")), Order::Before);
    assert_eq!(single("a", "zzz").compare(&list("a", &[])), Order::Before);
    assert_eq!(list("a", &[]).compare(&name("a")), Order::After);
    assert_eq!(list("a", &["x"]).compare(&list("a", &["x", ""])), Order::Before);
}

#[test]
fn tags_are_ordered_by_name_first() {
    assert_eq!(list("a", &["z"]).compare(&name("b")), Order::Before);
    for a in sample_tags() {
        for b in sample_tags() {
            assert_eq!(a.compare(&b), as_order(a.cmp(&b)), "{:?} {:?}", a, b);
            assert_eq!(same(&a, &b), a == b);
        }
    }
}

#[test]
fn records_are_ordered_by_path_first() {
    assert_eq!(file("a", vec![name("z")]).compare(&file("b", vec![])), Order::Before);
    assert_eq!(file("a", vec![]).compare(&file("a", vec![name("")])), Order::Before);
    for a in sample_files() {
        for b in sample_files() {
            assert_eq!(a.compare(&b), as_order(a.cmp(&b)), "{:?} {:?}", a, b);
            assert_eq!(same(&a, &b), a == b);
        }
    }
}

#[test]
fn vectors_are_ordered_by_their_first_difference() {
    let a = vec!["a".to_string(), "b".to_string()];
    let b = vec!["a".to_string(), "c".to_string()];
    let c = vec!["a".to_string()];
    assert_eq!(compare_vecs(&a, &b), Order::Before);
    assert_eq!(compare_vecs(&b, &a), Order::After);
    assert_eq!(compare_vecs(&c, &a), Order::Before);
    assert_eq!(compare_vecs(&a, &a), Order::Same);
    assert_eq!(compare_vecs(&Vec::<String>::new(), &c), Order::Before);
}

#[test]
fn sort_orders_and_keeps_repeats() {
    let mut files = sample_files();
    files.reverse();
    files.extend(sample_files());
    files.swap(3, 17);
    let mut want = files.clone();
    want.sort();
    assert_eq!(sort(files), want);
}

#[test]
fn sort_of_strings() {
    let v: Vec<String> = ["pear", "apple", "", "fig", "apple", "Apple"].iter().map(|s| s.to_string()).collect();
    let mut want = v.clone();
    want.sort();
    assert_eq!(sort(v), want);
    assert_eq!(sort(Vec::<String>::new()), Vec::<String>::new());
}

#[test]
fn listing_drops_repeats() {
    let mut tags = sample_tags();
    tags.extend(sample_tags());
    tags.push(name("a"));
    let mut want = tags.clone();
    want.sort();
    want.dedup();
    assert_eq!(want.len(), sample_tags().len());
    assert_eq!(list_tags(&vec![file("p", tags.clone()), file("q", tags)]), want);
}

#[test]
fn sort_of_many() {
    let mut seed: u64 = 12345;
    let mut v: Vec<String> = Vec::new();
    for _ in 0..2000 {
        seed = seed.wrapping_mul(6364136223846793005).wrapping_add(1442695040888963407);
        v.push(format!("{}", (seed >> 33) % 500));
    }
    let mut want = v.clone();
    want.sort();
    assert_eq!(sort(v), want);
}

#[test]
fn sort_of_one_and_two() {
    assert_eq!(sort(vec![name("a")]), vec![name("a")]);
    assert_eq!(sort(vec![name("b"), name("a")]), vec![name("a"), name("b")]);
    assert_eq!(sort(vec![name("a"), name("b")]), vec![name("a"), name("b")]);
    assert_eq!(sort(vec![name("a"), name("a")]), vec![name("a"), name("a")]);
}
