use logcrab::bookmarks::SourceBookmarks;

#[test]
fn bookmarks_by_line() {
    let mut b = SourceBookmarks::new();
    assert!(!b.has_bookmark(3));
    b.set_bookmark(3, "crash".to_string());
    b.set_bookmark(7, "boot".to_string());
    assert!(b.has_bookmark(3));
    let got = b.get_bookmark(3).expect("bookmarked");
    assert_eq!((got.line_index, got.name.as_str()), (3, "crash"));
    // Setting again replaces the name.
    b.set_bookmark(3, "first crash".to_string());
    assert_eq!(b.get_bookmark(3).map(|x| x.name), Some("first crash".to_string()));
    let removed = b.remove_bookmark(7).expect("was bookmarked");
    assert_eq!(removed.name, "boot");
    assert!(b.remove_bookmark(7).is_none());
    assert!(b.get_bookmark(7).is_none());
}

#[test]
fn all_bookmarks_listed_once() {
    let mut b = SourceBookmarks::new();
    for i in [5usize, 1, 9, 5] {
        b.set_bookmark(i, format!("line {i}"));
    }
    let mut all: Vec<(usize, String)> = b.get_bookmarks().into_iter().map(|x| (x.line_index, x.name)).collect();
    all.sort();
    assert_eq!(
        all,
        vec![(1, "line 1".to_string()), (5, "line 5".to_string()), (9, "line 9".to_string())]
    );
}
