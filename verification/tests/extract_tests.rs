use setlist_jwt::errors::ExtractionError;
use setlist_jwt::extract::scrape_songs_from_setlist;

#[test]
fn two_songs_in_document_order() {
    let html = "<div class=\"setlistList\"><ol><li><a class=\"songLabel\">Song A</a></li><li><a class=\"songLabel\">Song B</a></li></ol></div>";
    let titles = scrape_songs_from_setlist(html).unwrap();
    assert_eq!(titles, vec!["Song A".to_string(), "Song B".to_string()]);
}

#[test]
fn empty_body_fails() {
    let r = scrape_songs_from_setlist("");
    assert_eq!(r, Err(ExtractionError::NoContainer));
}

#[test]
fn missing_marker_class_fails() {
    let html = "<div class=\"other\"><ol><li><a class=\"songLabel\">Song A</a></li></ol></div>";
    assert_eq!(scrape_songs_from_setlist(html), Err(ExtractionError::NoContainer));
}

#[test]
fn error_page_yields_extraction_error() {
    let html = "<html><head><title>404</title></head><body><h1>404 Not Found</h1><p>no setlist here</p></body></html>";
    assert_eq!(scrape_songs_from_setlist(html), Err(ExtractionError::NoContainer));
}

#[test]
fn unlabelled_anchor_is_excluded() {
    let html = "<div class=\"setlistList\"><ol><li><a href=\"#\">Not a song</a><a class=\"songLabel\">Kept</a></li></ol></div>";
    let titles = scrape_songs_from_setlist(html).unwrap();
    assert_eq!(titles, vec!["Kept".to_string()]);
}

#[test]
fn anchor_outside_list_item_is_excluded() {
    let html = "<div class=\"setlistList\"><a class=\"songLabel\">Stray</a><ol><li><a class=\"songLabel\">In list</a></li></ol></div>";
    let titles = scrape_songs_from_setlist(html).unwrap();
    assert_eq!(titles, vec!["In list".to_string()]);
}

#[test]
fn three_items_keep_order() {
    let html = "<div class=\"setlistList\"><ul><li><a class=\"songLabel\">One</a></li><li><a class=\"songLabel\">Two</a></li><li><a class=\"songLabel\">Three</a></li></ul></div>";
    let titles = scrape_songs_from_setlist(html).unwrap();
    assert_eq!(
        titles,
        vec!["One".to_string(), "Two".to_string(), "Three".to_string()]
    );
}

#[test]
fn anchor_text_is_concatenated_and_untrimmed() {
    let html = "<div class=\"setlistList\"><ol><li><a class=\"songLabel\"> Fo<span>o </span>Bar</a></li></ol></div>";
    let titles = scrape_songs_from_setlist(html).unwrap();
    assert_eq!(titles, vec![" Foo Bar".to_string()]);
}

#[test]
fn first_container_wins() {
    let html = "<div class=\"setlistList\"><ol><li><a class=\"songLabel\">First</a></li></ol></div><div class=\"setlistList\"><ol><li><a class=\"songLabel\">Second</a></li></ol></div>";
    let titles = scrape_songs_from_setlist(html).unwrap();
    assert_eq!(titles, vec!["First".to_string()]);
}

#[test]
fn marker_class_among_others_matches() {
    let html = "<div class=\"wide setlistList dark\"><ol><li><a class=\"link songLabel\">Song</a></li></ol></div>";
    let titles = scrape_songs_from_setlist(html).unwrap();
    assert_eq!(titles, vec!["Song".to_string()]);
}

#[test]
fn marker_class_is_case_sensitive() {
    let html = "<div class=\"setlistlist\"><ol><li><a class=\"songLabel\">Song</a></li></ol></div>";
    assert_eq!(scrape_songs_from_setlist(html), Err(ExtractionError::NoContainer));
}

#[test]
fn duplicate_titles_are_kept() {
    let html = "<div class=\"setlistList\"><ol><li><a class=\"songLabel\">Encore</a></li><li><a class=\"songLabel\">Encore</a></li></ol></div>";
    let titles = scrape_songs_from_setlist(html).unwrap();
    assert_eq!(titles, vec!["Encore".to_string(), "Encore".to_string()]);
}
