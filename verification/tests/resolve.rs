use espuino_sync::feed::{resolve_entries, FeedEntry, MediaContentRef, MediaEnclosure};
use espuino_sync::playlist::Playlist;
use espuino_sync::SyncError;

// Parses a document with feed-rs, reduces each entry to its media URL
// structure, and resolves the entries — the same composition the program
// performs at its fetch-and-parse edge.
fn resolve_feed(
    body: &[u8],
    truncate: Option<usize>,
    reverse: bool,
) -> Result<Playlist, SyncError> {
    let feed = feed_rs::parser::parse(body).map_err(|_| SyncError::Parse)?;
    let entries: Vec<FeedEntry> = feed
        .entries
        .into_iter()
        .map(|e| FeedEntry {
            media: e
                .media
                .into_iter()
                .map(|m| MediaEnclosure {
                    content: m
                        .content
                        .into_iter()
                        .map(|c| MediaContentRef {
                            url: c.url.map(|u| u.as_str().as_bytes().to_vec()),
                        })
                        .collect(),
                })
                .collect(),
        })
        .collect();
    resolve_entries(&entries, truncate, reverse)
}

fn rss_with_enclosures(urls: &[&str]) -> Vec<u8> {
    let mut items = String::new();
    for (i, url) in urls.iter().enumerate() {
        items.push_str(&format!(
            "<item><title>episode {}</title>\
             <enclosure url=\"{}\" length=\"1\" type=\"audio/mpeg\"/></item>",
            i, url
        ));
    }
    format!(
        "<?xml version=\"1.0\" encoding=\"UTF-8\"?>\
         <rss version=\"2.0\"><channel><title>show</title>{}</channel></rss>",
        items
    )
    .into_bytes()
}

fn entry(url: Option<&[u8]>) -> FeedEntry {
    FeedEntry {
        media: vec![MediaEnclosure {
            content: vec![MediaContentRef {
                url: url.map(|u| u.to_vec()),
            }],
        }],
    }
}

#[test]
fn feed_order_kept_without_policy() {
    let body = rss_with_enclosures(&[
        "https://cdn.example.com/1.mp3?sig=a",
        "https://cdn.example.com/2.mp3?sig=b",
        "https://cdn.example.com/3.mp3?sig=c",
    ]);
    let playlist = resolve_feed(&body, None, false).unwrap();
    assert_eq!(
        playlist.urls,
        vec![
            b"http://cdn.example.com/1.mp3".to_vec(),
            b"http://cdn.example.com/2.mp3".to_vec(),
            b"http://cdn.example.com/3.mp3".to_vec(),
        ]
    );
}

#[test]
fn reverse_then_truncate_keeps_last_entry() {
    let body = rss_with_enclosures(&[
        "http://cdn.example.com/newest.mp3",
        "http://cdn.example.com/2.mp3",
        "http://cdn.example.com/3.mp3",
        "http://cdn.example.com/4.mp3",
        "http://cdn.example.com/oldest.mp3",
    ]);
    let playlist = resolve_feed(&body, Some(1), true).unwrap();
    assert_eq!(playlist.urls, vec![b"http://cdn.example.com/oldest.mp3".to_vec()]);
}

#[test]
fn truncate_without_reverse_keeps_head() {
    let body = rss_with_enclosures(&[
        "http://cdn.example.com/1.mp3",
        "http://cdn.example.com/2.mp3",
        "http://cdn.example.com/3.mp3",
    ]);
    let playlist = resolve_feed(&body, Some(2), false).unwrap();
    assert_eq!(
        playlist.urls,
        vec![
            b"http://cdn.example.com/1.mp3".to_vec(),
            b"http://cdn.example.com/2.mp3".to_vec(),
        ]
    );
}

#[test]
fn reverse_inverts_whole_feed() {
    let body = rss_with_enclosures(&["http://h/1.mp3", "http://h/2.mp3", "http://h/3.mp3"]);
    let playlist = resolve_feed(&body, None, true).unwrap();
    assert_eq!(
        playlist.urls,
        vec![
            b"http://h/3.mp3".to_vec(),
            b"http://h/2.mp3".to_vec(),
            b"http://h/1.mp3".to_vec(),
        ]
    );
}

#[test]
fn truncation_larger_than_feed_keeps_all() {
    let body = rss_with_enclosures(&["http://h/1.mp3", "http://h/2.mp3"]);
    let playlist = resolve_feed(&body, Some(10), false).unwrap();
    assert_eq!(playlist.urls.len(), 2);
}

#[test]
fn unparseable_body_is_a_parse_error() {
    let body = b"this is not a feed".to_vec();
    let r = resolve_feed(&body, None, false);
    assert_eq!(r.unwrap_err(), SyncError::Parse);
}

#[test]
fn entry_without_enclosure_fails_resolution() {
    let body = format!(
        "<?xml version=\"1.0\" encoding=\"UTF-8\"?>\
         <rss version=\"2.0\"><channel><title>show</title>\
         <item><title>with</title>\
         <enclosure url=\"http://h/1.mp3\" length=\"1\" type=\"audio/mpeg\"/></item>\
         <item><title>without</title></item>\
         </channel></rss>"
    )
    .into_bytes();
    let r = resolve_feed(&body, None, false);
    assert_eq!(r.unwrap_err(), SyncError::MissingMedia);
}

#[test]
fn entries_resolve_in_order() {
    let entries = vec![
        entry(Some(b"https://h/a.mp3?x=1")),
        entry(Some(b"http://h/b.mp3")),
    ];
    let playlist = resolve_entries(&entries, None, false).unwrap();
    assert_eq!(
        playlist.urls,
        vec![b"http://h/a.mp3".to_vec(), b"http://h/b.mp3".to_vec()]
    );
}

#[test]
fn entry_with_empty_media_is_missing() {
    let entries = vec![entry(Some(b"http://h/a.mp3")), FeedEntry { media: vec![] }];
    let r = resolve_entries(&entries, None, false);
    assert_eq!(r.unwrap_err(), SyncError::MissingMedia);
}

#[test]
fn entry_with_empty_content_is_missing() {
    let entries = vec![FeedEntry {
        media: vec![MediaEnclosure { content: vec![] }],
    }];
    let r = resolve_entries(&entries, None, false);
    assert_eq!(r.unwrap_err(), SyncError::MissingMedia);
}

#[test]
fn entry_with_no_url_is_missing() {
    let entries = vec![entry(None)];
    let r = resolve_entries(&entries, None, false);
    assert_eq!(r.unwrap_err(), SyncError::MissingMedia);
}
