//! Feed resolution: from parsed feed entries to a playlist.
//!
//! The caller parses a fetched syndication document and hands the entries in
//! as plain values; each entry must carry a resolvable enclosure — the first
//! content URL of its first media object — or resolution of the whole feed
//! fails. Every resolved URL is rewritten to its device-safe form, and the
//! subscription's ordering policy (optional reversal, then optional
//! truncation) shapes the final playlist.

use crate::playlist::{urls_view, Playlist};
use crate::urlnorm::{normalize_url, spec_normalize_url};
use crate::SyncError;
use vstd::prelude::*;

verus! {

/// One content slot of a media object, holding its direct URL when given.
pub struct MediaContentRef {
    /// The content's URL as plain bytes, when the feed gave one.
    pub url: Option<Vec<u8>>,
}

/// One media object (enclosure) attached to a feed entry.
pub struct MediaEnclosure {
    /// The media object's content elements, in document order.
    pub content: Vec<MediaContentRef>,
}

/// One entry of a parsed feed, reduced to its attached media objects.
pub struct FeedEntry {
    /// The entry's media objects, in document order.
    pub media: Vec<MediaEnclosure>,
}

/// The URL slot of one content element.
pub open spec fn content_view(c: MediaContentRef) -> Option<Seq<u8>> {
    match c.url {
        Some(v) => Some(v@),
        None => None,
    }
}

/// The URL slots of one media object, in document order.
pub open spec fn enclosure_view(m: MediaEnclosure) -> Seq<Option<Seq<u8>>> {
    m.content@.map_values(|c: MediaContentRef| content_view(c))
}

/// The media objects of one entry, each as its URL slots.
pub open spec fn entry_view(e: FeedEntry) -> Seq<Seq<Option<Seq<u8>>>> {
    e.media@.map_values(|m: MediaEnclosure| enclosure_view(m))
}

/// The abstract shape of a whole parsed feed.
pub open spec fn feed_view(es: Seq<FeedEntry>) -> Seq<Seq<Seq<Option<Seq<u8>>>>> {
    es.map_values(|e: FeedEntry| entry_view(e))
}

/// The entry's resolvable enclosure URL: the first content URL of its first
/// media object, when both exist.
pub open spec fn spec_enclosure(e: Seq<Seq<Option<Seq<u8>>>>) -> Option<Seq<u8>> {
    if e.len() > 0 && e[0].len() > 0 {
        e[0][0]
    } else {
        None
    }
}

/// Every entry of the feed carries a resolvable enclosure URL.
pub open spec fn all_have_enclosure(feed: Seq<Seq<Seq<Option<Seq<u8>>>>>) -> bool {
    forall|i: int| 0 <= i < feed.len() ==> spec_enclosure(feed[i]) is Some
}

/// The device-safe URL of each entry's enclosure, in feed order.
pub open spec fn spec_resolved_urls(feed: Seq<Seq<Seq<Option<Seq<u8>>>>>) -> Seq<Seq<u8>>
    recommends
        all_have_enclosure(feed),
{
    feed.map_values(
        |e: Seq<Seq<Option<Seq<u8>>>>| spec_normalize_url(spec_enclosure(e).unwrap()),
    )
}

/// The subscription's ordering policy: optional full reversal, then optional
/// truncation to the first `n` elements.
pub open spec fn spec_apply_policy(
    urls: Seq<Seq<u8>>,
    truncate: Option<usize>,
    reverse: bool,
) -> Seq<Seq<u8>> {
    let ordered = if reverse {
        urls.reverse()
    } else {
        urls
    };
    match truncate {
        Some(n) => if (n as int) < ordered.len() {
            ordered.take(n as int)
        } else {
            ordered
        },
        None => ordered,
    }
}

/// Reverses the order of a URL list.
fn reverse_urls(v: Vec<Vec<u8>>) -> (r: Vec<Vec<u8>>)
    ensures
        urls_view(r@) == urls_view(v@).reverse(),
{
    let ghost orig = v@;
    let mut src = v;
    let mut out: Vec<Vec<u8>> = Vec::new();
    while src.len() > 0
        invariant
            src@.len() + out@.len() == orig.len(),
            src@ == orig.take(src@.len() as int),
            forall|j: int| 0 <= j < out@.len() ==> out@[j] == orig[orig.len() - 1 - j],
        decreases src@.len(),
    {
        let ghost pre = src@;
        let x = src.pop().unwrap();
        proof {
            assert(orig.take(pre.len() as int)[pre.len() - 1] == orig[pre.len() - 1]);
            assert(orig.take(pre.len() as int).subrange(0, pre.len() - 1) =~= orig.take(
                pre.len() - 1,
            ));
        }
        out.push(x);
    }
    proof {
        assert forall|j: int| 0 <= j < out@.len() implies urls_view(out@)[j] == urls_view(
            orig,
        ).reverse()[j] by {
            assert(out@[j] == orig[orig.len() - 1 - j]);
        }
        assert(urls_view(out@) =~= urls_view(orig).reverse());
    }
    out
}

/// Resolves parsed feed entries into a playlist under the given policy.
///
/// Succeeds exactly when every entry carries a resolvable enclosure; the
/// playlist then holds each enclosure's device-safe URL, reversed when
/// `reverse` is set and truncated to `truncate` elements when that is set.
pub fn resolve_entries(entries: &Vec<FeedEntry>, truncate: Option<usize>, reverse: bool) -> (r:
    Result<Playlist, SyncError>)
    ensures
        all_have_enclosure(feed_view(entries@)) ==> (r matches Ok(p) && p@ == spec_apply_policy(
            spec_resolved_urls(feed_view(entries@)),
            truncate,
            reverse,
        )),
        !all_have_enclosure(feed_view(entries@)) ==> (r matches Err(e) && e
            == SyncError::MissingMedia),
{
    let ghost feed = feed_view(entries@);
    let mut urls: Vec<Vec<u8>> = Vec::new();
    let mut i: usize = 0;
    while i < entries.len()
        invariant
            i <= entries@.len(),
            feed == feed_view(entries@),
            feed.len() == entries@.len(),
            forall|j: int| 0 <= j < i ==> spec_enclosure(feed[j]) is Some,
            urls_view(urls@) == spec_resolved_urls(feed.take(i as int)),
        decreases entries@.len() - i,
    {
        let e = &entries[i];
        proof {
            assert(feed[i as int] == entry_view(entries@[i as int]));
        }
        if e.media.len() == 0 {
            proof {
                assert(spec_enclosure(feed[i as int]) is None);
            }
            return Err(SyncError::MissingMedia);
        }
        let m = &e.media[0];
        proof {
            assert(feed[i as int][0] == enclosure_view(entries@[i as int].media@[0]));
        }
        if m.content.len() == 0 {
            proof {
                assert(spec_enclosure(feed[i as int]) is None);
            }
            return Err(SyncError::MissingMedia);
        }
        proof {
            assert(feed[i as int][0][0] == content_view(entries@[i as int].media@[0].content@[0]));
        }
        match &m.content[0].url {
            None => {
                proof {
                    assert(spec_enclosure(feed[i as int]) is None);
                }
                return Err(SyncError::MissingMedia);
            },
            Some(u) => {
                let nu = normalize_url(u);
                let ghost prior = urls@;
                urls.push(nu);
                proof {
                    assert(spec_enclosure(feed[i as int]) == Some(u@));
                    assert(urls@ == prior.push(nu));
                    assert(urls_view(prior).len() == prior.len());
                    assert(spec_resolved_urls(feed.take(i as int)).len() == i as int);
                    assert(prior.len() == i as int);
                    let lhs = urls_view(urls@);
                    let rhs = spec_resolved_urls(feed.take(i as int + 1));
                    assert forall|j: int| 0 <= j < i as int + 1 implies lhs[j] == rhs[j] by {
                        assert(feed.take(i as int + 1)[j] == feed[j]);
                        if j < i as int {
                            assert(urls@[j] == prior[j]);
                            assert(lhs[j] == urls_view(prior)[j]);
                            assert(urls_view(prior)[j] == spec_resolved_urls(
                                feed.take(i as int),
                            )[j]);
                            assert(feed.take(i as int)[j] == feed[j]);
                        } else {
                            assert(urls@[j] == nu);
                            assert(lhs[j] == nu@);
                        }
                    }
                    assert(lhs =~= rhs);
                }
            },
        }
        i += 1;
    }
    proof {
        assert(feed.take(entries@.len() as int) =~= feed);
    }
    let ordered = if reverse {
        reverse_urls(urls)
    } else {
        urls
    };
    let mut kept = ordered;
    if let Some(n) = truncate {
        let ghost before = kept@;
        kept.truncate(n);
        proof {
            if (n as int) < before.len() {
                assert(urls_view(kept@) =~= urls_view(before).take(n as int));
            }
        }
    }
    Ok(Playlist { urls: kept })
}

/// A feed whose entries each carry a resolvable enclosure resolves, under the
/// default policy (no truncation, no reversal), to exactly one URL per entry,
/// in feed order: entry `i` contributes the device-safe form of its enclosure.
pub proof fn lemma_resolve_keeps_feed_order(feed: Seq<Seq<Seq<Option<Seq<u8>>>>>)
    requires
        all_have_enclosure(feed),
    ensures
        spec_apply_policy(spec_resolved_urls(feed), None, false) == spec_resolved_urls(feed),
        spec_resolved_urls(feed).len() == feed.len(),
        forall|i: int|
            0 <= i < feed.len() ==> spec_resolved_urls(feed)[i] == spec_normalize_url(
                spec_enclosure(feed[i]).unwrap(),
            ),
{
}

/// The playlist invariant: the result of the ordering policy never exceeds
/// the truncation bound when one is set, and it is a prefix of either the
/// feed order or the fully reversed feed order — never partially reordered.
pub proof fn lemma_policy_shape(urls: Seq<Seq<u8>>, truncate: Option<usize>, reverse: bool)
    ensures
        truncate matches Some(n) ==> spec_apply_policy(urls, truncate, reverse).len() <= n,
        spec_apply_policy(urls, truncate, reverse).len() <= urls.len(),
        spec_apply_policy(urls, truncate, reverse) == if reverse {
            urls.reverse()
        } else {
            urls
        }.take(spec_apply_policy(urls, truncate, reverse).len() as int),
{
    let ordered = if reverse {
        urls.reverse()
    } else {
        urls
    };
    let r = spec_apply_policy(urls, truncate, reverse);
    assert(ordered.take(ordered.len() as int) =~= ordered);
}

/// Reversal followed by truncation to `k` keeps the last `k` URLs of the feed
/// order, reversed — never the first `k` of the original order.
pub proof fn lemma_reverse_then_truncate(urls: Seq<Seq<u8>>, k: usize)
    requires
        k as int <= urls.len(),
    ensures
        spec_apply_policy(urls, Some(k), true) == urls.skip(urls.len() - k as int).reverse(),
{
    let r1 = spec_apply_policy(urls, Some(k), true);
    let r2 = urls.skip(urls.len() - k as int).reverse();
    assert(r1.len() == k as int);
    assert(r2.len() == k as int);
    assert forall|i: int| 0 <= i < k as int implies r1[i] == r2[i] by {
        assert(r1[i] == urls.reverse()[i]);
        assert(urls.reverse()[i] == urls[urls.len() - 1 - i]);
        assert(r2[i] == urls.skip(urls.len() - k as int)[k as int - 1 - i]);
        assert(urls.skip(urls.len() - k as int)[k as int - 1 - i] == urls[urls.len() - 1 - i]);
    }
    assert(r1 =~= r2);
}

} // verus!
