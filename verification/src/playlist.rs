//! Playlists and their wire format.
//!
//! A playlist is the ordered list of device-safe media URLs resolved for one
//! subscription. The wire format is plain M3U: each URL on its own line,
//! newline-terminated, with no extended directives. The same serialization
//! feeds both sinks — a local file and the in-memory buffer that is uploaded.

use crate::bytes::{push_range, B_NL};
use vstd::prelude::*;

verus! {

/// An ordered list of device-safe media URLs for one subscription.
#[derive(Debug)]
pub struct Playlist {
    /// The URLs in final playback order.
    pub urls: Vec<Vec<u8>>,
}

/// The byte sequences held by a list of byte vectors.
pub open spec fn urls_view(v: Seq<Vec<u8>>) -> Seq<Seq<u8>> {
    v.map_values(|u: Vec<u8>| u@)
}

impl View for Playlist {
    type V = Seq<Seq<u8>>;

    open spec fn view(&self) -> Seq<Seq<u8>> {
        urls_view(self.urls@)
    }
}

impl Playlist {
    /// Number of entries in the playlist.
    pub fn len(&self) -> (r: usize)
        ensures
            r == self@.len(),
    {
        self.urls.len()
    }
}

/// One playlist line: the URL bytes followed by a line feed.
pub open spec fn spec_m3u_line(url: Seq<u8>) -> Seq<u8> {
    url + seq![B_NL]
}

/// The playlist wire format: each URL on its own newline-terminated line.
pub open spec fn spec_m3u_bytes(urls: Seq<Seq<u8>>) -> Seq<u8>
    decreases urls.len(),
{
    if urls.len() == 0 {
        Seq::empty()
    } else {
        spec_m3u_line(urls[0]) + spec_m3u_bytes(urls.skip(1))
    }
}

pub proof fn lemma_m3u_bytes_push(urls: Seq<Seq<u8>>, url: Seq<u8>)
    ensures
        spec_m3u_bytes(urls.push(url)) == spec_m3u_bytes(urls) + spec_m3u_line(url),
    decreases urls.len(),
{
    if urls.len() == 0 {
        assert(urls.push(url).skip(1) =~= Seq::<Seq<u8>>::empty());
        assert(urls.push(url)[0] == url);
        assert(spec_m3u_bytes(urls.push(url).skip(1)) == Seq::<u8>::empty());
        assert(spec_m3u_bytes(urls.push(url)) =~= spec_m3u_line(url));
        assert(spec_m3u_bytes(urls) + spec_m3u_line(url) =~= spec_m3u_line(url));
    } else {
        assert(urls.push(url).skip(1) =~= urls.skip(1).push(url));
        lemma_m3u_bytes_push(urls.skip(1), url);
        assert(spec_m3u_line(urls.push(url)[0]) + (spec_m3u_bytes(urls.skip(1))
            + spec_m3u_line(url)) =~= (spec_m3u_line(urls[0]) + spec_m3u_bytes(urls.skip(1)))
            + spec_m3u_line(url));
    }
}

/// Serializes a playlist into its M3U wire bytes.
pub fn serialize_playlist(p: &Playlist) -> (r: Vec<u8>)
    ensures
        r@ == spec_m3u_bytes(p@),
{
    let mut out: Vec<u8> = Vec::new();
    let mut i: usize = 0;
    while i < p.urls.len()
        invariant
            i <= p.urls@.len(),
            out@ == spec_m3u_bytes(p@.take(i as int)),
        decreases p.urls@.len() - i,
    {
        let url = &p.urls[i];
        push_range(&mut out, url, 0, url.len());
        out.push(B_NL);
        proof {
            assert(p@[i as int] == p.urls@[i as int]@);
            assert(url@.subrange(0, url@.len() as int) =~= url@);
            assert(p@.take(i as int + 1) =~= p@.take(i as int).push(p@[i as int]));
            lemma_m3u_bytes_push(p@.take(i as int), p@[i as int]);
            assert(out@ =~= spec_m3u_bytes(p@.take(i as int)) + spec_m3u_line(p@[i as int]));
        }
        i += 1;
    }
    proof {
        assert(p@.take(p.urls@.len() as int) =~= p@);
    }
    out
}

/// Serialization is a pure function of the playlist's URL sequence: two
/// serializations of the same resolved playlist are byte-identical.
pub proof fn lemma_serialize_deterministic(a: Seq<Seq<u8>>, b: Seq<Seq<u8>>)
    requires
        a == b,
    ensures
        spec_m3u_bytes(a) == spec_m3u_bytes(b),
{
}

} // verus!
