//! Device-compatibility rewriting of resolved media URLs.
//!
//! The target player speaks plain HTTP and cannot handle query parameters, so
//! every resolved URL has an `https` scheme rewritten to `http` and its query
//! string removed before it enters a playlist.

use crate::bytes::{
    clone_bytes, find, find_byte_before, has_prefix, lemma_find_props, lemma_find_unique,
    push_range, B_COLON, B_H, B_HASH, B_P, B_QMARK, B_S, B_SLASH, B_T,
};
use vstd::prelude::*;

verus! {

/// The bytes of `https://`.
pub open spec fn https_prefix() -> Seq<u8> {
    seq![B_H, B_T, B_T, B_P, B_S, B_COLON, B_SLASH, B_SLASH]
}

/// The bytes of `http://`.
pub open spec fn http_prefix() -> Seq<u8> {
    seq![B_H, B_T, B_T, B_P, B_COLON, B_SLASH, B_SLASH]
}

/// `s` with a leading `https://` replaced by `http://`; otherwise `s` itself.
pub open spec fn spec_swap_scheme(s: Seq<u8>) -> Seq<u8> {
    if has_prefix(s, https_prefix()) {
        http_prefix() + s.skip(8)
    } else {
        s
    }
}

/// `s` with its query string removed: everything from the first `?` up to the
/// fragment (the first `#`), or to the end when there is no fragment.
pub open spec fn spec_strip_query(s: Seq<u8>) -> Seq<u8> {
    let h = find(s, B_HASH);
    let q = find(s.take(h), B_QMARK);
    s.take(q) + s.skip(h)
}

/// A `?` occurs before the fragment, i.e. the URL carries a query string.
pub open spec fn spec_has_query(s: Seq<u8>) -> bool {
    find(s.take(find(s, B_HASH)), B_QMARK) < find(s, B_HASH)
}

/// The device-safe form of a resolved URL: scheme rewrite, then query removal.
pub open spec fn spec_normalize_url(s: Seq<u8>) -> Seq<u8> {
    spec_strip_query(spec_swap_scheme(s))
}

/// Whether `url` starts with `https://`.
fn has_https_scheme(url: &Vec<u8>) -> (r: bool)
    ensures
        r == has_prefix(url@, https_prefix()),
{
    if url.len() < 8 {
        return false;
    }
    let r = url[0] == B_H && url[1] == B_T && url[2] == B_T && url[3] == B_P && url[4]
        == B_S && url[5] == B_COLON && url[6] == B_SLASH && url[7] == B_SLASH;
    proof {
        if r {
            assert forall|i: int| 0 <= i < 8 implies url@[i] == https_prefix()[i] by {
                assert(https_prefix()[0] == B_H);
                assert(https_prefix()[1] == B_T);
                assert(https_prefix()[2] == B_T);
                assert(https_prefix()[3] == B_P);
                assert(https_prefix()[4] == B_S);
                assert(https_prefix()[5] == B_COLON);
                assert(https_prefix()[6] == B_SLASH);
                assert(https_prefix()[7] == B_SLASH);
            }
        } else {
            if has_prefix(url@, https_prefix()) {
                assert(url@[0] == https_prefix()[0]);
                assert(url@[1] == https_prefix()[1]);
                assert(url@[2] == https_prefix()[2]);
                assert(url@[3] == https_prefix()[3]);
                assert(url@[4] == https_prefix()[4]);
                assert(url@[5] == https_prefix()[5]);
                assert(url@[6] == https_prefix()[6]);
                assert(url@[7] == https_prefix()[7]);
                assert(false);
            }
        }
    }
    r
}

/// Rewrites a leading `https://` to `http://`, leaving other URLs unchanged.
fn swap_scheme(url: &Vec<u8>) -> (r: Vec<u8>)
    ensures
        r@ == spec_swap_scheme(url@),
{
    if !has_https_scheme(url) {
        return clone_bytes(url);
    }
    let mut out: Vec<u8> = Vec::new();
    out.push(B_H);
    out.push(B_T);
    out.push(B_T);
    out.push(B_P);
    out.push(B_COLON);
    out.push(B_SLASH);
    out.push(B_SLASH);
    proof {
        assert(out@ =~= http_prefix());
    }
    push_range(&mut out, url, 8, url.len());
    proof {
        assert(url@.subrange(8, url@.len() as int) =~= url@.skip(8));
    }
    out
}

/// Removes the query string, keeping any fragment.
fn strip_query(url: &Vec<u8>) -> (r: Vec<u8>)
    ensures
        r@ == spec_strip_query(url@),
{
    proof {
        assert(url@.take(url@.len() as int) =~= url@);
    }
    let h = find_byte_before(url, B_HASH, url.len());
    let q = find_byte_before(url, B_QMARK, h);
    proof {
        lemma_find_props(url@.take(h as int), B_QMARK);
    }
    let mut out: Vec<u8> = Vec::new();
    push_range(&mut out, url, 0, q);
    push_range(&mut out, url, h, url.len());
    proof {
        assert(url@.subrange(0, q as int) =~= url@.take(q as int));
        assert(url@.subrange(h as int, url@.len() as int) =~= url@.skip(h as int));
        assert(out@ =~= spec_strip_query(url@));
    }
    out
}

/// Produces the device-safe form of a resolved media URL.
pub fn normalize_url(url: &Vec<u8>) -> (r: Vec<u8>)
    ensures
        r@ == spec_normalize_url(url@),
{
    let swapped = swap_scheme(url);
    strip_query(&swapped)
}

/// Shape of query removal: the bytes before the query survive unchanged, the
/// first `#` of the result sits where the `?` sat, and the result carries no
/// query string of its own.
proof fn lemma_strip_query_shape(t: Seq<u8>)
    ensures
        !spec_has_query(spec_strip_query(t)),
        spec_strip_query(t).len() == find(t.take(find(t, B_HASH)), B_QMARK) + t.len() - find(
            t,
            B_HASH,
        ),
        forall|i: int|
            0 <= i < find(t.take(find(t, B_HASH)), B_QMARK) ==> spec_strip_query(t)[i] == t[i],
{
    let h = find(t, B_HASH);
    let q = find(t.take(h), B_QMARK);
    lemma_find_props(t, B_HASH);
    lemma_find_props(t.take(h), B_QMARK);
    let r = spec_strip_query(t);
    assert(t.take(h).len() == h);
    assert(r.len() == q + (t.len() - h));
    assert forall|i: int| 0 <= i < q implies r[i] == t[i] by {
        assert(r[i] == t.take(q)[i]);
    }
    assert forall|i: int| 0 <= i < q implies r[i] != B_HASH by {
        assert(t.take(h)[i] == t[i]);
        assert(r[i] == t[i]);
    }
    if h < t.len() {
        assert(r[q] == t.skip(h)[0]);
        assert(t.skip(h)[0] == t[h]);
        lemma_find_unique(r, B_HASH, q);
    } else {
        assert(r.len() == q);
        lemma_find_unique(r, B_HASH, q);
    }
    assert(find(r, B_HASH) == q);
    assert(r.take(q) =~= t.take(q));
    assert forall|i: int| 0 <= i < q implies t.take(q)[i] != B_QMARK by {
        assert(t.take(h)[i] == t[i]);
        assert(t.take(q)[i] == t[i]);
    }
    lemma_find_unique(t.take(q), B_QMARK, q);
    assert(find(r.take(find(r, B_HASH)), B_QMARK) == q);
}

/// URL normalization law: a URL with the `https` scheme comes out with the
/// `http` scheme, a normalized URL never carries a query string, and an
/// `http` URL without a query string is left unchanged.
pub proof fn lemma_url_normalization(s: Seq<u8>)
    ensures
        has_prefix(s, https_prefix()) ==> has_prefix(spec_normalize_url(s), http_prefix()),
        !spec_has_query(spec_normalize_url(s)),
        has_prefix(s, http_prefix()) && !spec_has_query(s) ==> spec_normalize_url(s) == s,
{
    let t = spec_swap_scheme(s);
    lemma_strip_query_shape(t);
    let h = find(t, B_HASH);
    let q = find(t.take(h), B_QMARK);
    lemma_find_props(t, B_HASH);
    lemma_find_props(t.take(h), B_QMARK);
    let r = spec_strip_query(t);
    assert(t.take(h).len() == h);
    assert(http_prefix()[0] == B_H);
    assert(http_prefix()[1] == B_T);
    assert(http_prefix()[2] == B_T);
    assert(http_prefix()[3] == B_P);
    assert(http_prefix()[4] == B_COLON);
    assert(http_prefix()[5] == B_SLASH);
    assert(http_prefix()[6] == B_SLASH);
    if has_prefix(s, https_prefix()) {
        assert(t == http_prefix() + s.skip(8));
        assert forall|i: int| 0 <= i < 7 implies t[i] == http_prefix()[i] by {}
        assert(h >= 7) by {
            if h < 7 {
                assert(t[h] == B_HASH);
                assert(t[h] == http_prefix()[h]);
                assert(false);
            }
        }
        assert(q >= 7) by {
            if q < 7 {
                assert(t.take(h)[q] == B_QMARK);
                assert(t.take(h)[q] == t[q]);
                assert(t[q] == http_prefix()[q]);
                assert(false);
            }
        }
        assert(r.len() >= 7);
        assert forall|i: int| 0 <= i < 7 implies r[i] == http_prefix()[i] by {
            assert(r[i] == t[i]);
        }
        assert(has_prefix(r, http_prefix()));
    }
    if has_prefix(s, http_prefix()) && !spec_has_query(s) {
        assert(!has_prefix(s, https_prefix())) by {
            if has_prefix(s, https_prefix()) {
                assert(s[4] == https_prefix()[4]);
                assert(https_prefix()[4] == B_S);
                assert(s[4] == http_prefix()[4]);
                assert(false);
            }
        }
        assert(t == s);
        assert(q <= h);
        assert(q == h);
        assert(t.take(h) + t.skip(h) =~= t);
        assert(r == s);
    }
}

} // verus!
