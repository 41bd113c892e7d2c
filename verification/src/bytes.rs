//! Byte-sequence primitives shared by the URL and path logic: first/last
//! occurrence of a byte, prefix tests, and verified copying helpers.

use vstd::prelude::*;

verus! {

/// ASCII `h`.
pub const B_H: u8 = 104;

/// ASCII `t`.
pub const B_T: u8 = 116;

/// ASCII `p`.
pub const B_P: u8 = 112;

/// ASCII `s`.
pub const B_S: u8 = 115;

/// ASCII `u`.
pub const B_U: u8 = 117;

/// ASCII `m`.
pub const B_M: u8 = 109;

/// ASCII `3`.
pub const B_THREE: u8 = 51;

/// ASCII `:`.
pub const B_COLON: u8 = 58;

/// ASCII `/`.
pub const B_SLASH: u8 = 47;

/// ASCII `?`.
pub const B_QMARK: u8 = 63;

/// ASCII `#`.
pub const B_HASH: u8 = 35;

/// ASCII `.`.
pub const B_DOT: u8 = 46;

/// ASCII line feed.
pub const B_NL: u8 = 10;

/// Index of the first occurrence of `c` in `s`, or `s.len()` when `c` is absent.
pub open spec fn find(s: Seq<u8>, c: u8) -> int
    decreases s.len(),
{
    if s.len() == 0 {
        0
    } else if s[0] == c {
        0
    } else {
        1 + find(s.skip(1), c)
    }
}

/// Index of the last occurrence of `c` in `s`, or `-1` when `c` is absent.
pub open spec fn rfind(s: Seq<u8>, c: u8) -> int
    decreases s.len(),
{
    if s.len() == 0 {
        -1
    } else if s.last() == c {
        s.len() - 1
    } else {
        rfind(s.drop_last(), c)
    }
}

/// `p` is a prefix of `s`.
pub open spec fn has_prefix(s: Seq<u8>, p: Seq<u8>) -> bool {
    p.len() <= s.len() && forall|i: int| 0 <= i < p.len() ==> s[i] == p[i]
}

pub proof fn lemma_find_props(s: Seq<u8>, c: u8)
    ensures
        0 <= find(s, c) <= s.len(),
        forall|i: int| 0 <= i < find(s, c) ==> s[i] != c,
        find(s, c) < s.len() ==> s[find(s, c)] == c,
    decreases s.len(),
{
    if s.len() == 0 {
    } else if s[0] == c {
    } else {
        lemma_find_props(s.skip(1), c);
        assert forall|i: int| 0 <= i < find(s, c) implies s[i] != c by {
            if i >= 1 {
                assert(s.skip(1)[i - 1] == s[i]);
            }
        }
        if find(s, c) < s.len() {
            assert(s.skip(1)[find(s.skip(1), c)] == s[find(s, c)]);
        }
    }
}

/// The first occurrence is the only index left of which `c` is absent.
pub proof fn lemma_find_unique(s: Seq<u8>, c: u8, r: int)
    requires
        0 <= r <= s.len(),
        forall|i: int| 0 <= i < r ==> s[i] != c,
        r < s.len() ==> s[r] == c,
    ensures
        r == find(s, c),
{
    lemma_find_props(s, c);
    if r < find(s, c) {
        assert(s[r] != c);
        assert(false);
    } else if find(s, c) < r {
        assert(s[find(s, c)] == c);
        assert(s[find(s, c)] != c);
        assert(false);
    }
}

pub proof fn lemma_rfind_props(s: Seq<u8>, c: u8)
    ensures
        -1 <= rfind(s, c) < s.len(),
        forall|i: int| rfind(s, c) < i < s.len() ==> s[i] != c,
        rfind(s, c) >= 0 ==> s[rfind(s, c)] == c,
    decreases s.len(),
{
    if s.len() == 0 {
    } else if s.last() == c {
    } else {
        lemma_rfind_props(s.drop_last(), c);
        assert forall|i: int| rfind(s, c) < i < s.len() implies s[i] != c by {
            if i < s.len() - 1 {
                assert(s.drop_last()[i] == s[i]);
            }
        }
        if rfind(s, c) >= 0 {
            assert(s.drop_last()[rfind(s.drop_last(), c)] == s[rfind(s, c)]);
        }
    }
}

/// The last occurrence is the only index right of which `c` is absent.
pub proof fn lemma_rfind_unique(s: Seq<u8>, c: u8, r: int)
    requires
        -1 <= r < s.len(),
        forall|i: int| r < i < s.len() ==> s[i] != c,
        r >= 0 ==> s[r] == c,
    ensures
        r == rfind(s, c),
{
    lemma_rfind_props(s, c);
    if r < rfind(s, c) {
        assert(s[rfind(s, c)] == c);
        assert(s[rfind(s, c)] != c);
        assert(false);
    } else if rfind(s, c) < r {
        assert(s[r] != c);
        assert(false);
    }
}

/// First occurrence of `c` among `s[0 .. end]`, or `end` when absent there.
pub fn find_byte_before(s: &Vec<u8>, c: u8, end: usize) -> (r: usize)
    requires
        end <= s@.len(),
    ensures
        r <= end,
        r as int == find(s@.take(end as int), c),
{
    let mut i: usize = 0;
    while i < end
        invariant
            i <= end <= s@.len(),
            forall|j: int| 0 <= j < i ==> s@[j] != c,
        decreases end - i,
    {
        if s[i] == c {
            proof {
                assert forall|j: int| 0 <= j < i implies s@.take(end as int)[j] != c by {
                    assert(s@.take(end as int)[j] == s@[j]);
                }
                assert(s@.take(end as int)[i as int] == s@[i as int]);
                lemma_find_unique(s@.take(end as int), c, i as int);
            }
            return i;
        }
        i += 1;
    }
    proof {
        assert forall|j: int| 0 <= j < end implies s@.take(end as int)[j] != c by {
            assert(s@.take(end as int)[j] == s@[j]);
        }
        lemma_find_unique(s@.take(end as int), c, end as int);
    }
    end
}

/// Last occurrence of `c` in `s`, as `Some(index)`, or `None` when absent.
pub fn rfind_byte(s: &Vec<u8>, c: u8) -> (r: Option<usize>)
    ensures
        match r {
            Some(i) => i as int == rfind(s@, c),
            None => rfind(s@, c) == -1,
        },
{
    let mut i: usize = s.len();
    while i > 0
        invariant
            i <= s@.len(),
            forall|j: int| i <= j < s@.len() ==> s@[j] != c,
        decreases i,
    {
        i -= 1;
        if s[i] == c {
            proof {
                lemma_rfind_unique(s@, c, i as int);
            }
            return Some(i);
        }
    }
    proof {
        lemma_rfind_unique(s@, c, -1);
    }
    None
}

/// Appends `s[from .. to]` to `out`.
pub fn push_range(out: &mut Vec<u8>, s: &Vec<u8>, from: usize, to: usize)
    requires
        from <= to <= s@.len(),
    ensures
        final(out)@ == old(out)@ + s@.subrange(from as int, to as int),
{
    let mut i: usize = from;
    while i < to
        invariant
            from <= i <= to <= s@.len(),
            out@ == old(out)@ + s@.subrange(from as int, i as int),
        decreases to - i,
    {
        out.push(s[i]);
        proof {
            assert(out@ =~= old(out)@ + s@.subrange(from as int, i as int + 1));
        }
        i += 1;
    }
}

/// Copies the whole byte vector.
pub fn clone_bytes(s: &Vec<u8>) -> (r: Vec<u8>)
    ensures
        r@ == s@,
{
    let mut out: Vec<u8> = Vec::new();
    push_range(&mut out, s, 0, s.len());
    proof {
        assert(out@ =~= s@);
    }
    out
}

/// Byte-for-byte equality of two vectors.
pub fn bytes_eq(a: &Vec<u8>, b: &Vec<u8>) -> (r: bool)
    ensures
        r <==> a@ == b@,
{
    if a.len() != b.len() {
        proof {
            assert(a@ !~= b@);
        }
        return false;
    }
    let mut i: usize = 0;
    while i < a.len()
        invariant
            i <= a@.len(),
            a@.len() == b@.len(),
            forall|j: int| 0 <= j < i ==> a@[j] == b@[j],
        decreases a@.len() - i,
    {
        if a[i] != b[i] {
            return false;
        }
        i += 1;
    }
    proof {
        assert(a@ =~= b@);
    }
    true
}

} // verus!
