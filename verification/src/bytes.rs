use vstd::prelude::*;

verus! {

/// Newline byte, the line separator of the configuration text.
pub const NL: u8 = 10;
/// Space byte.
pub const SPACE: u8 = 32;
/// Horizontal tab byte.
pub const TAB: u8 = 9;

/// A byte that counts as blank when keys are trimmed.
pub open spec fn is_blank(b: u8) -> bool {
    b == SPACE || b == TAB
}

/// Index of the first occurrence of `b` in `s`, or `s.len()` if `b` does not occur.
pub open spec fn first_of(s: Seq<u8>, b: u8) -> nat
    decreases s.len(),
{
    if s.len() == 0 {
        0
    } else if s[0] == b {
        0
    } else {
        (1 + first_of(s.skip(1), b)) as nat
    }
}

/// `first_of` is determined by pointwise facts: if everything before `k` differs
/// from `b` and `k` is the end or holds `b`, then `k` is the first occurrence.
pub proof fn lemma_first_of_position(s: Seq<u8>, b: u8, k: int)
    requires
        0 <= k <= s.len(),
        forall|j: int| 0 <= j < k ==> s[j] != b,
        k == s.len() || s[k] == b,
    ensures
        first_of(s, b) == k,
    decreases k,
{
    if k == 0 {
    } else {
        assert(s[0] != b);
        assert forall|j: int| 0 <= j < k - 1 implies s.skip(1)[j] != b by {
            assert(s.skip(1)[j] == s[j + 1]);
        }
        if k < s.len() {
            assert(s.skip(1)[k - 1] == s[k]);
        }
        lemma_first_of_position(s.skip(1), b, k - 1);
    }
}

/// What `first_of` yields: an in-bounds position, nothing equal to `b` before it,
/// and `b` itself at it unless `b` is absent.
pub proof fn lemma_first_of_bounds(s: Seq<u8>, b: u8)
    ensures
        first_of(s, b) <= s.len(),
        forall|j: int| 0 <= j < first_of(s, b) ==> s[j] != b,
        first_of(s, b) < s.len() ==> s[first_of(s, b) as int] == b,
    decreases s.len(),
{
    if s.len() == 0 {
    } else if s[0] == b {
    } else {
        lemma_first_of_bounds(s.skip(1), b);
        assert forall|j: int| 0 <= j < first_of(s, b) implies s[j] != b by {
            if j > 0 {
                assert(s.skip(1)[j - 1] == s[j]);
            }
        }
        if first_of(s, b) < s.len() {
            assert(s.skip(1)[first_of(s, b) - 1] == s[first_of(s, b) as int]);
        }
    }
}

/// Find the first occurrence of `b` in `text[from..to]`, as an absolute index.
pub fn find_byte(text: &[u8], from: usize, to: usize, b: u8) -> (r: usize)
    requires
        from <= to <= text@.len(),
    ensures
        from <= r <= to,
        r - from == first_of(text@.subrange(from as int, to as int), b),
        forall|j: int| from <= j < r ==> text@[j] != b,
        r < to ==> text@[r as int] == b,
{
    let mut i: usize = from;
    while i < to && text[i] != b
        invariant
            from <= i <= to <= text@.len(),
            forall|j: int| from <= j < i ==> text@[j] != b,
        decreases to - i,
    {
        i = i + 1;
    }
    proof {
        let sub = text@.subrange(from as int, to as int);
        assert forall|j: int| 0 <= j < i - from implies sub[j] != b by {
            assert(sub[j] == text@[from + j]);
        }
        if i < to {
            assert(sub[i - from] == text@[i as int]);
        }
        lemma_first_of_position(sub, b, i - from);
    }
    i
}

/// `s` without its leading blanks.
pub open spec fn trim_left(s: Seq<u8>) -> Seq<u8>
    decreases s.len(),
{
    if s.len() > 0 && is_blank(s[0]) {
        trim_left(s.skip(1))
    } else {
        s
    }
}

/// `s` without its trailing blanks.
pub open spec fn trim_right(s: Seq<u8>) -> Seq<u8>
    decreases s.len(),
{
    if s.len() > 0 && is_blank(s.last()) {
        trim_right(s.drop_last())
    } else {
        s
    }
}

/// `s` without leading and trailing blanks.
pub open spec fn trim(s: Seq<u8>) -> Seq<u8> {
    trim_right(trim_left(s))
}

/// If the first `k` bytes are blank and byte `k` is not (or is the end),
/// trimming from the left drops exactly those `k` bytes.
pub proof fn lemma_trim_left_at(s: Seq<u8>, k: int)
    requires
        0 <= k <= s.len(),
        forall|j: int| 0 <= j < k ==> is_blank(s[j]),
        k == s.len() || !is_blank(s[k]),
    ensures
        trim_left(s) == s.skip(k),
    decreases k,
{
    if k == 0 {
        assert(s.skip(0) =~= s);
    } else {
        assert(is_blank(s[0]));
        assert forall|j: int| 0 <= j < k - 1 implies is_blank(s.skip(1)[j]) by {
            assert(s.skip(1)[j] == s[j + 1]);
        }
        if k < s.len() {
            assert(s.skip(1)[k - 1] == s[k]);
        }
        lemma_trim_left_at(s.skip(1), k - 1);
        assert(s.skip(1).skip(k - 1) =~= s.skip(k));
    }
}

/// If everything from byte `k` on is blank and byte `k - 1` is not (or `k` is 0),
/// trimming from the right keeps exactly the first `k` bytes.
pub proof fn lemma_trim_right_at(s: Seq<u8>, k: int)
    requires
        0 <= k <= s.len(),
        forall|j: int| k <= j < s.len() ==> is_blank(s[j]),
        k == 0 || !is_blank(s[k - 1]),
    ensures
        trim_right(s) == s.take(k),
    decreases s.len() - k,
{
    if k == s.len() {
        if s.len() == 0 {
            assert(s.take(0) =~= s);
        } else {
            assert(!is_blank(s.last()));
            assert(s.take(k) =~= s);
        }
    } else {
        assert(is_blank(s.last()));
        assert forall|j: int| k <= j < s.drop_last().len() implies is_blank(s.drop_last()[j]) by {
            assert(s.drop_last()[j] == s[j]);
        }
        if k > 0 {
            assert(s.drop_last()[k - 1] == s[k - 1]);
        }
        lemma_trim_right_at(s.drop_last(), k);
        assert(s.drop_last().take(k) =~= s.take(k));
    }
}

/// Trimming from the right keeps a non-blank head byte in place.
pub proof fn lemma_trim_right_head(s: Seq<u8>)
    requires
        s.len() > 0,
        !is_blank(s[0]),
    ensures
        trim_right(s).len() > 0,
        trim_right(s)[0] == s[0],
    decreases s.len(),
{
    if s.len() > 0 && is_blank(s.last()) {
        assert(s.drop_last()[0] == s[0]);
        lemma_trim_right_head(s.drop_last());
    }
}

/// The trimmed region of `text[from..to]`: blanks are dropped from both ends.
pub fn trim_range(text: &[u8], from: usize, to: usize) -> (r: (usize, usize))
    requires
        from <= to <= text@.len(),
    ensures
        from <= r.0 <= r.1 <= to,
        trim(text@.subrange(from as int, to as int)) == text@.subrange(r.0 as int, r.1 as int),
{
    let mut a: usize = from;
    while a < to && (text[a] == SPACE || text[a] == TAB)
        invariant
            from <= a <= to <= text@.len(),
            forall|j: int| from <= j < a ==> is_blank(text@[j]),
        decreases to - a,
    {
        a = a + 1;
    }
    let mut b: usize = to;
    while b > a && (text[b - 1] == SPACE || text[b - 1] == TAB)
        invariant
            from <= a <= b <= to <= text@.len(),
            forall|j: int| b <= j < to ==> is_blank(text@[j]),
        decreases b,
    {
        b = b - 1;
    }
    proof {
        let s = text@.subrange(from as int, to as int);
        assert forall|j: int| 0 <= j < a - from implies is_blank(s[j]) by {
            assert(s[j] == text@[from + j]);
        }
        if a < to {
            assert(s[a - from] == text@[a as int]);
        }
        lemma_trim_left_at(s, a - from);
        assert(s.skip(a - from) =~= text@.subrange(a as int, to as int));
        let t = text@.subrange(a as int, to as int);
        assert forall|j: int| b - a <= j < t.len() implies is_blank(t[j]) by {
            assert(t[j] == text@[a + j]);
        }
        if b > a {
            assert(t[b - a - 1] == text@[b - 1]);
        }
        lemma_trim_right_at(t, b - a);
        assert(t.take(b - a) =~= text@.subrange(a as int, b as int));
    }
    (a, b)
}

/// Byte-for-byte equality of two slices.
pub fn bytes_eq(a: &[u8], b: &[u8]) -> (r: bool)
    ensures
        r == (a@ == b@),
{
    if a.len() != b.len() {
        assert(a@.len() != b@.len());
        return false;
    }
    let n: usize = a.len();
    let mut i: usize = 0;
    while i < n
        invariant
            n == a@.len(),
            n == b@.len(),
            i <= n,
            forall|j: int| 0 <= j < i ==> a@[j] == b@[j],
        decreases n - i,
    {
        if a[i] != b[i] {
            assert(a@ != b@);
            return false;
        }
        i = i + 1;
    }
    assert(a@ =~= b@);
    true
}

/// Append `text[from..to]` to `out`.
pub fn append_range(out: &mut Vec<u8>, text: &[u8], from: usize, to: usize)
    requires
        from <= to <= text@.len(),
    ensures
        final(out)@ == old(out)@ + text@.subrange(from as int, to as int),
{
    let mut i: usize = from;
    while i < to
        invariant
            from <= i <= to <= text@.len(),
            out@ == old(out)@ + text@.subrange(from as int, i as int),
        decreases to - i,
    {
        out.push(text[i]);
        assert(out@ =~= old(out)@ + text@.subrange(from as int, i + 1));
        i = i + 1;
    }
}

/// Append all of `s` to `out`.
pub fn append_bytes(out: &mut Vec<u8>, s: &[u8])
    ensures
        final(out)@ == old(out)@ + s@,
{
    append_range(out, s, 0, s.len());
    assert(s@.subrange(0, s@.len() as int) =~= s@);
}

} // verus!
