use vstd::prelude::*;

use crate::bytes::{
    append_bytes, append_range, bytes_eq, find_byte, first_of, is_blank, lemma_first_of_bounds,
    lemma_first_of_position,
    lemma_trim_left_at, lemma_trim_right_at, lemma_trim_right_head, trim, trim_range,
    NL,
};
use vstd::slice::{slice_subrange, slice_to_vec};

verus! {

/// The byte that separates a key from its value.
pub const EQ: u8 = 61;
/// The byte that opens a section header.
pub const LBRACK: u8 = 91;

/// Length of the first line of `s`: the bytes before the first newline,
/// or all of `s` if it holds none.
pub open spec fn line_end(s: Seq<u8>) -> int {
    if first_of(s, NL) <= s.len() {
        first_of(s, NL) as int
    } else {
        s.len() as int
    }
}

/// A section header: the first non-blank byte of the line is `[`.
pub open spec fn is_header_line(line: Seq<u8>) -> bool {
    let t = trim(line);
    t.len() > 0 && t[0] == LBRACK
}

/// A key/value line for `key`: it holds `=`, and what stands before the
/// first `=`, blanks trimmed, is exactly `key`.
pub open spec fn is_key_line(line: Seq<u8>, key: Seq<u8>) -> bool {
    first_of(line, EQ) < line.len() && trim(line.take(first_of(line, EQ) as int)) == key
}

/// The value of a key/value line: everything after the first `=`, with the
/// blanks around it dropped.
pub open spec fn line_value(line: Seq<u8>) -> Seq<u8> {
    trim(line.skip(first_of(line, EQ) as int + 1))
}

/// The value bound to `key` in the default (unnamed) section of the
/// configuration text `s`: the first key/value line for `key` before any
/// section header decides; `None` if no such line exists.
pub open spec fn lookup_kv(s: Seq<u8>, key: Seq<u8>) -> Option<Seq<u8>>
    decreases s.len(),
{
    let n = line_end(s);
    let line = s.take(n);
    if is_header_line(line) {
        None
    } else if is_key_line(line, key) {
        Some(line_value(line))
    } else if n == s.len() {
        None
    } else {
        lookup_kv(s.skip(n + 1), key)
    }
}

/// The line `key=value`.
pub open spec fn kv_line(key: Seq<u8>, value: Seq<u8>) -> Seq<u8> {
    key + seq![EQ] + value
}

/// The configuration text `s` with `key` bound to `value` in the default
/// section. The first key/value line for `key` before any section header is
/// replaced in place; failing that, the new line goes in front of the first
/// section header, or at the end of the text. Every other byte stays as it was.
pub open spec fn set_kv(s: Seq<u8>, key: Seq<u8>, value: Seq<u8>) -> Seq<u8>
    decreases s.len(),
{
    let n = line_end(s);
    let line = s.take(n);
    if is_header_line(line) {
        kv_line(key, value) + seq![NL] + s
    } else if is_key_line(line, key) {
        kv_line(key, value) + s.skip(n)
    } else if n == s.len() {
        if s.len() == 0 {
            kv_line(key, value) + seq![NL]
        } else {
            s + seq![NL] + kv_line(key, value) + seq![NL]
        }
    } else {
        s.take(n + 1) + set_kv(s.skip(n + 1), key, value)
    }
}

/// A key that the text format can carry: non-empty, no newline, no `=`,
/// no blank at either end, and not opening like a section header.
pub open spec fn key_ok(key: Seq<u8>) -> bool {
    &&& key.len() > 0
    &&& !is_blank(key[0])
    &&& !is_blank(key.last())
    &&& key[0] != LBRACK
    &&& forall|j: int| 0 <= j < key.len() ==> key[j] != NL && key[j] != EQ
}

/// A value that one line can carry: no embedded newline.
pub open spec fn value_ok(v: Seq<u8>) -> bool {
    forall|j: int| 0 <= j < v.len() ==> v[j] != NL
}

/// A value that comes back from a lookup exactly as it went in: one a line
/// can carry, with no blank at either end that the lookup would drop.
pub open spec fn value_plain(v: Seq<u8>) -> bool {
    value_ok(v) && (v.len() == 0 || (!is_blank(v[0]) && !is_blank(v.last())))
}

/// What the line `key=value` looks like to the scanner: one whole line,
/// no section header, a key/value line for `key`, with value `value`.
pub proof fn lemma_kv_line(key: Seq<u8>, value: Seq<u8>)
    requires
        key_ok(key),
        value_ok(value),
    ensures
        first_of(kv_line(key, value), NL) == kv_line(key, value).len(),
        !is_header_line(kv_line(key, value)),
        is_key_line(kv_line(key, value), key),
        line_value(kv_line(key, value)) == trim(value),
{
    let l = kv_line(key, value);
    assert forall|j: int| 0 <= j < l.len() implies l[j] != NL by {
        if j < key.len() {
            assert(l[j] == key[j]);
        } else if j == key.len() {
            assert(l[j] == EQ);
        } else {
            assert(l[j] == value[j - key.len() - 1]);
        }
    }
    lemma_first_of_position(l, NL, l.len() as int);
    assert forall|j: int| 0 <= j < key.len() implies l[j] != EQ by {
        assert(l[j] == key[j]);
    }
    assert(l[key.len() as int] == EQ);
    lemma_first_of_position(l, EQ, key.len() as int);
    assert(l.take(key.len() as int) =~= key);
    assert(l.skip(key.len() as int + 1) =~= value);
    lemma_trim_left_at(key, 0);
    lemma_trim_right_at(key, key.len() as int);
    assert(key.skip(0) =~= key);
    assert(key.take(key.len() as int) =~= key);
    assert(trim(key) == key);
    lemma_trim_left_at(l, 0);
    assert(l.skip(0) =~= l);
    lemma_trim_right_head(l);
    assert(trim(l)[0] == key[0]);
}

/// What one scanned line of the text says, all positions absolute.
struct LineScan {
    /// Where the line ends: the first newline at or after `pos`, or the end.
    end: usize,
    /// The line is a section header.
    header: bool,
    /// The line is a key/value line for the key that was scanned for.
    key_match: bool,
    /// Position of the `=`, meaningful when `key_match` holds.
    eq: usize,
}

/// Scan the line that starts at `pos` and classify it against `key`.
fn scan_line(text: &[u8], pos: usize, key: &[u8]) -> (r: LineScan)
    requires
        pos <= text@.len(),
    ensures
        pos <= r.end <= text@.len(),
        r.end - pos == line_end(text@.skip(pos as int)),
        r.end < text@.len() ==> text@[r.end as int] == NL,
        r.header == is_header_line(text@.subrange(pos as int, r.end as int)),
        r.key_match == is_key_line(text@.subrange(pos as int, r.end as int), key@),
        r.key_match ==> pos <= r.eq < r.end && line_value(
            text@.subrange(pos as int, r.end as int),
        ) == trim(text@.subrange(r.eq + 1, r.end as int)),
{
    let end = find_byte(text, pos, text.len(), NL);
    proof {
        assert(text@.subrange(pos as int, text@.len() as int) =~= text@.skip(pos as int));
    }
    let ghost line = text@.subrange(pos as int, end as int);
    let (a, b) = trim_range(text, pos, end);
    let header = a < b && text[a] == LBRACK;
    proof {
        if a < b {
            assert(trim(line)[0] == text@[a as int]);
        }
    }
    let eq = find_byte(text, pos, end, EQ);
    let key_match: bool;
    if eq < end {
        let (ka, kb) = trim_range(text, pos, eq);
        key_match = bytes_eq(slice_subrange(text, ka, kb), key);
        proof {
            assert(line.take(eq - pos) =~= text@.subrange(pos as int, eq as int));
            assert(first_of(line, EQ) == eq - pos);
            assert(line.skip(eq - pos + 1) =~= text@.subrange(eq + 1, end as int));
        }
    } else {
        key_match = false;
        proof {
            assert(first_of(line, EQ) == eq - pos);
        }
    }
    LineScan { end, header, key_match, eq }
}

/// Look up `key` in the default section of `text`, handing back the value
/// as its own vector.
pub fn get_value(text: &[u8], key: &[u8]) -> (r: Option<Vec<u8>>)
    ensures
        match r {
            Some(v) => lookup_kv(text@, key@) == Some(v@),
            None => lookup_kv(text@, key@) is None,
        },
{
    let mut pos: usize = 0;
    proof {
        assert(text@.skip(0) =~= text@);
    }
    loop
        invariant
            pos <= text@.len(),
            lookup_kv(text@, key@) == lookup_kv(text@.skip(pos as int), key@),
        decreases text@.len() - pos,
    {
        let sc = scan_line(text, pos, key);
        let ghost s = text@.skip(pos as int);
        let ghost n = line_end(s);
        proof {
            assert(s.take(n) =~= text@.subrange(pos as int, sc.end as int));
        }
        if sc.header {
            return None;
        }
        if sc.key_match {
            let (va, vb) = trim_range(text, sc.eq + 1, sc.end);
            let v = slice_to_vec(slice_subrange(text, va, vb));
            return Some(v);
        }
        if sc.end == text.len() {
            assert(n == s.len());
            return None;
        }
        proof {
            assert(s.skip(n + 1) =~= text@.skip(sc.end + 1));
        }
        pos = sc.end + 1;
    }
}

/// Append the line `key=value` to `out`.
fn append_kv_line(out: &mut Vec<u8>, key: &[u8], value: &[u8])
    ensures
        final(out)@ == old(out)@ + kv_line(key@, value@),
{
    append_bytes(out, key);
    out.push(EQ);
    append_bytes(out, value);
    assert(out@ =~= old(out)@ + kv_line(key@, value@));
}

/// Bind `key` to `value` in the default section of `text`, leaving every
/// other byte of the text as it was.
pub fn set_value(text: &[u8], key: &[u8], value: &[u8]) -> (r: Vec<u8>)
    ensures
        r@ == set_kv(text@, key@, value@),
{
    let ghost goal = set_kv(text@, key@, value@);
    let mut pos: usize = 0;
    proof {
        assert(text@.skip(0) =~= text@);
        assert(text@.take(0) + set_kv(text@, key@, value@) =~= goal);
    }
    loop
        invariant
            pos <= text@.len(),
            goal == set_kv(text@, key@, value@),
            goal == text@.take(pos as int) + set_kv(text@.skip(pos as int), key@, value@),
        decreases text@.len() - pos,
    {
        let sc = scan_line(text, pos, key);
        let ghost s = text@.skip(pos as int);
        let ghost n = line_end(s);
        let ghost kv = kv_line(key@, value@);
        proof {
            assert(s.take(n) =~= text@.subrange(pos as int, sc.end as int));
        }
        if sc.header {
            let mut out: Vec<u8> = Vec::new();
            append_range(&mut out, text, 0, pos);
            append_kv_line(&mut out, key, value);
            out.push(NL);
            append_range(&mut out, text, pos, text.len());
            proof {
                assert(text@.subrange(0, pos as int) =~= text@.take(pos as int));
                assert(text@.subrange(pos as int, text@.len() as int) =~= s);
                assert(set_kv(s, key@, value@) == kv + seq![NL] + s);
                assert(out@ =~= text@.take(pos as int) + (kv + seq![NL] + s));
            }
            return out;
        }
        if sc.key_match {
            let mut out: Vec<u8> = Vec::new();
            append_range(&mut out, text, 0, pos);
            append_kv_line(&mut out, key, value);
            append_range(&mut out, text, sc.end, text.len());
            proof {
                assert(text@.subrange(0, pos as int) =~= text@.take(pos as int));
                assert(text@.subrange(sc.end as int, text@.len() as int) =~= s.skip(n));
                assert(set_kv(s, key@, value@) == kv + s.skip(n));
                assert(out@ =~= text@.take(pos as int) + (kv + s.skip(n)));
            }
            return out;
        }
        if sc.end == text.len() {
            assert(n == s.len());
            let mut out: Vec<u8> = Vec::new();
            append_range(&mut out, text, 0, text.len());
            if pos < text.len() {
                out.push(NL);
            }
            append_kv_line(&mut out, key, value);
            out.push(NL);
            proof {
                assert(text@.subrange(0, text@.len() as int) =~= text@);
                if pos < text@.len() {
                    assert(s.len() > 0);
                    assert(set_kv(s, key@, value@) == s + seq![NL] + kv + seq![NL]);
                    assert(out@ =~= text@.take(pos as int) + (s + seq![NL] + kv + seq![NL]));
                } else {
                    assert(s.len() == 0);
                    assert(set_kv(s, key@, value@) == kv + seq![NL]);
                    assert(out@ =~= text@.take(pos as int) + (kv + seq![NL]));
                }
            }
            return out;
        }
        proof {
            assert(s.skip(n + 1) =~= text@.skip(sc.end + 1));
            assert(s.take(n + 1) =~= text@.subrange(pos as int, sc.end + 1));
            assert(set_kv(s, key@, value@) == s.take(n + 1) + set_kv(s.skip(n + 1), key@, value@));
            assert(text@.take(pos as int) + s.take(n + 1) =~= text@.take(sc.end + 1));
            assert(text@.take(pos as int) + (s.take(n + 1) + set_kv(s.skip(n + 1), key@, value@))
                =~= text@.take(sc.end + 1) + set_kv(text@.skip(sc.end + 1), key@, value@));
        }
        pos = sc.end + 1;
    }
}

/// The bytes of `registry`, the one key this tool reads and writes.
pub open spec fn registry_key() -> Seq<u8> {
    seq![114u8, 101u8, 103u8, 105u8, 115u8, 116u8, 114u8, 121u8]
}

/// The key `registry` is one the text format can carry.
pub proof fn lemma_registry_key_ok()
    ensures
        key_ok(registry_key()),
{
    let k = registry_key();
    assert forall|j: int| 0 <= j < k.len() implies k[j] != NL && k[j] != EQ by {
        if j == 0 {
        } else if j == 1 {
        } else if j == 2 {
        } else if j == 3 {
        } else if j == 4 {
        } else if j == 5 {
        } else if j == 6 {
        } else {
            assert(j == 7);
        }
    }
}

/// The key `registry` as runtime bytes.
pub fn registry_key_bytes() -> (r: Vec<u8>)
    ensures
        r@ == registry_key(),
{
    let mut k: Vec<u8> = Vec::new();
    k.push(114);
    k.push(101);
    k.push(103);
    k.push(105);
    k.push(115);
    k.push(116);
    k.push(114);
    k.push(121);
    assert(k@ =~= registry_key());
    k
}

/// The active registry URL: the value of `registry` in the default section
/// of the configuration text, or `None` if the key is absent there.
pub fn get_current(config: &[u8]) -> (r: Option<Vec<u8>>)
    ensures
        match r {
            Some(v) => lookup_kv(config@, registry_key()) == Some(v@),
            None => lookup_kv(config@, registry_key()) is None,
        },
{
    let k = registry_key_bytes();
    get_value(config, k.as_slice())
}

/// The configuration text with the active registry URL set to `url`;
/// every byte not on the `registry` line stays as it was.
pub fn set_current(config: &[u8], url: &[u8]) -> (r: Vec<u8>)
    ensures
        r@ == set_kv(config@, registry_key(), url@),
{
    let k = registry_key_bytes();
    set_value(config, k.as_slice(), url)
}

/// Round trip on the active registry URL: after `set_current` writes `url`,
/// `get_current` reads back exactly `url`, whatever the text held before.
/// Asks only that `url` has no embedded newline, which one line cannot
/// carry, and no blank at either end, which the lookup would drop.
pub proof fn lemma_current_round_trip(config: Seq<u8>, url: Seq<u8>)
    requires
        value_plain(url),
    ensures
        lookup_kv(set_kv(config, registry_key(), url), registry_key()) == Some(url),
{
    lemma_registry_key_ok();
    lemma_set_then_get(config, registry_key(), url);
}

/// Writing the same URL twice leaves the very bytes one write leaves.
pub proof fn lemma_current_idempotent(config: Seq<u8>, url: Seq<u8>)
    requires
        value_ok(url),
    ensures
        set_kv(set_kv(config, registry_key(), url), registry_key(), url) == set_kv(
            config,
            registry_key(),
            url,
        ),
{
    lemma_registry_key_ok();
    lemma_set_idempotent(config, registry_key(), url);
}

/// A text made of a newline-free `prefix` and a `tail` that is empty or
/// opens with a newline has `prefix` as its first line.
proof fn lemma_head_line(prefix: Seq<u8>, tail: Seq<u8>)
    requires
        forall|j: int| 0 <= j < prefix.len() ==> prefix[j] != NL,
        tail.len() == 0 || tail[0] == NL,
    ensures
        line_end(prefix + tail) == prefix.len(),
        (prefix + tail).take(prefix.len() as int) == prefix,
        (prefix + tail).skip(prefix.len() as int) == tail,
{
    let r = prefix + tail;
    assert forall|j: int| 0 <= j < prefix.len() implies r[j] != NL by {
        assert(r[j] == prefix[j]);
    }
    if tail.len() > 0 {
        assert(r[prefix.len() as int] == tail[0]);
    }
    lemma_first_of_position(r, NL, prefix.len() as int);
    assert(r.take(prefix.len() as int) =~= prefix);
    assert(r.skip(prefix.len() as int) =~= tail);
}

/// Round trip through the text: after `key` is bound to `value`, looking
/// `key` up yields exactly `value`. Holds for every configuration text, for
/// every key the format can carry and every value free of newlines.
pub proof fn lemma_set_then_get(s: Seq<u8>, key: Seq<u8>, value: Seq<u8>)
    requires
        key_ok(key),
        value_plain(value),
    ensures
        lookup_kv(set_kv(s, key, value), key) == Some(value),
    decreases s.len(),
{
    let n = line_end(s);
    let line = s.take(n);
    let kv = kv_line(key, value);
    lemma_kv_line(key, value);
    lemma_trim_left_at(value, 0);
    lemma_trim_right_at(value, value.len() as int);
    assert(value.skip(0) =~= value);
    assert(value.take(value.len() as int) =~= value);
    assert(trim(value) == value);
    lemma_first_of_bounds(kv, NL);
    lemma_first_of_bounds(s, NL);
    if is_header_line(line) {
        let r = set_kv(s, key, value);
        assert(r =~= kv + (seq![NL] + s));
        lemma_head_line(kv, seq![NL] + s);
    } else if is_key_line(line, key) {
        let r = set_kv(s, key, value);
        assert(r == kv + s.skip(n));
        lemma_head_line(kv, s.skip(n));
    } else if n == s.len() {
        if s.len() == 0 {
            lemma_head_line(kv, seq![NL]);
        } else {
            let r = set_kv(s, key, value);
            let tail = seq![NL] + kv + seq![NL];
            assert(r =~= s + tail);
            assert(tail[0] == NL);
            lemma_head_line(s, tail);
            assert(r.take(s.len() as int) == s);
            assert(line =~= s);
            assert(r.skip(s.len() as int + 1) =~= kv + seq![NL]);
            lemma_head_line(kv, seq![NL]);
            assert(lookup_kv(r, key) == lookup_kv(kv + seq![NL], key));
        }
    } else {
        let r = set_kv(s, key, value);
        let rest = set_kv(s.skip(n + 1), key, value);
        assert(r == s.take(n + 1) + rest);
        assert forall|j: int| 0 <= j < n implies r[j] != NL by {
            assert(r[j] == s.take(n + 1)[j]);
            assert(s.take(n + 1)[j] == s[j]);
        }
        assert(r[n] == s.take(n + 1)[n]);
        assert(s[n] == NL);
        lemma_first_of_position(r, NL, n);
        assert(r.take(n) =~= line);
        assert(r.skip(n + 1) =~= rest);
        lemma_set_then_get(s.skip(n + 1), key, value);
        assert(lookup_kv(r, key) == lookup_kv(rest, key));
    }
}

/// Binding the same key to the same value twice is the same as binding it
/// once: the second write replaces the line the first one made, byte for byte.
pub proof fn lemma_set_idempotent(s: Seq<u8>, key: Seq<u8>, value: Seq<u8>)
    requires
        key_ok(key),
        value_ok(value),
    ensures
        set_kv(set_kv(s, key, value), key, value) == set_kv(s, key, value),
    decreases s.len(),
{
    let n = line_end(s);
    let line = s.take(n);
    let kv = kv_line(key, value);
    lemma_kv_line(key, value);
    lemma_first_of_bounds(kv, NL);
    lemma_first_of_bounds(s, NL);
    if is_header_line(line) {
        let r = set_kv(s, key, value);
        assert(r =~= kv + (seq![NL] + s));
        lemma_head_line(kv, seq![NL] + s);
        assert(set_kv(r, key, value) == kv + r.skip(kv.len() as int));
        assert(kv + (seq![NL] + s) =~= r);
    } else if is_key_line(line, key) {
        let r = set_kv(s, key, value);
        assert(r == kv + s.skip(n));
        lemma_head_line(kv, s.skip(n));
        assert(set_kv(r, key, value) == kv + r.skip(kv.len() as int));
    } else if n == s.len() {
        if s.len() == 0 {
            let r = set_kv(s, key, value);
            assert(r == kv + seq![NL]);
            lemma_head_line(kv, seq![NL]);
            assert(set_kv(r, key, value) == kv + r.skip(kv.len() as int));
        } else {
            let r = set_kv(s, key, value);
            let tail = seq![NL] + kv + seq![NL];
            assert(r =~= s + tail);
            assert(tail[0] == NL);
            lemma_head_line(s, tail);
            assert(r.take(s.len() as int) == s);
            assert(line =~= s);
            assert(set_kv(r, key, value) == r.take(s.len() as int + 1) + set_kv(
                r.skip(s.len() as int + 1),
                key,
                value,
            ));
            let inner = r.skip(s.len() as int + 1);
            assert(inner =~= kv + seq![NL]);
            lemma_head_line(kv, seq![NL]);
            assert(set_kv(inner, key, value) == kv + inner.skip(kv.len() as int));
            assert(kv + inner.skip(kv.len() as int) =~= inner);
            assert(r.take(s.len() as int + 1) + inner =~= r);
        }
    } else {
        let r = set_kv(s, key, value);
        let rest = set_kv(s.skip(n + 1), key, value);
        assert(r == s.take(n + 1) + rest);
        assert forall|j: int| 0 <= j < n implies r[j] != NL by {
            assert(r[j] == s.take(n + 1)[j]);
            assert(s.take(n + 1)[j] == s[j]);
        }
        assert(r[n] == s.take(n + 1)[n]);
        assert(s[n] == NL);
        lemma_first_of_position(r, NL, n);
        assert(r.take(n) =~= line);
        assert(r.skip(n + 1) =~= rest);
        assert(r.take(n + 1) =~= s.take(n + 1));
        assert(set_kv(r, key, value) == r.take(n + 1) + set_kv(r.skip(n + 1), key, value));
        lemma_set_idempotent(s.skip(n + 1), key, value);
        assert(r.take(n + 1) + set_kv(rest, key, value) =~= r);
    }
}

} // verus!
