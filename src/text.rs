//! Byte-level text handling: cutting UTF-8 text at an ASCII separator and
//! gluing pieces back together.
use vstd::prelude::*;
use vstd::utf8::*;

verus! {

/// `sep` occurs in `s` starting at position `i`.
pub open spec fn occurs_at(s: Seq<u8>, sep: Seq<u8>, i: int) -> bool {
    0 <= i && i + sep.len() <= s.len() && s.subrange(i, i + sep.len()) == sep
}

/// Every byte of `s` is an ASCII byte.
pub open spec fn all_ascii(s: Seq<u8>) -> bool {
    forall|i: int| 0 <= i < s.len() ==> #[trigger] s[i] < 0x80
}

/// The pieces of `s` between the occurrences of `sep`, found by scanning from
/// `pos` to the right, where the piece being scanned began at `start`.
/// An occurrence is consumed whole before the scan goes on.
pub open spec fn split_from(s: Seq<u8>, sep: Seq<u8>, start: int, pos: int) -> Seq<Seq<u8>>
    decreases s.len() - pos,
{
    if sep.len() == 0 || pos + sep.len() > s.len() {
        seq![s.subrange(start, s.len() as int)]
    } else if occurs_at(s, sep, pos) {
        seq![s.subrange(start, pos)] + split_from(s, sep, pos + sep.len(), pos + sep.len())
    } else {
        split_from(s, sep, start, pos + 1)
    }
}

/// The pieces of `s` between the leftmost non-overlapping occurrences of `sep`.
pub open spec fn split(s: Seq<u8>, sep: Seq<u8>) -> Seq<Seq<u8>> {
    split_from(s, sep, 0, 0)
}

/// The pieces joined in order, with `sep` between neighbours.
pub open spec fn join(parts: Seq<Seq<u8>>, sep: Seq<u8>) -> Seq<u8>
    decreases parts.len(),
{
    if parts.len() == 0 {
        seq![]
    } else if parts.len() == 1 {
        parts[0]
    } else {
        parts[0] + sep + join(parts.drop_first(), sep)
    }
}

/// When `p` is followed by `sep`, the first occurrence of `sep` is that one:
/// no occurrence starts inside `p`.
pub open spec fn separable(p: Seq<u8>, sep: Seq<u8>) -> bool {
    forall|i: int| 0 <= i < p.len() ==> !#[trigger] occurs_at(p + sep, sep, i)
}

/// The position of the first zero byte of `s`, or its length when it holds none.
pub open spec fn nul_end(s: Seq<u8>) -> int
    decreases s.len(),
{
    if s.len() == 0 {
        0
    } else if s[0] == 0 {
        0
    } else {
        1 + nul_end(s.drop_first())
    }
}

/// The bytes of `s` before its first zero byte.
pub open spec fn before_nul(s: Seq<u8>) -> Seq<u8> {
    s.subrange(0, nul_end(s))
}

/// Scanning past positions where `sep` does not occur changes nothing.
proof fn lemma_split_skip(s: Seq<u8>, sep: Seq<u8>, start: int, pos: int, q: int)
    requires
        pos <= q,
        forall|i: int| pos <= i < q ==> !#[trigger] occurs_at(s, sep, i),
    ensures
        split_from(s, sep, start, pos) == split_from(s, sep, start, q),
    decreases q - pos,
{
    if pos < q {
        lemma_split_skip(s, sep, start, pos + 1, q);
        if sep.len() == 0 || pos + sep.len() > s.len() {
            assert(q + sep.len() > s.len() || sep.len() == 0);
        }
    }
}

/// Scanning `x + y` past `x` is scanning `y`.
proof fn lemma_split_shift(x: Seq<u8>, y: Seq<u8>, sep: Seq<u8>, a: int, b: int)
    requires
        0 <= a <= b <= y.len(),
    ensures
        split_from(x + y, sep, x.len() + a, x.len() + b) == split_from(y, sep, a, b),
    decreases y.len() - b,
{
    let s = x + y;
    let n = x.len() as int;
    if sep.len() == 0 || b + sep.len() > y.len() {
        assert(s.subrange(n + a, s.len() as int) =~= y.subrange(a, y.len() as int));
    } else {
        assert(s.subrange(n + b, n + b + sep.len()) =~= y.subrange(b, b + sep.len()));
        if occurs_at(y, sep, b) {
            assert(s.subrange(n + a, n + b) =~= y.subrange(a, b));
            lemma_split_shift(x, y, sep, b + sep.len(), b + sep.len());
        } else {
            lemma_split_shift(x, y, sep, a, b + 1);
        }
    }
}

/// Splitting what `join` built gives the pieces back, provided that no
/// piece lets a separator begin inside it.
pub proof fn lemma_split_join(parts: Seq<Seq<u8>>, sep: Seq<u8>)
    requires
        sep.len() > 0,
        parts.len() >= 1,
        forall|k: int| 0 <= k < parts.len() ==> separable(#[trigger] parts[k], sep),
    ensures
        split(join(parts, sep), sep) == parts,
    decreases parts.len(),
{
    let p = parts[0];
    let s = join(parts, sep);
    assert(separable(p, sep));
    if parts.len() == 1 {
        let q = if p.len() + 1 >= sep.len() { p.len() + 1 - sep.len() } else { 0 };
        assert forall|i: int| 0 <= i < q implies !#[trigger] occurs_at(s, sep, i) by {
            if occurs_at(s, sep, i) {
                assert((p + sep).subrange(i, i + sep.len()) =~= p.subrange(i, i + sep.len()));
                assert(occurs_at(p + sep, sep, i));
            }
        }
        lemma_split_skip(s, sep, 0, 0, q);
        assert(s.subrange(0, s.len() as int) =~= p);
        assert(split(s, sep) =~= parts);
    } else {
        let rest = parts.drop_first();
        let x = p + sep;
        assert(s =~= x + join(rest, sep));
        assert forall|i: int| 0 <= i < p.len() implies !#[trigger] occurs_at(s, sep, i) by {
            if occurs_at(s, sep, i) {
                assert(s.subrange(i, i + sep.len()) =~= x.subrange(i, i + sep.len()));
                assert(occurs_at(x, sep, i));
            }
        }
        lemma_split_skip(s, sep, 0, 0, p.len() as int);
        assert(s.subrange(p.len() as int, p.len() + sep.len() as int) =~= sep);
        assert(occurs_at(s, sep, p.len() as int));
        assert(s.subrange(0, p.len() as int) =~= p);
        lemma_split_shift(x, join(rest, sep), sep, 0, 0);
        assert forall|k: int| 0 <= k < rest.len() implies separable(#[trigger] rest[k], sep) by {
            assert(rest[k] == parts[k + 1]);
        }
        lemma_split_join(rest, sep);
        assert(split(s, sep) =~= parts);
    }
}

/// The bytes of the first scalar of valid UTF-8 form valid UTF-8 themselves.
proof fn lemma_first_scalar_valid(s: Seq<u8>)
    requires
        valid_utf8(s),
        s.len() > 0,
    ensures
        valid_utf8(take_first_scalar(s)),
{
    let t = take_first_scalar(s);
    let n = length_of_first_scalar(s);
    assert(t.len() == n);
    assert(forall|i: int| 0 <= i < n ==> t[i] == s[i]);
    assert(valid_first_scalar(t));
    assert(length_of_first_scalar(t) == n);
    assert(pop_first_scalar(t) =~= Seq::<u8>::empty());
    reveal_with_fuel(valid_utf8, 2);
}

/// Cutting valid UTF-8 around one of its ASCII bytes leaves valid UTF-8 on
/// either side.
pub proof fn lemma_ascii_cut(s: Seq<u8>, k: int)
    requires
        valid_utf8(s),
        0 <= k < s.len(),
        s[k] < 0x80,
    ensures
        valid_utf8(s.subrange(0, k)),
        valid_utf8(s.subrange(k + 1, s.len() as int)),
    decreases s.len(),
{
    let n = length_of_first_scalar(s);
    let rest = pop_first_scalar(s);
    if k == 0 {
        assert(n == 1);
        assert(s.subrange(0, 0) =~= Seq::<u8>::empty());
        assert(rest =~= s.subrange(1, s.len() as int));
    } else {
        assert(k >= n);
        assert(rest[k - n] == s[k]);
        lemma_ascii_cut(rest, k - n);
        lemma_first_scalar_valid(s);
        vstd::utf8::valid_utf8_concat(take_first_scalar(s), rest.subrange(0, k - n));
        assert(take_first_scalar(s) + rest.subrange(0, k - n) =~= s.subrange(0, k));
        assert(rest.subrange(k - n + 1, rest.len() as int) =~= s.subrange(k + 1, s.len() as int));
    }
}

/// A stretch of valid UTF-8 that ASCII bytes (or the ends) bound on both
/// sides is valid UTF-8.
pub proof fn lemma_ascii_bounded(s: Seq<u8>, a: int, b: int)
    requires
        valid_utf8(s),
        0 <= a <= b <= s.len(),
        a == 0 || s[a - 1] < 0x80,
        b == s.len() || s[b] < 0x80,
    ensures
        valid_utf8(s.subrange(a, b)),
{
    let t = if a == 0 {
        s
    } else {
        lemma_ascii_cut(s, a - 1);
        s.subrange(a, s.len() as int)
    };
    assert(t =~= s.subrange(a, s.len() as int));
    if b == s.len() {
        assert(t =~= s.subrange(a, b));
    } else {
        assert(t[b - a] == s[b]);
        lemma_ascii_cut(t, b - a);
        assert(t.subrange(0, b - a) =~= s.subrange(a, b));
    }
}

/// The characters that each piece of UTF-8 encodes.
pub open spec fn decode_all(parts: Seq<Seq<u8>>) -> Seq<Seq<char>> {
    parts.map_values(|p: Seq<u8>| decode_utf8(p))
}

/// The characters of each string.
pub open spec fn views(v: Seq<String>) -> Seq<Seq<char>> {
    v.map_values(|t: String| t@)
}

proof fn lemma_views_push(v: Seq<String>, x: String, ps: Seq<Seq<u8>>, p: Seq<u8>)
    requires
        views(v) == decode_all(ps),
        x@ == decode_utf8(p),
    ensures
        views(v.push(x)) == decode_all(ps.push(p)),
{
    assert(views(v).len() == v.len());
    assert(decode_all(ps).len() == ps.len());
    assert forall|i: int| 0 <= i < v.len() + 1 implies #[trigger] views(v.push(x))[i] == decode_all(
        ps.push(p),
    )[i] by {
        if i < v.len() {
            assert(views(v)[i] == decode_all(ps)[i]);
        }
    }
    assert(views(v.push(x)) =~= decode_all(ps.push(p)));
}

/// The first zero byte of `s` stands at `i`, or `s` holds none and `i` is its length.
pub proof fn lemma_nul_end(s: Seq<u8>, i: int)
    requires
        0 <= i <= s.len(),
        forall|j: int| 0 <= j < i ==> s[j] != 0,
        i == s.len() || s[i] == 0,
    ensures
        nul_end(s) == i,
    decreases i,
{
    if i > 0 {
        let t = s.drop_first();
        assert forall|j: int| 0 <= j < i - 1 implies t[j] != 0 by {
            assert(t[j] == s[j + 1]);
        }
        if i < s.len() {
            assert(t[i - 1] == s[i]);
        }
        lemma_nul_end(t, i - 1);
    }
}

/// Relies on `std::str::from_utf8`: it succeeds exactly on valid UTF-8, and the
/// text it returns is made of the characters that the bytes encode.
#[verifier::external_body]
fn utf8_text(bytes: &[u8]) -> (r: Option<&str>)
    ensures
        r is Some <==> valid_utf8(bytes@),
        r matches Some(t) ==> t@ == decode_utf8(bytes@),
{
    std::str::from_utf8(bytes).ok()
}

/// Whether the bytes are valid UTF-8.
pub fn is_utf8(bytes: &[u8]) -> (r: bool)
    ensures
        r == valid_utf8(bytes@),
{
    utf8_text(bytes).is_some()
}

/// The position of the first zero byte, or the length when there is none.
pub fn find_nul(s: &[u8]) -> (r: usize)
    ensures
        r == nul_end(s@),
{
    let mut i: usize = 0;
    while i < s.len() && s[i] != 0
        invariant
            i <= s@.len(),
            forall|j: int| 0 <= j < i ==> s@[j] != 0,
        decreases s@.len() - i,
    {
        i = i + 1;
    }
    proof {
        lemma_nul_end(s@, i as int);
    }
    i
}

/// Whether `sep` occurs in `s` at `pos`.
pub fn occurs_at_pos(s: &[u8], sep: &[u8], pos: usize) -> (r: bool)
    ensures
        r == occurs_at(s@, sep@, pos as int),
{
    if sep.len() > s.len() || pos > s.len() - sep.len() {
        return false;
    }
    let n = s.len();
    let mut j: usize = 0;
    while j < sep.len()
        invariant
            n == s@.len(),
            j <= sep@.len(),
            pos + sep@.len() <= s@.len(),
            forall|i: int| 0 <= i < j ==> s@[pos + i] == sep@[i],
        decreases sep@.len() - j,
    {
        if s[pos + j] != sep[j] {
            assert(s@.subrange(pos as int, pos + sep@.len())[j as int] != sep@[j as int]);
            return false;
        }
        j = j + 1;
    }
    assert(s@.subrange(pos as int, pos + sep@.len()) =~= sep@);
    true
}

/// Cuts UTF-8 text at each leftmost occurrence of an ASCII separator and
/// returns the pieces as strings.
pub fn split_text(s: &[u8], sep: &[u8]) -> (r: Vec<String>)
    requires
        valid_utf8(s@),
        sep@.len() > 0,
        all_ascii(sep@),
    ensures
        views(r@) == decode_all(split(s@, sep@)),
{
    let mut parts: Vec<String> = Vec::new();
    let ghost mut pieces: Seq<Seq<u8>> = seq![];
    let mut start: usize = 0;
    let mut pos: usize = 0;
    while sep.len() <= s.len() && pos <= s.len() - sep.len()
        invariant
            valid_utf8(s@),
            sep@.len() > 0,
            all_ascii(sep@),
            start <= pos <= s@.len(),
            start == 0 || s@[start - 1] < 0x80,
            pieces + split_from(s@, sep@, start as int, pos as int) == split(s@, sep@),
            views(parts@) == decode_all(pieces),
        decreases s@.len() - pos,
    {
        if occurs_at_pos(s, sep, pos) {
            assert(s@[pos as int] == s@.subrange(pos as int, pos + sep@.len())[0]);
            assert(s@[pos as int] < 0x80);
            proof {
                lemma_ascii_bounded(s@, start as int, pos as int);
            }
            let piece = vstd::slice::slice_subrange(s, start, pos);
            let ghost p = s@.subrange(start as int, pos as int);
            if let Some(t) = utf8_text(piece) {
                let owned = t.to_owned();
                proof {
                    lemma_views_push(parts@, owned, pieces, p);
                }
                parts.push(owned);
            }
            proof {
                assert(split_from(s@, sep@, start as int, pos as int) == seq![p] + split_from(
                    s@,
                    sep@,
                    pos + sep@.len(),
                    pos + sep@.len(),
                ));
                assert(pieces + (seq![p] + split_from(s@, sep@, pos + sep@.len(), pos + sep@.len()))
                    =~= pieces.push(p) + split_from(s@, sep@, pos + sep@.len(), pos + sep@.len()));
                pieces = pieces.push(p);
            }
            let last: usize = sep.len() - 1;
            assert(s@[pos + last] == sep@[last as int]) by {
                assert(s@[pos + last] == s@.subrange(pos as int, pos + sep@.len())[last as int]);
            }
            pos = pos + sep.len();
            start = pos;
        } else {
            pos = pos + 1;
        }
    }
    proof {
        lemma_ascii_bounded(s@, start as int, s@.len() as int);
    }
    let piece = vstd::slice::slice_subrange(s, start, s.len());
    let ghost p = s@.subrange(start as int, s@.len() as int);
    if let Some(t) = utf8_text(piece) {
        let owned = t.to_owned();
        proof {
            lemma_views_push(parts@, owned, pieces, p);
        }
        parts.push(owned);
    }
    proof {
        assert(split_from(s@, sep@, start as int, pos as int) == seq![p]);
        assert(pieces + seq![p] =~= pieces.push(p));
        pieces = pieces.push(p);
    }
    parts
}

/// A split always has at least one piece.
pub proof fn lemma_split_from_nonempty(s: Seq<u8>, sep: Seq<u8>, start: int, pos: int)
    ensures
        split_from(s, sep, start, pos).len() >= 1,
    decreases s.len() - pos,
{
    if sep.len() == 0 || pos + sep.len() > s.len() {
    } else if occurs_at(s, sep, pos) {
        lemma_split_from_nonempty(s, sep, pos + sep.len(), pos + sep.len());
    } else {
        lemma_split_from_nonempty(s, sep, start, pos + 1);
    }
}

/// The first zero byte lies within the bytes, and no zero byte comes before it.
pub proof fn lemma_nul_end_bounds(s: Seq<u8>)
    ensures
        0 <= nul_end(s) <= s.len(),
        nul_end(s) < s.len() ==> s[nul_end(s)] == 0,
        forall|j: int| 0 <= j < nul_end(s) ==> s[j] != 0,
    decreases s.len(),
{
    if s.len() > 0 && s[0] != 0 {
        let t = s.drop_first();
        lemma_nul_end_bounds(t);
        assert forall|j: int| 0 <= j < nul_end(s) implies s[j] != 0 by {
            if j > 0 {
                assert(s[j] == t[j - 1]);
            }
        }
    }
}

} // verus!
