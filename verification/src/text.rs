//! Byte- and character-level text primitives: substring search, anchor
//! splicing, ASCII lower-casing, decimal rendering, and string comparison.
//!
//! Message bodies and header names/values are byte sequences; domains,
//! patterns and payloads are character strings. Everything here is pure.

use vstd::prelude::*;
use vstd::string::StrSliceExecFns;

verus! {

// ---------------------------------------------------------------------------
// Byte sequences: search and splice
// ---------------------------------------------------------------------------

/// True when `pat` is non-empty and occurs somewhere in `hay`.
pub open spec fn contains_sub(hay: Seq<u8>, pat: Seq<u8>) -> bool
    decreases hay.len(),
{
    if pat.len() == 0 {
        false
    } else if hay.len() < pat.len() {
        false
    } else if hay.subrange(0, pat.len() as int) == pat {
        true
    } else {
        contains_sub(hay.drop_first(), pat)
    }
}

/// `hay` with `ins` inserted immediately before every (leftmost,
/// non-overlapping) occurrence of `pat`. An empty `pat` leaves `hay` as it is.
pub open spec fn splice_before_all(hay: Seq<u8>, pat: Seq<u8>, ins: Seq<u8>) -> Seq<u8>
    decreases hay.len(),
{
    if pat.len() == 0 || hay.len() < pat.len() {
        hay
    } else if hay.subrange(0, pat.len() as int) == pat {
        ins + pat + splice_before_all(hay.skip(pat.len() as int), pat, ins)
    } else {
        seq![hay[0]] + splice_before_all(hay.drop_first(), pat, ins)
    }
}

/// True when the bytes of `a` and `b` are equal.
pub fn bytes_eq(a: &Vec<u8>, b: &Vec<u8>) -> (r: bool)
    ensures
        r == (a@ == b@),
{
    if a.len() != b.len() {
        return false;
    }
    let mut i: usize = 0;
    while i < a.len()
        invariant
            i <= a.len(),
            a.len() == b.len(),
            forall|k: int| 0 <= k < i ==> a@[k] == b@[k],
        decreases a.len() - i,
    {
        if a[i] != b[i] {
            return false;
        }
        i += 1;
    }
    proof {
        assert(a@ =~= b@);
    }
    true
}

/// True when `pat` occurs in `hay` starting at index `at`.
fn matches_at(hay: &Vec<u8>, pat: &Vec<u8>, at: usize) -> (r: bool)
    requires
        at + pat@.len() <= hay@.len(),
    ensures
        r == (hay@.subrange(at as int, at + pat@.len()) == pat@),
{
    let hlen: usize = hay.len();
    let mut j: usize = 0;
    while j < pat.len()
        invariant
            j <= pat@.len(),
            at + pat@.len() <= hay@.len(),
            hlen == hay@.len(),
            forall|k: int| 0 <= k < j ==> hay@[at + k] == pat@[k],
        decreases pat@.len() - j,
    {
        proof {
            assert(at + j < hlen);
        }
        if hay[at + j] != pat[j] {
            proof {
                assert(hay@.subrange(at as int, at + pat@.len())[j as int] != pat@[j as int]);
            }
            return false;
        }
        j += 1;
    }
    proof {
        assert(hay@.subrange(at as int, at + pat@.len()) =~= pat@);
    }
    true
}

/// True when the non-empty byte pattern `pat` occurs somewhere in `hay`.
pub fn contains_bytes(hay: &Vec<u8>, pat: &Vec<u8>) -> (r: bool)
    requires
        pat@.len() > 0,
    ensures
        r == contains_sub(hay@, pat@),
{
    if pat.len() > hay.len() {
        return false;
    }
    let mut i: usize = 0;
    proof {
        assert(hay@.skip(0) =~= hay@);
    }
    while i <= hay.len() - pat.len()
        invariant
            pat@.len() > 0,
            pat@.len() <= hay@.len(),
            i <= hay@.len(),
            contains_sub(hay@, pat@) == contains_sub(hay@.skip(i as int), pat@),
        decreases hay@.len() - i,
    {
        if matches_at(hay, pat, i) {
            proof {
                assert(hay@.skip(i as int).subrange(0, pat@.len() as int) =~= hay@.subrange(
                    i as int,
                    i + pat@.len(),
                ));
            }
            return true;
        }
        proof {
            assert(hay@.skip(i as int).subrange(0, pat@.len() as int) =~= hay@.subrange(
                i as int,
                i + pat@.len(),
            ));
            assert(hay@.skip(i as int).drop_first() =~= hay@.skip(i + 1));
        }
        i += 1;
    }
    proof {
        assert(hay@.skip(i as int).len() < pat@.len());
    }
    false
}

/// Appends all bytes of `xs` to `out`.
pub fn push_all(out: &mut Vec<u8>, xs: &Vec<u8>)
    ensures
        final(out)@ == old(out)@ + xs@,
{
    let mut j: usize = 0;
    while j < xs.len()
        invariant
            j <= xs@.len(),
            out@ == old(out)@ + xs@.subrange(0, j as int),
        decreases xs@.len() - j,
    {
        out.push(xs[j]);
        proof {
            assert(old(out)@ + xs@.subrange(0, j as int) + seq![xs@[j as int]] =~= old(out)@
                + xs@.subrange(0, j + 1));
        }
        j += 1;
    }
    proof {
        assert(xs@.subrange(0, xs@.len() as int) =~= xs@);
    }
}

/// `hay` with `ins` inserted before every occurrence of the non-empty
/// pattern `pat`, scanning left to right without overlap.
pub fn splice_all(hay: &Vec<u8>, pat: &Vec<u8>, ins: &Vec<u8>) -> (out: Vec<u8>)
    requires
        pat@.len() > 0,
    ensures
        out@ == splice_before_all(hay@, pat@, ins@),
{
    let mut out: Vec<u8> = Vec::new();
    let mut i: usize = 0;
    proof {
        assert(hay@.skip(0) =~= hay@);
    }
    while i < hay.len()
        invariant
            pat@.len() > 0,
            i <= hay@.len(),
            splice_before_all(hay@, pat@, ins@) == out@ + splice_before_all(
                hay@.skip(i as int),
                pat@,
                ins@,
            ),
        decreases hay@.len() - i,
    {
        if pat.len() <= hay.len() - i && matches_at(hay, pat, i) {
            let ghost before = out@;
            push_all(&mut out, ins);
            push_all(&mut out, pat);
            proof {
                let rest = hay@.skip(i as int);
                assert(rest.subrange(0, pat@.len() as int) =~= hay@.subrange(
                    i as int,
                    i + pat@.len(),
                ));
                assert(rest.skip(pat@.len() as int) =~= hay@.skip(i + pat@.len()));
                assert(out@ + splice_before_all(hay@.skip(i + pat@.len()), pat@, ins@) =~= before
                    + (ins@ + pat@ + splice_before_all(hay@.skip(i + pat@.len()), pat@, ins@)));
            }
            i += pat.len();
        } else {
            let ghost before = out@;
            out.push(hay[i]);
            proof {
                let rest = hay@.skip(i as int);
                assert(rest[0] == hay@[i as int]);
                if rest.len() >= pat@.len() {
                    assert(rest.subrange(0, pat@.len() as int) =~= hay@.subrange(
                        i as int,
                        i + pat@.len(),
                    ));
                }
                assert(rest.drop_first() =~= hay@.skip(i + 1));
                assert(out@ + splice_before_all(hay@.skip(i + 1), pat@, ins@) =~= before + (seq![
                    rest[0],
                ] + splice_before_all(rest.drop_first(), pat@, ins@)));
            }
            i += 1;
        }
    }
    proof {
        assert(hay@.skip(i as int) =~= Seq::<u8>::empty());
        assert(out@ + splice_before_all(hay@.skip(i as int), pat@, ins@) =~= out@);
    }
    out
}

/// Returns a fresh vector holding the bytes of `v`.
pub fn copy_bytes(v: &Vec<u8>) -> (r: Vec<u8>)
    ensures
        r@ == v@,
{
    let mut r: Vec<u8> = Vec::new();
    push_all(&mut r, v);
    proof {
        assert(r@ =~= v@);
    }
    r
}

/// A UTF-8 encoding is at least as long as the character sequence it encodes;
/// in particular the encoding of a non-empty string is non-empty.
pub proof fn lemma_encode_utf8_len_ge(chars: Seq<char>)
    ensures
        vstd::utf8::encode_utf8(chars).len() >= chars.len(),
    decreases chars.len(),
{
    if chars.len() > 0 {
        lemma_encode_utf8_len_ge(chars.drop_first());
    }
}

// ---------------------------------------------------------------------------
// Character strings: comparison and suffix matching
// ---------------------------------------------------------------------------

/// True when the `n` characters of `a` starting at `ai` equal the `n`
/// characters of `b` starting at `bi`.
pub fn str_eq_region(a: &str, ai: usize, b: &str, bi: usize, n: usize) -> (r: bool)
    requires
        ai + n <= a@.len(),
        bi + n <= b@.len(),
    ensures
        r == (forall|k: int| 0 <= k < n ==> #[trigger] a@[ai + k] == b@[bi + k]),
{
    let alen: usize = a.unicode_len();
    let blen: usize = b.unicode_len();
    let mut j: usize = 0;
    while j < n
        invariant
            j <= n,
            ai + n <= a@.len(),
            bi + n <= b@.len(),
            alen == a@.len(),
            blen == b@.len(),
            forall|k: int| 0 <= k < j ==> #[trigger] a@[ai + k] == b@[bi + k],
        decreases n - j,
    {
        proof {
            assert(ai + j < alen);
            assert(bi + j < blen);
        }
        if a.get_char(ai + j) != b.get_char(bi + j) {
            return false;
        }
        j += 1;
    }
    true
}

/// True when `a` and `b` hold the same characters.
pub fn str_eq(a: &str, b: &str) -> (r: bool)
    ensures
        r == (a@ == b@),
{
    let alen = a.unicode_len();
    let blen = b.unicode_len();
    if alen != blen {
        return false;
    }
    let r = str_eq_region(a, 0, b, 0, alen);
    proof {
        if r {
            assert forall|k: int| 0 <= k < alen implies a@[k] == b@[k] by {
                assert(a@[0 + k] == b@[0 + k]);
            }
            assert(a@ =~= b@);
        }
    }
    r
}

/// True when `s` is the single wildcard character `*`.
pub fn is_star(s: &str) -> (r: bool)
    ensures
        r == (s@ =~= seq!['*']),
{
    let slen = s.unicode_len();
    slen == 1 && s.get_char(0) == '*'
}

/// True when `d` ends in `.` followed by `e`: a suffix match on a dot
/// boundary only, never an arbitrary substring match.
pub open spec fn suffix_on_dot(d: Seq<char>, e: Seq<char>) -> bool {
    &&& d.len() > e.len()
    &&& d[d.len() - e.len() - 1] == '.'
    &&& forall|k: int| 0 <= k < e.len() ==> #[trigger] d[d.len() - e.len() + k] == e[k]
}

/// True when the domain `d` equals the list entry `e` or ends with `.`
/// followed by `e`.
pub open spec fn domain_covered_by(d: Seq<char>, e: Seq<char>) -> bool {
    d == e || suffix_on_dot(d, e)
}

/// Decides `domain_covered_by` for a domain and one list entry.
pub fn domain_covered(domain: &str, entry: &str) -> (r: bool)
    ensures
        r == domain_covered_by(domain@, entry@),
{
    let dlen = domain.unicode_len();
    let elen = entry.unicode_len();
    if dlen == elen {
        let r = str_eq_region(domain, 0, entry, 0, dlen);
        proof {
            if r {
                assert forall|k: int| 0 <= k < dlen implies domain@[k] == entry@[k] by {
                    assert(domain@[0 + k] == entry@[0 + k]);
                }
                assert(domain@ =~= entry@);
            }
        }
        r
    } else if dlen > elen {
        if domain.get_char(dlen - elen - 1) == '.' {
            str_eq_region(domain, dlen - elen, entry, 0, elen)
        } else {
            false
        }
    } else {
        false
    }
}

/// True when some entry of `list` is exactly `s`.
pub open spec fn seq_contains_str(list: Seq<Seq<char>>, s: Seq<char>) -> bool {
    exists|i: int| 0 <= i < list.len() && list[i] == s
}

/// True when some entry of `list` equals `s`.
pub fn list_contains(list: &Vec<String>, s: &str) -> (r: bool)
    ensures
        r == seq_contains_str(list.deep_view(), s@),
{
    let mut i: usize = 0;
    while i < list.len()
        invariant
            i <= list@.len(),
            list.deep_view().len() == list@.len(),
            forall|k: int| 0 <= k < i ==> list.deep_view()[k] != s@,
        decreases list@.len() - i,
    {
        proof {
            assert(list.deep_view()[i as int] == list@[i as int]@);
        }
        if str_eq(list[i].as_str(), s) {
            return true;
        }
        i += 1;
    }
    false
}

// ---------------------------------------------------------------------------
// ASCII lower-casing of bytes
// ---------------------------------------------------------------------------

/// ASCII lower-casing of one byte.
pub open spec fn lower_byte(b: u8) -> u8 {
    if 65 <= b && b <= 90 {
        (b + 32) as u8
    } else {
        b
    }
}

/// ASCII lower-casing of a byte sequence.
pub open spec fn lower_bytes(s: Seq<u8>) -> Seq<u8> {
    s.map_values(|b: u8| lower_byte(b))
}

/// Returns `name` with every ASCII upper-case letter lower-cased.
pub fn lower_vec(name: &Vec<u8>) -> (r: Vec<u8>)
    ensures
        r@ == lower_bytes(name@),
{
    let mut r: Vec<u8> = Vec::new();
    let mut i: usize = 0;
    while i < name.len()
        invariant
            i <= name@.len(),
            r@ =~= lower_bytes(name@.subrange(0, i as int)),
        decreases name@.len() - i,
    {
        let b = name[i];
        if 65 <= b && b <= 90 {
            r.push(b + 32);
        } else {
            r.push(b);
        }
        proof {
            assert(r@ =~= lower_bytes(name@.subrange(0, i + 1)));
        }
        i += 1;
    }
    proof {
        assert(name@.subrange(0, name@.len() as int) =~= name@);
    }
    r
}

// ---------------------------------------------------------------------------
// Decimal rendering
// ---------------------------------------------------------------------------

/// The ASCII decimal digits of `n`, most significant first.
pub open spec fn dec_digits(n: nat) -> Seq<u8>
    decreases n,
{
    if n < 10 {
        seq![(48 + n) as u8]
    } else {
        dec_digits(n / 10).push((48 + n % 10) as u8)
    }
}

/// Renders `n` as ASCII decimal digits.
pub fn u64_to_dec(n: u64) -> (r: Vec<u8>)
    ensures
        r@ == dec_digits(n as nat),
{
    let mut r: Vec<u8> = Vec::new();
    let mut m: u64 = n;
    while m >= 10
        invariant
            dec_digits(n as nat) =~= dec_digits(m as nat) + r@,
        decreases m,
    {
        let ghost before = r@;
        let d = (m % 10) as u8;
        r.insert(0, 48 + d);
        proof {
            assert(r@ =~= seq![(48 + (m as nat) % 10) as u8] + before);
            assert(dec_digits(m as nat) == dec_digits((m as nat) / 10).push(
                (48 + (m as nat) % 10) as u8,
            ));
            assert(dec_digits((m as nat) / 10).push((48 + (m as nat) % 10) as u8) + before
                =~= dec_digits((m as nat) / 10) + (seq![(48 + (m as nat) % 10) as u8] + before));
            assert((m / 10) as nat == (m as nat) / 10);
        }
        m = m / 10;
    }
    let ghost before = r@;
    r.insert(0, 48 + (m as u8));
    proof {
        assert(r@ =~= seq![(48 + (m as nat)) as u8] + before);
        assert(dec_digits(m as nat) == seq![(48 + (m as nat)) as u8]);
        assert(dec_digits(n as nat) =~= r@);
    }
    r
}

} // verus!

