//! Plain-text primitives the pipeline is built on: a lexicographic order on
//! character sequences, substring and affix tests, digit parsing, and the two
//! case/whitespace operations that std computes for us.

use vstd::prelude::*;
use vstd::string::*;

verus! {

/// Lexicographic strict order on character sequences, by Unicode scalar value.
/// This is the order in which `endonyms`, `languages` and the map keys are kept.
pub open spec fn chars_lt(a: Seq<char>, b: Seq<char>) -> bool
    decreases a.len(),
{
    if b.len() == 0 {
        false
    } else if a.len() == 0 {
        true
    } else if a[0] == b[0] {
        chars_lt(a.drop_first(), b.drop_first())
    } else {
        (a[0] as u32) < (b[0] as u32)
    }
}

pub proof fn lemma_chars_lt_irrefl(a: Seq<char>)
    ensures
        !chars_lt(a, a),
    decreases a.len(),
{
    if a.len() > 0 {
        lemma_chars_lt_irrefl(a.drop_first());
    }
}

pub proof fn lemma_chars_lt_trans(a: Seq<char>, b: Seq<char>, c: Seq<char>)
    requires
        chars_lt(a, b),
        chars_lt(b, c),
    ensures
        chars_lt(a, c),
    decreases a.len() + b.len() + c.len(),
{
    if a.len() > 0 && b.len() > 0 && c.len() > 0 {
        if a[0] == b[0] && b[0] == c[0] {
            lemma_chars_lt_trans(a.drop_first(), b.drop_first(), c.drop_first());
        }
    }
}

pub proof fn lemma_chars_lt_asym(a: Seq<char>, b: Seq<char>)
    requires
        chars_lt(a, b),
    ensures
        !chars_lt(b, a),
{
    if chars_lt(b, a) {
        lemma_chars_lt_trans(a, b, a);
        lemma_chars_lt_irrefl(a);
    }
}

/// Any two character sequences are equal or strictly ordered one way.
pub proof fn lemma_chars_lt_connex(a: Seq<char>, b: Seq<char>)
    ensures
        a == b || chars_lt(a, b) || chars_lt(b, a),
    decreases a.len(),
{
    if a.len() == 0 && b.len() == 0 {
        assert(a =~= b);
    } else if a.len() > 0 && b.len() > 0 {
        if a[0] == b[0] {
            lemma_chars_lt_connex(a.drop_first(), b.drop_first());
            if a.drop_first() == b.drop_first() {
                assert(a.drop_first().len() == b.drop_first().len());
                assert forall|i: int| 0 <= i < a.len() implies a[i] == b[i] by {
                    if i > 0 {
                        assert(a[i] == a.drop_first()[i - 1]);
                        assert(b[i] == b.drop_first()[i - 1]);
                        assert(a.drop_first()[i - 1] == b.drop_first()[i - 1]);
                    }
                }
                assert(a =~= b);
            }
        } else {
            if (a[0] as u32) == (b[0] as u32) {
                vstd::utf8::char_u32_cast(a[0], a[0] as u32);
                vstd::utf8::char_u32_cast(b[0], b[0] as u32);
            }
        }
    }
}

/// Decides `chars_lt` on two string slices.
pub fn str_lt(a: &str, b: &str) -> (r: bool)
    ensures
        r == chars_lt(a@, b@),
{
    let alen = a.unicode_len();
    let blen = b.unicode_len();
    let mut i: usize = 0;
    proof {
        assert(a@.skip(0) =~= a@);
        assert(b@.skip(0) =~= b@);
    }
    loop
        invariant
            i <= alen,
            i <= blen,
            alen == a@.len(),
            blen == b@.len(),
            chars_lt(a@, b@) == chars_lt(a@.skip(i as int), b@.skip(i as int)),
            chars_lt(b@, a@) == chars_lt(b@.skip(i as int), a@.skip(i as int)),
        decreases alen - i,
    {
        if i == blen {
            return false;
        }
        if i == alen {
            return true;
        }
        let ca = a.get_char(i);
        let cb = b.get_char(i);
        if ca == cb {
            proof {
                assert(a@.skip(i as int).drop_first() =~= a@.skip(i + 1));
                assert(b@.skip(i as int).drop_first() =~= b@.skip(i + 1));
            }
            i = i + 1;
        } else {
            return (ca as u32) < (cb as u32);
        }
    }
}

/// `prefix` stands at the start of `s`.
pub open spec fn starts_with(s: Seq<char>, prefix: Seq<char>) -> bool {
    prefix.len() <= s.len() && s.subrange(0, prefix.len() as int) == prefix
}

/// `suffix` stands at the end of `s`.
pub open spec fn ends_with(s: Seq<char>, suffix: Seq<char>) -> bool {
    suffix.len() <= s.len() && s.subrange(s.len() - suffix.len(), s.len() as int) == suffix
}

pub fn str_starts_with(s: &str, prefix: &str) -> (r: bool)
    ensures
        r == starts_with(s@, prefix@),
{
    let slen = s.unicode_len();
    let plen = prefix.unicode_len();
    if plen > slen {
        return false;
    }
    let mut j: usize = 0;
    loop
        invariant
            j <= plen,
            plen <= slen,
            slen == s@.len(),
            plen == prefix@.len(),
            forall|k: int| 0 <= k < j ==> s@[k] == prefix@[k],
        decreases plen - j,
    {
        if j == plen {
            proof {
                assert(s@.subrange(0, plen as int) =~= prefix@);
            }
            return true;
        }
        if s.get_char(j) != prefix.get_char(j) {
            proof {
                if s@.subrange(0, plen as int) == prefix@ {
                    assert(s@.subrange(0, plen as int)[j as int] == prefix@[j as int]);
                }
            }
            return false;
        }
        j = j + 1;
    }
}

pub fn str_ends_with(s: &str, suffix: &str) -> (r: bool)
    ensures
        r == ends_with(s@, suffix@),
{
    let slen = s.unicode_len();
    let xlen = suffix.unicode_len();
    if xlen > slen {
        return false;
    }
    let off = slen - xlen;
    let mut j: usize = 0;
    loop
        invariant
            j <= xlen,
            off == slen - xlen,
            xlen <= slen,
            slen == s@.len(),
            xlen == suffix@.len(),
            forall|k: int| 0 <= k < j ==> s@[off + k] == suffix@[k],
        decreases xlen - j,
    {
        if j == xlen {
            proof {
                assert(s@.subrange(s@.len() - suffix@.len(), s@.len() as int) =~= suffix@);
            }
            return true;
        }
        if s.get_char(off + j) != suffix.get_char(j) {
            proof {
                if s@.subrange(s@.len() - suffix@.len(), s@.len() as int) == suffix@ {
                    assert(s@.subrange(s@.len() - suffix@.len(), s@.len() as int)[j as int]
                        == suffix@[j as int]);
                }
            }
            return false;
        }
        j = j + 1;
    }
}

/// `needle` occurs somewhere in `hay` as a contiguous run.
pub open spec fn contains_sub(hay: Seq<char>, needle: Seq<char>) -> bool {
    exists|k: int|
        0 <= k && k + needle.len() <= hay.len() && #[trigger] hay.subrange(k, k + needle.len())
            == needle
}

fn matches_at(hay: &str, needle: &str, k: usize) -> (r: bool)
    requires
        k + needle@.len() <= hay@.len(),
    ensures
        r == (hay@.subrange(k as int, k + needle@.len()) == needle@),
{
    let hlen = hay.unicode_len();
    let nlen = needle.unicode_len();
    let mut j: usize = 0;
    loop
        invariant
            j <= nlen,
            nlen == needle@.len(),
            hlen == hay@.len(),
            k + nlen <= hlen,
            forall|t: int| 0 <= t < j ==> hay@[k + t] == needle@[t],
        decreases nlen - j,
    {
        if j == nlen {
            proof {
                assert(hay@.subrange(k as int, k + needle@.len()) =~= needle@);
            }
            return true;
        }
        if hay.get_char(k + j) != needle.get_char(j) {
            proof {
                if hay@.subrange(k as int, k + needle@.len()) == needle@ {
                    assert(hay@.subrange(k as int, k + needle@.len())[j as int]
                        == needle@[j as int]);
                }
            }
            return false;
        }
        j = j + 1;
    }
}

pub fn str_contains(hay: &str, needle: &str) -> (r: bool)
    ensures
        r == contains_sub(hay@, needle@),
{
    let hlen = hay.unicode_len();
    let nlen = needle.unicode_len();
    if nlen > hlen {
        return false;
    }
    let mut k: usize = 0;
    loop
        invariant
            k <= hlen - nlen,
            nlen <= hlen,
            hlen == hay@.len(),
            nlen == needle@.len(),
            forall|t: int|
                0 <= t < k ==> #[trigger] hay@.subrange(t, t + needle@.len()) != needle@,
        decreases hlen - nlen - k,
    {
        if matches_at(hay, needle, k) {
            return true;
        }
        if k == hlen - nlen {
            return false;
        }
        k = k + 1;
    }
}

/// One string after another, in order, with nothing in between.
pub open spec fn joined(items: Seq<Seq<char>>) -> Seq<char>
    decreases items.len(),
{
    if items.len() == 0 {
        Seq::empty()
    } else {
        joined(items.drop_last()) + items.last()
    }
}

pub fn join_all(items: &Vec<String>) -> (r: String)
    ensures
        r@ == joined(items.deep_view()),
{
    let mut r = String::new();
    let mut i: usize = 0;
    proof {
        assert(items.deep_view().take(0) =~= Seq::<Seq<char>>::empty());
    }
    loop
        invariant
            i <= items@.len(),
            items.deep_view().len() == items@.len(),
            forall|k: int| 0 <= k < items@.len() ==> items.deep_view()[k] == items@[k]@,
            r@ == joined(items.deep_view().take(i as int)),
        decreases items@.len() - i,
    {
        if i == items.len() {
            proof {
                assert(items.deep_view().take(items@.len() as int) =~= items.deep_view());
            }
            return r;
        }
        r.append(items[i].as_str());
        proof {
            assert(items.deep_view().take(i + 1).drop_last() =~= items.deep_view().take(i as int));
        }
        i = i + 1;
    }
}

pub open spec fn is_ascii_digit(c: char) -> bool {
    ('0' as u32) <= (c as u32) && (c as u32) <= ('9' as u32)
}

pub open spec fn digit_val(c: char) -> int {
    (c as u32) - ('0' as u32)
}

pub open spec fn all_digits(s: Seq<char>) -> bool {
    forall|i: int| 0 <= i < s.len() ==> is_ascii_digit(#[trigger] s[i])
}

/// The number a run of decimal digits denotes, most significant first.
pub open spec fn digits_val(s: Seq<char>) -> int
    decreases s.len(),
{
    if s.len() == 0 {
        0
    } else {
        digits_val(s.drop_last()) * 10 + digit_val(s.last())
    }
}

pub proof fn lemma_digits_val_nonneg(s: Seq<char>)
    requires
        all_digits(s),
    ensures
        digits_val(s) >= 0,
    decreases s.len(),
{
    if s.len() > 0 {
        assert(all_digits(s.drop_last())) by {
            assert forall|k: int| 0 <= k < s.drop_last().len() implies is_ascii_digit(
                #[trigger] s.drop_last()[k],
            ) by {
                assert(s.drop_last()[k] == s[k]);
            }
        }
        lemma_digits_val_nonneg(s.drop_last());
    }
}

/// What `str::parse::<i32>` accepts: an optional single sign, then decimal
/// digits only, at least one of them, denoting a value in the target range.
pub open spec fn spec_parse_i32(s: Seq<char>) -> Option<i32> {
    let neg = s.len() > 0 && s[0] == '-';
    let ds = if s.len() > 0 && (s[0] == '-' || s[0] == '+') {
        s.drop_first()
    } else {
        s
    };
    if ds.len() == 0 || !all_digits(ds) {
        None
    } else {
        let v = if neg {
            -digits_val(ds)
        } else {
            digits_val(ds)
        };
        if i32::MIN <= v <= i32::MAX {
            Some(v as i32)
        } else {
            None
        }
    }
}

/// Reads a decimal integer the way `str::parse::<i32>` does.
#[verifier::loop_isolation(false)]
pub fn parse_i32(s: &str) -> (r: Option<i32>)
    ensures
        r == spec_parse_i32(s@),
{
    let n = s.unicode_len();
    if n == 0 {
        return None;
    }
    let c0 = s.get_char(0);
    let start: usize = if c0 == '-' || c0 == '+' {
        1
    } else {
        0
    };
    let neg = c0 == '-';
    let ghost ds = s@.skip(start as int);
    proof {
        if start == 0 {
            assert(s@.skip(0) =~= s@);
        } else {
            assert(s@.skip(1) =~= s@.drop_first());
        }
    }
    if n - start == 0 {
        return None;
    }
    let mut j: usize = start;
    let mut acc: i64 = 0;
    let mut too_big = false;
    proof {
        assert(ds.take(0) =~= Seq::<char>::empty());
    }
    loop
        invariant
            start <= j <= n,
            n == s@.len(),
            start <= 1,
            ds == s@.skip(start as int),
            ds.len() == n - start,
            all_digits(ds.take(j - start)),
            !too_big ==> 0 <= acc <= 2147483648 && acc as int == digits_val(ds.take(j - start)),
            too_big ==> digits_val(ds.take(j - start)) > 2147483648,
        decreases n - j,
    {
        if j == n {
            break;
        }
        let c = s.get_char(j);
        proof {
            assert(ds[j - start] == s@[j as int]);
        }
        let cu = c as u32;
        if cu < 48 || cu > 57 {
            proof {
                assert(('0' as u32) == 48);
                assert(('9' as u32) == 57);
                assert(!is_ascii_digit(ds[j - start]));
                assert(!all_digits(ds));
            }
            return None;
        }
        proof {
            assert(('0' as u32) == 48);
            assert(('9' as u32) == 57);
            assert(is_ascii_digit(ds[j - start]));
        }
        let d: i64 = cu as i64 - 48;
        proof {
            let pre = ds.take(j - start);
            let pre1 = ds.take(j - start + 1);
            assert(pre1.drop_last() =~= pre);
            assert(pre1.last() == ds[j - start]);
            assert(digits_val(pre1) == digits_val(pre) * 10 + digit_val(ds[j - start]));
            lemma_digits_val_nonneg(pre);
        }
        if too_big {
            proof {
                let pre = ds.take(j - start);
                assert(digits_val(pre) * 10 > 2147483648 * 10);
            }
        } else {
            let next = acc * 10 + d;
            if next > 2147483648 {
                too_big = true;
            } else {
                acc = next;
            }
        }
        j = j + 1;
    }
    proof {
        assert(ds.take(n - start) =~= ds);
    }
    if too_big {
        return None;
    }
    if neg {
        let v: i64 = -acc;
        return Some(v as i32);
    }
    if acc > 2147483647 {
        return None;
    }
    Some(acc as i32)
}

/// Names what `str::to_lowercase` returns: it depends on the characters alone.
pub uninterp spec fn lower_of(s: Seq<char>) -> Seq<char>;

/// Relies on `str::to_lowercase`: the lowercase mapping of the input,
/// a function of its characters alone.
#[verifier::external_body]
pub(crate) fn lowercase(s: &str) -> (r: String)
    ensures
        r@ == lower_of(s@),
{
    s.to_lowercase()
}

/// Names what `str::trim_end` returns: it depends on the characters alone.
pub uninterp spec fn trim_end_of(s: Seq<char>) -> Seq<char>;

/// Relies on `str::trim_end`: all trailing whitespace is removed, so the
/// result is a prefix of the input, and trimming it again changes nothing.
#[verifier::external_body]
pub(crate) fn trim_end_str(s: &str) -> (r: &str)
    ensures
        r@ == trim_end_of(s@),
        r@.len() <= s@.len(),
        r@ == s@.subrange(0, r@.len() as int),
        trim_end_of(r@) == r@,
{
    s.trim_end()
}

} // verus!
