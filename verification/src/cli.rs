//! Small parsers for command-line values: item ids and repository names.

use vstd::prelude::*;
use crate::model::Id;
use crate::text::{after_last, chars_of, decimal, digit_char, string_of, trim_suffix_all};

verus! {

/// The repository name in a URL: the part after the last `/`, with every
/// trailing `.git` taken off.
pub open spec fn repo_name_text(url: Seq<char>) -> Seq<char> {
    trim_suffix_all(after_last(url, '/'), ".git"@)
}

/// The repository name of a URL: see `repo_name_text`. A URL always has a last
/// segment, so this never fails.
pub fn repo_name_from_url(url: &str) -> (res: Result<String, String>)
    ensures
        res matches Ok(name) && name@ == repo_name_text(url@),
{
    proof {
        reveal_strlit(".git");
    }
    let cs = chars_of(url);
    let n = cs.len();
    // find where the last segment starts
    let mut start: usize = n;
    assert(url@.take(n as int) =~= url@);
    assert(url@.skip(n as int) =~= Seq::<char>::empty());
    assert(after_last(url@, '/') + Seq::<char>::empty() =~= after_last(url@, '/'));
    while start > 0 && cs[start - 1] != '/'
        invariant
            start <= n,
            n == cs@.len(),
            cs@ == url@,
            after_last(url@, '/') == after_last(url@.take(start as int), '/') + url@.skip(start as int),
        decreases start,
    {
        proof {
            let t = url@.take(start as int);
            assert(t.drop_last() =~= url@.take(start - 1));
            assert(t.last() == url@[start - 1]);
            assert(after_last(t, '/') == after_last(t.drop_last(), '/').push(t.last()));
            assert(seq![url@[start - 1]] + url@.skip(start as int) =~= url@.skip(start - 1));
            assert(after_last(t.drop_last(), '/').push(t.last()) + url@.skip(start as int)
                =~= after_last(t.drop_last(), '/') + url@.skip(start - 1));
        }
        start = start - 1;
    }
    proof {
        let t = url@.take(start as int);
        if start > 0 {
            assert(t.last() == '/');
        } else {
            assert(t =~= Seq::<char>::empty());
        }
        assert(after_last(t, '/') =~= Seq::<char>::empty());
        assert(after_last(url@, '/') =~= url@.skip(start as int));
    }
    let mut end: usize = n;
    let ghost seg = url@.skip(start as int);
    assert(url@.subrange(start as int, end as int) =~= seg);
    while end - start >= 4 && cs[end - 4] == '.' && cs[end - 3] == 'g' && cs[end - 2] == 'i' && cs[end - 1] == 't'
        invariant
            start <= end <= n,
            n == cs@.len(),
            cs@ == url@,
            seg == url@.skip(start as int),
            ".git"@ == seq!['.', 'g', 'i', 't'],
            trim_suffix_all(url@.subrange(start as int, end as int), ".git"@) == trim_suffix_all(seg, ".git"@),
        decreases end,
    {
        proof {
            let cur = url@.subrange(start as int, end as int);
            assert(".git"@.is_suffix_of(cur)) by {
                assert(".git"@ =~= cur.subrange(cur.len() - 4, cur.len() as int));
            }
            assert(cur.take(cur.len() - 4) =~= url@.subrange(start as int, end - 4));
        }
        end = end - 4;
    }
    proof {
        let cur = url@.subrange(start as int, end as int);
        if ".git"@.is_suffix_of(cur) {
            assert(cur.subrange(cur.len() - 4, cur.len() as int) =~= ".git"@);
            assert(cur[cur.len() - 4] == '.');
            assert(cur[cur.len() - 3] == 'g');
            assert(cur[cur.len() - 2] == 'i');
            assert(cur[cur.len() - 1] == 't');
        }
    }
    let mut name_chars: Vec<char> = Vec::new();
    for k in start..end
        invariant
            start <= end <= n,
            n == cs@.len(),
            cs@ == url@,
            name_chars@ == url@.subrange(start as int, k as int),
    {
        name_chars.push(cs[k]);
        assert(url@.subrange(start as int, k + 1) =~= url@.subrange(start as int, k as int).push(url@[k as int]));
    }
    Ok(string_of(&name_chars))
}

/// Whether every character is a decimal digit.
pub open spec fn all_digits(d: Seq<char>) -> bool {
    forall|i: int| 0 <= i < d.len() ==> '0' <= #[trigger] d[i] <= '9'
}

/// The number the decimal digits stand for.
pub open spec fn digits_value(d: Seq<char>) -> int
    decreases d.len(),
{
    if d.len() == 0 {
        0
    } else {
        digits_value(d.drop_last()) * 10 + (d.last() as int - '0' as int)
    }
}

/// The `u32` a text stands for, as `u32`'s `FromStr` reads it: an optional `+`
/// then at least one decimal digit, the value fitting in 32 bits.
pub open spec fn u32_text_value(s: Seq<char>) -> Option<u32> {
    let d = if s.len() > 0 && s[0] == '+' { s.drop_first() } else { s };
    if d.len() > 0 && all_digits(d) && digits_value(d) <= u32::MAX {
        Some(digits_value(d) as u32)
    } else {
        None
    }
}

pub proof fn lemma_digits_grow(d: Seq<char>, k: int)
    requires
        all_digits(d),
        0 <= k <= d.len(),
    ensures
        digits_value(d.take(k)) <= digits_value(d),
        0 <= digits_value(d.take(k)),
    decreases d.len() - k,
{
    if k < d.len() {
        lemma_digits_grow(d, k + 1);
        let t = d.take(k + 1);
        assert(t.drop_last() =~= d.take(k));
        assert(t.last() == d[k]);
        lemma_digits_nonneg(d.take(k));
    } else {
        assert(d.take(k) =~= d);
        lemma_digits_nonneg(d);
    }
}

pub proof fn lemma_digits_nonneg(d: Seq<char>)
    requires
        all_digits(d),
    ensures
        0 <= digits_value(d),
    decreases d.len(),
{
    if d.len() > 0 {
        assert(all_digits(d.drop_last())) by {
            assert forall|i: int| 0 <= i < d.drop_last().len() implies '0' <= #[trigger] d.drop_last()[i] <= '9' by {
                assert(d.drop_last()[i] == d[i]);
            }
        }
        lemma_digits_nonneg(d.drop_last());
        assert('0' <= d[d.len() - 1] <= '9');
    }
}

/// Reads a non-negative decimal integer as an item id; the error names the text.
pub fn parse_id(s: &str) -> (res: Result<Id, String>)
    ensures
        match res {
            Ok(id) => u32_text_value(s@) == Some(id),
            Err(msg) => u32_text_value(s@) is None
                && msg@ == "Invalid ID: '"@ + s@ + "'. Must be a non-negative integer."@,
        },
{
    match parse_u32(s) {
        Some(v) => Ok(v),
        None => {
            let mut msg = String::from_str("Invalid ID: '");
            msg.append(s);
            msg.append("'. Must be a non-negative integer.");
            Err(msg)
        },
    }
}

/// Reads a `u32` written in decimal: see `u32_text_value`.
pub fn parse_u32(s: &str) -> (res: Option<u32>)
    ensures
        res == u32_text_value(s@),
{
    let cs = chars_of(s);
    let first: usize = if cs.len() > 0 && cs[0] == '+' { 1 } else { 0 };
    let ghost d = if s@.len() > 0 && s@[0] == '+' { s@.drop_first() } else { s@ };
    assert(d =~= s@.skip(first as int));
    if first >= cs.len() {
        return None;
    }
    let mut value: u64 = 0;
    let n = cs.len();
    for k in first..n
        invariant
            n == cs@.len(),
            cs@ == s@,
            first <= n,
            d == s@.skip(first as int),
            d == (if s@.len() > 0 && s@[0] == '+' { s@.drop_first() } else { s@ }),
            all_digits(d.take(k - first)),
            value == digits_value(d.take(k - first)),
            value <= u32::MAX,
    {
        let c = cs[k];
        proof {
            assert(d.take(k + 1 - first).drop_last() =~= d.take(k - first));
            assert(d.take(k + 1 - first).last() == c);
        }
        if c < '0' || c > '9' {
            proof {
                assert(d[k - first] == c);
                assert(!all_digits(d));
                assert(u32_text_value(s@) is None);
            }
            return None;
        }
        let digit = (c as u32 - '0' as u32) as u64;
        let next = value * 10 + digit;
        assert(digits_value(d.take(k + 1 - first)) == next);
        if next > 4294967295 {
            proof {
                assert(all_digits(d.take(k + 1 - first))) by {
                    assert forall|i: int| 0 <= i < d.take(k + 1 - first).len()
                        implies '0' <= #[trigger] d.take(k + 1 - first)[i] <= '9' by {
                        if i < k - first {
                            assert(d.take(k + 1 - first)[i] == d.take(k - first)[i]);
                        }
                    }
                }
                if all_digits(d) {
                    lemma_digits_grow(d, k + 1 - first);
                }
                assert(u32_text_value(s@) is None);
            }
            return None;
        }
        value = next;
        proof {
            assert forall|i: int| 0 <= i < d.take(k + 1 - first).len()
                implies '0' <= #[trigger] d.take(k + 1 - first)[i] <= '9' by {
                if i < k - first {
                    assert(d.take(k + 1 - first)[i] == d.take(k - first)[i]);
                }
            }
        }
    }
    assert(d.take(n - first) =~= d);
    Some(value as u32)
}

pub proof fn lemma_digit_char_value(d: int)
    requires
        0 <= d < 10,
    ensures
        digit_char(d) as int - '0' as int == d,
        '0' <= digit_char(d) <= '9',
{
    assert('0' as int == 48);
    assert('1' as int == 49);
    assert('2' as int == 50);
    assert('3' as int == 51);
    assert('4' as int == 52);
    assert('5' as int == 53);
    assert('6' as int == 54);
    assert('7' as int == 55);
    assert('8' as int == 56);
    assert('9' as int == 57);
}

pub proof fn lemma_decimal_digits(n: nat)
    ensures
        decimal(n).len() > 0,
        all_digits(decimal(n)),
        digits_value(decimal(n)) == n,
        decimal(n)[0] != '+',
    decreases n,
{
    lemma_digit_char_value((n % 10) as int);
    if n < 10 {
        let d = decimal(n);
        assert(d.drop_last() =~= Seq::<char>::empty());
        assert(digits_value(d.drop_last()) == 0);
        assert(d.last() == digit_char(n as int));
        assert(n % 10 == n);
    } else {
        lemma_decimal_digits(n / 10);
        let d = decimal(n);
        let p = decimal(n / 10);
        assert(d == p.push(digit_char((n % 10) as int)));
        assert(d.drop_last() =~= p);
        assert forall|i: int| 0 <= i < d.len() implies '0' <= #[trigger] d[i] <= '9' by {
            if i < p.len() {
                assert(d[i] == p[i]);
            }
        }
        assert(d[0] == p[0]);
        assert(d.last() == digit_char((n % 10) as int));
        assert(digits_value(d) == digits_value(p) * 10 + (n % 10));
        assert((n / 10) * 10 + n % 10 == n) by (nonlinear_arith);
    }
}

/// Reading back the decimal text of a `u32` gives the same number.
pub proof fn law_parse_undoes_decimal(n: u32)
    ensures
        u32_text_value(decimal(n as nat)) == Some(n),
{
    lemma_decimal_digits(n as nat);
}

} // verus!
