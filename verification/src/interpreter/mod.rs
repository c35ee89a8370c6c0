//! The command language of the interactive interpreter: lines that start with
//! `:` hold commands, separated by ASCII whitespace.
use vstd::prelude::*;
use vstd::string::*;
use crate::text::push_char;

pub mod commands;
pub mod int_tree;
pub mod lines;
pub mod owned_errors;
pub mod process;
pub mod program;

verus! {

/// ASCII whitespace: space, tab, line feed, form feed and carriage return.
pub open spec fn is_ascii_ws(c: char) -> bool {
    c == ' ' || c == '\t' || c == '\n' || c == '\x0C' || c == '\r'
}

/// The words of `s` after the partial word `cur`, split at ASCII whitespace.
pub open spec fn words_after(s: Seq<char>, cur: Seq<char>) -> Seq<Seq<char>>
    decreases s.len(),
{
    if s.len() == 0 {
        if cur.len() == 0 { seq![] } else { seq![cur] }
    } else if is_ascii_ws(s[0]) {
        (if cur.len() == 0 { seq![] } else { seq![cur] }) + words_after(s.drop_first(), seq![])
    } else {
        words_after(s.drop_first(), cur.push(s[0]))
    }
}

/// The non-empty words of `s` separated by ASCII whitespace, in order.
pub open spec fn words(s: Seq<char>) -> Seq<Seq<char>> {
    words_after(s, seq![])
}

/// The character contents of a list of strings.
pub open spec fn strings_view(v: Seq<String>) -> Seq<Seq<char>> {
    v.map_values(|t: String| t@)
}

/// The value of a sequence of decimal digits.
pub open spec fn digits_value(s: Seq<char>) -> nat
    decreases s.len(),
{
    if s.len() == 0 {
        0
    } else {
        digits_value(s.drop_last()) * 10 + ((s.last() as nat) - ('0' as nat)) as nat
    }
}

/// Whether every character of `s` is a decimal digit.
pub open spec fn all_digits(s: Seq<char>) -> bool {
    forall|i: int| 0 <= i < s.len() ==> '0' <= #[trigger] s[i] <= '9'
}

/// The digits of a number in the form `str::parse::<usize>` reads: an optional `+` sign.
pub open spec fn unsigned_digits(s: Seq<char>) -> Seq<char> {
    if s.len() > 0 && s[0] == '+' { s.drop_first() } else { s }
}

/// The `usize` that `s` denotes in the form `str::parse::<usize>` accepts
/// (an optional `+`, then one or more decimal digits, within range), or `None`.
pub open spec fn parse_usize_spec(s: Seq<char>) -> Option<usize> {
    let d = unsigned_digits(s);
    if d.len() > 0 && all_digits(d) && digits_value(d) <= usize::MAX {
        Some(digits_value(d) as usize)
    } else {
        None
    }
}

/// The characters of `s`.
pub fn chars_of(s: &str) -> (v: Vec<char>)
    ensures
        v@ == s@,
{
    let n = s.unicode_len();
    let mut v: Vec<char> = Vec::new();
    let mut i: usize = 0;
    while i < n
        invariant
            n == s@.len(),
            i <= n,
            v@ == s@.take(i as int),
        decreases n - i,
    {
        v.push(s.get_char(i));
        proof {
            assert(s@.take(i + 1) =~= s@.take(i as int).push(s@[i as int]));
        }
        i = i + 1;
    }
    proof {
        assert(s@.take(n as int) =~= s@);
    }
    v
}

fn is_ws(c: char) -> (b: bool)
    ensures
        b == is_ascii_ws(c),
{
    c == ' ' || c == '\t' || c == '\n' || c == '\x0C' || c == '\r'
}

/// Splits `s`, from character `start` on, into its words separated by ASCII whitespace.
pub fn split_words(s: &Vec<char>, start: usize) -> (w: Vec<String>)
    requires
        start <= s@.len(),
    ensures
        strings_view(w@) == words(s@.skip(start as int)),
{
    let mut out: Vec<String> = Vec::new();
    let mut cur = String::new();
    let mut i = start;
    while i < s.len()
        invariant
            start <= i <= s@.len(),
            strings_view(out@) + words_after(s@.skip(i as int), cur@) == words(s@.skip(start as int)),
        decreases s@.len() - i,
    {
        let c = s[i];
        let ghost rest = s@.skip(i as int);
        proof {
            assert(rest.drop_first() =~= s@.skip(i + 1));
            assert(rest[0] == c);
        }
        if is_ws(c) {
            if cur.unicode_len() > 0 {
                let ghost ov = strings_view(out@);
                let ghost cv = cur@;
                out.push(cur);
                proof {
                    assert(strings_view(out@) =~= ov.push(cv));
                    assert(ov + words_after(rest, cv) =~= ov.push(cv) + words_after(
                        s@.skip(i + 1),
                        seq![],
                    ));
                }
                cur = String::new();
            } else {
                proof {
                    assert(words_after(rest, cur@) =~= words_after(s@.skip(i + 1), seq![]));
                }
                cur = String::new();
            }
        } else {
            push_char(&mut cur, c);
        }
        i = i + 1;
    }
    proof {
        assert(s@.skip(i as int) =~= Seq::<char>::empty());
    }
    if cur.unicode_len() > 0 {
        let ghost ov = strings_view(out@);
        let ghost cv = cur@;
        out.push(cur);
        proof {
            assert(strings_view(out@) =~= ov.push(cv));
            assert(ov + seq![cv] =~= ov.push(cv));
        }
    } else {
        proof {
            assert(strings_view(out@) + Seq::<Seq<char>>::empty() =~= strings_view(out@));
        }
    }
    out
}

/// Whether `t` holds exactly the characters of `lit`.
pub fn eq_lit(t: &str, lit: &str) -> (b: bool)
    ensures
        b == (t@ == lit@),
{
    let n = t.unicode_len();
    let m = lit.unicode_len();
    if n != m {
        return false;
    }
    let mut i: usize = 0;
    while i < n
        invariant
            n == t@.len(),
            m == lit@.len(),
            n == m,
            i <= n,
            t@.take(i as int) == lit@.take(i as int),
        decreases n - i,
    {
        if t.get_char(i) != lit.get_char(i) {
            return false;
        }
        proof {
            assert(t@.take(i + 1) =~= t@.take(i as int).push(t@[i as int]));
            assert(lit@.take(i + 1) =~= lit@.take(i as int).push(lit@[i as int]));
        }
        i = i + 1;
    }
    proof {
        assert(t@ =~= t@.take(n as int));
        assert(lit@ =~= lit@.take(n as int));
    }
    true
}

/// Reads `t` as `str::parse::<usize>` does: `None` where that returns an error.
pub fn parse_usize(t: &str) -> (r: Option<usize>)
    ensures
        r == parse_usize_spec(t@),
{
    let n = t.unicode_len();
    let mut i: usize = 0;
    if n > 0 && t.get_char(0) == '+' {
        i = 1;
    }
    let ghost d = unsigned_digits(t@);
    proof {
        assert(d =~= t@.skip(i as int));
    }
    if i >= n {
        return None;
    }
    let start = i;
    let mut value: usize = 0;
    while i < n
        invariant
            n == t@.len(),
            start <= i <= n,
            d == t@.skip(start as int),
            d == unsigned_digits(t@),
            all_digits(t@.subrange(start as int, i as int)),
            value as nat == digits_value(t@.subrange(start as int, i as int)),
        decreases n - i,
    {
        let c = t.get_char(i);
        let ghost pre = t@.subrange(start as int, i as int);
        let ghost next = t@.subrange(start as int, i + 1);
        proof {
            assert(next =~= pre.push(c));
            assert(next.drop_last() =~= pre);
        }
        if c < '0' || c > '9' {
            proof {
                assert(d[i - start] == c);
                assert(!all_digits(d));
            }
            return None;
        }
        let digit = (c as u32 - '0' as u32) as usize;
        match value.checked_mul(10) {
            Some(v10) => match v10.checked_add(digit) {
                Some(v) => {
                    value = v;
                },
                None => {
                    proof {
                        assert(d.take((i + 1 - start) as int) =~= next);
                        if all_digits(d) {
                            lemma_digits_value_monotone(d, (i + 1 - start) as int);
                        }
                    }
                    return None;
                },
            },
            None => {
                proof {
                    assert(d.take((i + 1 - start) as int) =~= next);
                    if all_digits(d) {
                        lemma_digits_value_monotone(d, (i + 1 - start) as int);
                    }
                }
                return None;
            },
        }
        i = i + 1;
    }
    proof {
        assert(t@.subrange(start as int, n as int) =~= d);
    }
    Some(value)
}

/// A prefix of a digit sequence has a value no greater than the whole.
proof fn lemma_digits_value_monotone(d: Seq<char>, k: int)
    requires
        0 <= k <= d.len(),
        all_digits(d),
    ensures
        digits_value(d.take(k)) <= digits_value(d),
    decreases d.len() - k,
{
    if k < d.len() {
        lemma_digits_value_monotone(d, k + 1);
        let a = d.take(k);
        let b = d.take(k + 1);
        assert(b.drop_last() =~= a);
        assert(b.last() == d[k]);
        assert('0' <= d[k] <= '9');
        assert(digits_value(a) <= digits_value(b));
    } else {
        assert(d.take(k) =~= d);
    }
}

} // verus!
