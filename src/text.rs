//! Character-level text handling for the command language: splitting, trimming, case folding
//! and integer parsing, over `Vec<char>` with contracts over `Seq<char>`.

use vstd::prelude::*;
use vstd::string::StrSliceExecFns;

verus! {

/// Whether `c` is white space in the sense of `char::is_whitespace`.
pub uninterp spec fn is_space(c: char) -> bool;

/// The lower-case form of a text, in the sense of `str::to_lowercase`.
pub uninterp spec fn lower_of(s: Seq<char>) -> Seq<char>;

/// The `Debug` rendering of a list of strings, as `format!("{:?}", ..)` writes it.
pub uninterp spec fn debug_list_of(items: Seq<Seq<char>>) -> Seq<char>;

/// Relies on `char::is_whitespace`: the answer depends on the character alone.
#[verifier::external_body]
fn is_whitespace(c: char) -> (r: bool)
    ensures
        r == is_space(c),
{
    c.is_whitespace()
}

/// Relies on `str::to_lowercase`: the result depends on the characters alone.
#[verifier::external_body]
pub(crate) fn to_lower(s: &Vec<char>) -> (r: Vec<char>)
    ensures
        r@ == lower_of(s@),
{
    s.iter().collect::<String>().to_lowercase().chars().collect()
}

/// Relies on the `Debug` formatting of a slice of `String`s: the result depends on the
/// characters of the items alone.
#[verifier::external_body]
pub(crate) fn debug_list(items: &[Vec<char>]) -> (r: Vec<char>)
    ensures
        r@ == debug_list_of(items@.map_values(|w: Vec<char>| w@)),
{
    let words: Vec<String> = items.iter().map(|w| w.iter().collect()).collect();
    format!("{:?}", words).chars().collect()
}

/// Relies on collecting `char`s into a `String`: the string holds exactly those characters.
#[verifier::external_body]
pub(crate) fn string_of(v: &Vec<char>) -> (r: String)
    ensures
        r@ == v@,
{
    v.iter().collect()
}

/// The characters of `s`.
pub fn chars_of(s: &str) -> (r: Vec<char>)
    ensures
        r@ == s@,
{
    let n = s.unicode_len();
    let mut r: Vec<char> = Vec::new();
    let mut i: usize = 0;
    while i < n
        invariant
            n == s@.len(),
            0 <= i <= n,
            r@ == s@.take(i as int),
        decreases n - i,
    {
        r.push(s.get_char(i));
        proof {
            assert(s@.take(i + 1) =~= s@.take(i as int).push(s@[i as int]));
        }
        i += 1;
    }
    assert(s@.take(n as int) =~= s@);
    r
}

/// The pieces of `s` between occurrences of `sep`, as `str::split` gives them: empty pieces
/// included, one more piece than there are separators.
pub open spec fn split(s: Seq<char>, sep: char) -> Seq<Seq<char>>
    decreases s.len(),
{
    if s.len() == 0 {
        seq![Seq::empty()]
    } else {
        let prev = split(s.drop_last(), sep);
        if s.last() == sep {
            prev.push(Seq::empty())
        } else {
            prev.update(prev.len() - 1, prev.last().push(s.last()))
        }
    }
}

/// The non-empty pieces of `s` between occurrences of `sep`.
pub open spec fn fields(s: Seq<char>, sep: char) -> Seq<Seq<char>> {
    split(s, sep).filter(|p: Seq<char>| p.len() > 0)
}

/// `s` without its leading white space.
pub open spec fn trim_start(s: Seq<char>) -> Seq<char>
    decreases s.len(),
{
    if s.len() > 0 && is_space(s[0]) {
        trim_start(s.drop_first())
    } else {
        s
    }
}

/// `s` without its trailing white space.
pub open spec fn trim_end(s: Seq<char>) -> Seq<char>
    decreases s.len(),
{
    if s.len() > 0 && is_space(s.last()) {
        trim_end(s.drop_last())
    } else {
        s
    }
}

/// `s` without leading and trailing white space, as `str::trim` gives it.
pub open spec fn trim(s: Seq<char>) -> Seq<char> {
    trim_end(trim_start(s))
}

/// The character sequences that a list of character vectors holds.
pub open spec fn views(v: Seq<Vec<char>>) -> Seq<Seq<char>> {
    v.map_values(|w: Vec<char>| w@)
}

proof fn lemma_split_len(s: Seq<char>, sep: char)
    ensures
        split(s, sep).len() >= 1,
    decreases s.len(),
{
    if s.len() > 0 {
        lemma_split_len(s.drop_last(), sep);
    }
}

/// The pieces of `s` between occurrences of `sep`.
pub fn split_on(s: &Vec<char>, sep: char) -> (r: Vec<Vec<char>>)
    ensures
        views(r@) == split(s@, sep),
{
    let mut done: Vec<Vec<char>> = Vec::new();
    let mut cur: Vec<char> = Vec::new();
    let mut i: usize = 0;
    while i < s.len()
        invariant
            0 <= i <= s@.len(),
            views(done@).push(cur@) == split(s@.take(i as int), sep),
        decreases s@.len() - i,
    {
        let c = s[i];
        proof {
            assert(s@.take(i + 1).drop_last() =~= s@.take(i as int));
            lemma_split_len(s@.take(i as int), sep);
        }
        if c == sep {
            let piece = cur;
            done.push(piece);
            cur = Vec::new();
            proof {
                assert(views(done@).push(cur@) =~= split(s@.take(i + 1), sep));
            }
        } else {
            cur.push(c);
            proof {
                assert(views(done@).push(cur@) =~= split(s@.take(i + 1), sep));
            }
        }
        i += 1;
    }
    done.push(cur);
    assert(s@.take(s@.len() as int) =~= s@);
    assert(views(done@) =~= split(s@, sep));
    done
}

/// The non-empty pieces of `s` between occurrences of `sep`.
pub fn fields_on(s: &Vec<char>, sep: char) -> (r: Vec<Vec<char>>)
    ensures
        views(r@) == fields(s@, sep),
{
    let pieces = split_on(s, sep);
    let ghost ps = views(pieces@);
    let mut r: Vec<Vec<char>> = Vec::new();
    let mut k: usize = 0;
    proof {
        reveal(Seq::filter);
        assert(ps.take(0) =~= Seq::<Seq<char>>::empty());
    }
    while k < pieces.len()
        invariant
            ps == views(pieces@),
            ps == split(s@, sep),
            0 <= k <= pieces@.len(),
            views(r@) == ps.take(k as int).filter(|p: Seq<char>| p.len() > 0),
        decreases pieces@.len() - k,
    {
        proof {
            reveal(Seq::filter);
            assert(ps.take(k + 1).drop_last() =~= ps.take(k as int));
        }
        if pieces[k].len() > 0 {
            r.push(pieces[k].clone());
            proof {
                assert(views(r@) =~= ps.take(k + 1).filter(|p: Seq<char>| p.len() > 0));
            }
        }
        k += 1;
    }
    assert(ps.take(pieces@.len() as int) =~= ps);
    r
}

/// `s` without leading and trailing white space.
pub fn trimmed(s: &Vec<char>) -> (r: Vec<char>)
    ensures
        r@ == trim(s@),
{
    let n = s.len();
    let mut i: usize = 0;
    assert(s@ =~= s@.subrange(0, n as int));
    while i < n && is_whitespace(s[i])
        invariant
            n == s@.len(),
            0 <= i <= n,
            trim_start(s@) == trim_start(s@.subrange(i as int, n as int)),
        decreases n - i,
    {
        proof {
            assert(s@.subrange(i as int, n as int).drop_first() =~= s@.subrange(i + 1, n as int));
        }
        i += 1;
    }
    let mut j: usize = n;
    proof {
        assert(s@ =~= s@.subrange(0, n as int));
        assert(trim_start(s@) == s@.subrange(i as int, n as int));
    }
    while j > i && is_whitespace(s[j - 1])
        invariant
            n == s@.len(),
            0 <= i <= j <= n,
            trim(s@) == trim_end(s@.subrange(i as int, j as int)),
        decreases j,
    {
        proof {
            assert(s@.subrange(i as int, j as int).drop_last() =~= s@.subrange(i as int, j - 1));
        }
        j -= 1;
    }
    let mut r: Vec<char> = Vec::new();
    let mut k: usize = i;
    while k < j
        invariant
            0 <= i <= k <= j <= n,
            n == s@.len(),
            r@ == s@.subrange(i as int, k as int),
        decreases j - k,
    {
        r.push(s[k]);
        proof {
            assert(r@ =~= s@.subrange(i as int, k + 1));
        }
        k += 1;
    }
    r
}

pub open spec fn is_digit(c: char) -> bool {
    '0' <= c <= '9'
}

pub open spec fn all_digits(s: Seq<char>) -> bool {
    forall|i: int| 0 <= i < s.len() ==> is_digit(#[trigger] s[i])
}

/// The value of the decimal digits `s`.
pub open spec fn digits_value(s: Seq<char>) -> int
    decreases s.len(),
{
    if s.len() == 0 {
        0
    } else {
        10 * digits_value(s.drop_last()) + (s.last() as int - '0' as int)
    }
}

/// The integer that `s` writes, as `isize::from_str` reads it: an optional `+` or `-`, then at
/// least one decimal digit and nothing else, with a value that fits in an `isize`.
pub open spec fn parse_isize(s: Seq<char>) -> Option<int> {
    let neg = s.len() > 0 && s[0] == '-';
    let body = if s.len() > 0 && (s[0] == '-' || s[0] == '+') {
        s.drop_first()
    } else {
        s
    };
    let v = if neg {
        -digits_value(body)
    } else {
        digits_value(body)
    };
    if body.len() > 0 && all_digits(body) && isize::MIN <= v <= isize::MAX {
        Some(v)
    } else {
        None
    }
}

/// A longer run of digits is worth at least as much as its prefixes.
proof fn lemma_digits_grow(s: Seq<char>, j: int)
    requires
        all_digits(s),
        0 <= j <= s.len(),
    ensures
        0 <= digits_value(s.take(j)) <= digits_value(s),
    decreases s.len(),
{
    if j == s.len() {
        assert(s.take(j) =~= s);
        if s.len() > 0 {
            lemma_digits_grow(s.drop_last(), j - 1);
            assert(s.drop_last().take(j - 1) =~= s.drop_last());
        }
    } else {
        lemma_digits_grow(s.drop_last(), j);
        assert(s.drop_last().take(j) =~= s.take(j));
        lemma_digits_grow(s.drop_last(), s.len() - 1);
        assert(s.drop_last().take(s.len() - 1) =~= s.drop_last());
    }
}

/// The integer that `s` writes in decimal, or `None` where it writes none that fits.
pub fn parse_int(s: &Vec<char>) -> (r: Option<isize>)
    ensures
        match r {
            Some(v) => parse_isize(s@) == Some(v as int),
            None => parse_isize(s@) is None,
        },
{
    let n = s.len();
    if n == 0 {
        return None;
    }
    let neg = s[0] == '-';
    let start: usize = if s[0] == '-' || s[0] == '+' { 1 } else { 0 };
    let ghost body = if start == 1 { s@.drop_first() } else { s@ };
    assert(body =~= s@.subrange(start as int, n as int));
    if start == n {
        return None;
    }
    let mut acc: isize = 0;
    let mut k: usize = start;
    while k < n
        invariant
            n == s@.len(),
            body == s@.subrange(start as int, n as int),
            n > 0,
            body == (if s@[0] == '-' || s@[0] == '+' {
                s@.drop_first()
            } else {
                s@
            }),
            start <= k <= n,
            neg == (s@[0] == '-'),
            all_digits(body.take(k - start)),
            acc == (if neg {
                -digits_value(body.take(k - start))
            } else {
                digits_value(body.take(k - start))
            }),
        decreases n - k,
    {
        let c = s[k];
        proof {
            assert(body.take(k + 1 - start).drop_last() =~= body.take(k - start));
            assert(body.take(k + 1 - start).last() == c);
        }
        if c < '0' || c > '9' {
            assert(body[k - start] == c);
            assert(!is_digit(body[k - start]));
            assert(!all_digits(body));
            return None;
        }
        let d = (c as u32 - '0' as u32) as isize;
        proof {
            lemma_digits_grow(body.take(k - start), k - start);
            assert(body.take(k - start).take(k - start) =~= body.take(k - start));
            assert(d == c as int - '0' as int);
            assert(digits_value(body.take(k + 1 - start)) == 10 * digits_value(body.take(k - start)) + d);
            if all_digits(body) {
                lemma_digits_grow(body, k + 1 - start);
            }
        }
        match acc.checked_mul(10) {
            None => {
                return None;
            },
            Some(t) => {
                let v = if neg {
                    t.checked_sub(d)
                } else {
                    t.checked_add(d)
                };
                match v {
                    None => {
                        return None;
                    },
                    Some(v) => {
                        acc = v;
                    },
                }
            },
        }
        k += 1;
    }
    assert(body.take(n - start) =~= body);
    Some(acc)
}

/// Whether `a` holds exactly the characters of `b`.
pub fn same_chars(a: &Vec<char>, b: &str) -> (r: bool)
    ensures
        r == (a@ == b@),
{
    let bc = chars_of(b);
    if a.len() != bc.len() {
        return false;
    }
    let mut i: usize = 0;
    while i < a.len()
        invariant
            bc@ == b@,
            a@.len() == bc@.len(),
            0 <= i <= a@.len(),
            a@.take(i as int) == bc@.take(i as int),
        decreases a@.len() - i,
    {
        if a[i] != bc[i] {
            assert(a@ != b@) by {
                if a@ == b@ {
                    assert(a@[i as int] == bc@[i as int]);
                }
            }
            return false;
        }
        proof {
            assert(a@.take(i + 1) =~= a@.take(i as int).push(a@[i as int]));
            assert(bc@.take(i + 1) =~= bc@.take(i as int).push(bc@[i as int]));
        }
        i += 1;
    }
    assert(a@.take(a@.len() as int) =~= a@);
    assert(bc@.take(bc@.len() as int) =~= bc@);
    true
}

/// The characters of `a` followed by those of `b`.
pub fn concat(a: &Vec<char>, b: &Vec<char>) -> (r: Vec<char>)
    ensures
        r@ == a@ + b@,
{
    let mut r: Vec<char> = Vec::new();
    let mut i: usize = 0;
    while i < a.len()
        invariant
            0 <= i <= a@.len(),
            r@ == a@.take(i as int),
        decreases a@.len() - i,
    {
        r.push(a[i]);
        proof {
            assert(r@ =~= a@.take(i + 1));
        }
        i += 1;
    }
    let mut j: usize = 0;
    while j < b.len()
        invariant
            0 <= j <= b@.len(),
            r@ == a@ + b@.take(j as int),
        decreases b@.len() - j,
    {
        r.push(b[j]);
        proof {
            assert(r@ =~= a@ + b@.take(j + 1));
        }
        j += 1;
    }
    assert(a@.take(a@.len() as int) =~= a@);
    assert(b@.take(b@.len() as int) =~= b@);
    r
}

/// The text `lit` followed by the characters of `tail`.
pub fn prefixed(lit: &str, tail: &Vec<char>) -> (r: Vec<char>)
    ensures
        r@ == lit@ + tail@,
{
    concat(&chars_of(lit), tail)
}

/// Each of `v` trimmed.
pub fn trim_each(v: &Vec<Vec<char>>) -> (r: Vec<Vec<char>>)
    ensures
        views(r@) == views(v@).map_values(|w: Seq<char>| trim(w)),
{
    let mut r: Vec<Vec<char>> = Vec::new();
    let mut i: usize = 0;
    while i < v.len()
        invariant
            0 <= i <= v@.len(),
            views(r@) == views(v@).take(i as int).map_values(|w: Seq<char>| trim(w)),
        decreases v@.len() - i,
    {
        let ghost before = views(r@);
        let w = trimmed(&v[i]);
        r.push(w);
        proof {
            assert(views(r@) =~= before.push(trim(v@[i as int]@)));
            assert(views(v@).take(i + 1).map_values(|w: Seq<char>| trim(w)) =~= views(v@).take(
                i as int,
            ).map_values(|w: Seq<char>| trim(w)).push(trim(v@[i as int]@)));
        }
        i += 1;
    }
    assert(views(v@).take(v@.len() as int) =~= views(v@));
    r
}

/// Each of `v` in lower case.
pub fn lower_each(v: &Vec<Vec<char>>) -> (r: Vec<Vec<char>>)
    ensures
        views(r@) == views(v@).map_values(|w: Seq<char>| lower_of(w)),
{
    let mut r: Vec<Vec<char>> = Vec::new();
    let mut i: usize = 0;
    while i < v.len()
        invariant
            0 <= i <= v@.len(),
            views(r@) == views(v@).take(i as int).map_values(|w: Seq<char>| lower_of(w)),
        decreases v@.len() - i,
    {
        let ghost before = views(r@);
        let w = to_lower(&v[i]);
        r.push(w);
        proof {
            assert(views(r@) =~= before.push(lower_of(v@[i as int]@)));
            assert(views(v@).take(i + 1).map_values(|w: Seq<char>| lower_of(w)) =~= views(v@).take(
                i as int,
            ).map_values(|w: Seq<char>| lower_of(w)).push(lower_of(v@[i as int]@)));
        }
        i += 1;
    }
    assert(views(v@).take(v@.len() as int) =~= views(v@));
    r
}

} // verus!
