//! Character-level text utilities shared by the URL, signing and wire-format
//! modules. All text manipulation happens on `Vec<char>` values whose views
//! are `Seq<char>`, so contracts can speak directly about string contents.

use vstd::prelude::*;

verus! {

/// Relies on `String::push`: appends exactly the given character.
pub assume_specification[ String::push ](s: &mut String, ch: char)
    ensures
        final(s)@ == old(s)@.push(ch),
;

/// Does `s` start with prefix `p`?
pub open spec fn seq_starts_with(s: Seq<char>, p: Seq<char>) -> bool {
    p.len() <= s.len() && s.subrange(0, p.len() as int) == p
}

/// The characters of `s`, in order, as a vector.
pub fn str_to_chars(s: &str) -> (r: Vec<char>)
    ensures
        r@ == s@,
{
    let n = s.unicode_len();
    let mut r: Vec<char> = Vec::new();
    let mut i: usize = 0;
    while i < n
        invariant
            n == s@.len(),
            i <= n,
            r@ == s@.subrange(0, i as int),
        decreases n - i,
    {
        r.push(s.get_char(i));
        i = i + 1;
    }
    proof {
        assert(s@.subrange(0, n as int) =~= s@);
    }
    r
}

/// The characters of `v`, joined into a `String`.
pub fn chars_to_string(v: &Vec<char>) -> (r: String)
    ensures
        r@ == v@,
{
    let mut r = String::new();
    let mut i: usize = 0;
    while i < v.len()
        invariant
            i <= v@.len(),
            r@ == v@.subrange(0, i as int),
        decreases v@.len() - i,
    {
        r.push(v[i]);
        proof {
            assert(r@ =~= v@.subrange(0, i + 1));
        }
        i = i + 1;
    }
    proof {
        assert(v@.subrange(0, v@.len() as int) =~= v@);
    }
    r
}

/// Is `c` ASCII whitespace?
pub open spec fn is_ascii_space(c: char) -> bool {
    c == ' ' || c == '\t' || c == '\n' || c == '\r'
}

/// `s` with leading whitespace removed.
pub open spec fn trim_start_spaces(s: Seq<char>) -> Seq<char>
    decreases s.len(),
{
    if s.len() > 0 && is_ascii_space(s.first()) {
        trim_start_spaces(s.skip(1))
    } else {
        s
    }
}

/// `s` with trailing whitespace removed.
pub open spec fn trim_end_spaces(s: Seq<char>) -> Seq<char>
    decreases s.len(),
{
    if s.len() > 0 && is_ascii_space(s.last()) {
        trim_end_spaces(s.drop_last())
    } else {
        s
    }
}

/// `s` with whitespace removed from both ends.
pub open spec fn trim_spaces(s: Seq<char>) -> Seq<char> {
    trim_end_spaces(trim_start_spaces(s))
}

/// Removes whitespace from both ends of `v`.
pub fn trim_spaces_vec(v: &Vec<char>) -> (r: Vec<char>)
    ensures
        r@ == trim_spaces(v@),
{
    let mut start: usize = 0;
    proof {
        assert(v@.skip(0) =~= v@);
    }
    while start < v.len() && (v[start] == ' ' || v[start] == '\t' || v[start] == '\n' || v[start]
        == '\r')
        invariant
            start <= v@.len(),
            trim_start_spaces(v@.skip(start as int)) == trim_start_spaces(v@),
        decreases v@.len() - start,
    {
        proof {
            assert(v@.skip(start as int).first() == v@[start as int]);
            assert(v@.skip(start as int).skip(1) =~= v@.skip(start + 1));
        }
        start = start + 1;
    }
    let mut end: usize = v.len();
    proof {
        if start < v@.len() {
            assert(v@.skip(start as int).first() == v@[start as int]);
        }
        assert(v@.skip(start as int) == trim_start_spaces(v@));
        assert(v@.subrange(start as int, v@.len() as int) =~= v@.skip(start as int));
    }
    while end > start && (v[end - 1] == ' ' || v[end - 1] == '\t' || v[end - 1] == '\n' || v[end
        - 1] == '\r')
        invariant
            start <= end <= v@.len(),
            v@.skip(start as int) == trim_start_spaces(v@),
            trim_end_spaces(v@.subrange(start as int, end as int)) == trim_end_spaces(
                trim_start_spaces(v@),
            ),
        decreases end,
    {
        proof {
            let cur = v@.subrange(start as int, end as int);
            assert(cur.last() == v@[end - 1]);
            assert(cur.drop_last() =~= v@.subrange(start as int, end - 1));
        }
        end = end - 1;
    }
    let r = subvec(v, start, end);
    proof {
        let cur = v@.subrange(start as int, end as int);
        if end > start {
            assert(cur.last() == v@[end - 1]);
        }
        assert(trim_end_spaces(cur) == cur);
    }
    r
}

/// The index of the first occurrence of `p` in `s`, if there is one.
pub open spec fn spec_find_seq(s: Seq<char>, p: Seq<char>) -> Option<int> {
    if exists|i: int| 0 <= i <= s.len() - p.len() && #[trigger] s.subrange(i, i + p.len()) == p {
        Some(
            choose|i: int|
                0 <= i <= s.len() - p.len() && #[trigger] s.subrange(i, i + p.len()) == p
                    && forall|j: int| 0 <= j < i ==> #[trigger] s.subrange(j, j + p.len()) != p,
        )
    } else {
        None
    }
}

/// The first index where `p` occurs in `v`, scanning from the left.
pub fn find_seq(v: &Vec<char>, p: &Vec<char>) -> (r: Option<usize>)
    requires
        p@.len() > 0,
    ensures
        match r {
            Some(i) => i + p@.len() <= v@.len() && v@.subrange(i as int, i + p@.len()) == p@
                && (forall|j: int| 0 <= j < i ==> #[trigger] v@.subrange(j, j + p@.len()) != p@)
                && spec_find_seq(v@, p@) == Some(i as int),
            None => spec_find_seq(v@, p@) is None,
        },
{
    if p.len() > v.len() {
        proof {
            assert(spec_find_seq(v@, p@) is None);
        }
        return None;
    }
    let mut i: usize = 0;
    while i <= v.len() - p.len()
        invariant
            0 < p@.len() <= v@.len(),
            i <= v@.len() - p@.len() + 1,
            forall|k: int| 0 <= k < i ==> #[trigger] v@.subrange(k, k + p@.len()) != p@,
        decreases v@.len() - p@.len() - i + 1,
    {
        let window = subvec(v, i, i + p.len());
        if chars_eq(&window, p) {
            proof {
                assert(v@.subrange(i as int, i as int + p@.len()) == p@);
                let w = choose|w: int|
                    0 <= w <= v@.len() - p@.len() && #[trigger] v@.subrange(w, w + p@.len()) == p@
                        && forall|j: int| 0 <= j < w ==> #[trigger] v@.subrange(j, j + p@.len())
                        != p@;
                assert(v@.subrange(w, w + p@.len()) == p@);
                assert(w == i);
            }
            return Some(i);
        }
        i = i + 1;
    }
    proof {
        assert forall|k: int| 0 <= k <= v@.len() - p@.len() implies #[trigger] v@.subrange(
            k,
            k + p@.len(),
        ) != p@ by {}
    }
    None
}

/// The index of the first `c` in `s`, or -1 when absent.
pub open spec fn spec_first_index(s: Seq<char>, c: char) -> int
    decreases s.len(),
{
    if s.len() == 0 {
        -1
    } else if s.first() == c {
        0
    } else {
        let r = spec_first_index(s.skip(1), c);
        if r == -1 {
            -1
        } else {
            r + 1
        }
    }
}

/// What `spec_first_index` finds is the first occurrence.
pub proof fn lemma_first_index(s: Seq<char>, c: char)
    ensures
        spec_first_index(s, c) >= -1,
        spec_first_index(s, c) == -1 ==> forall|j: int| 0 <= j < s.len() ==> s[j] != c,
        spec_first_index(s, c) >= 0 ==> {
            let i = spec_first_index(s, c);
            &&& i < s.len()
            &&& s[i] == c
            &&& forall|j: int| 0 <= j < i ==> s[j] != c
        },
    decreases s.len(),
{
    if s.len() > 0 && s.first() != c {
        lemma_first_index(s.skip(1), c);
        let r = spec_first_index(s.skip(1), c);
        if r == -1 {
            assert forall|j: int| 0 <= j < s.len() implies s[j] != c by {
                if j > 0 {
                    assert(s.skip(1)[j - 1] == s[j]);
                }
            }
        } else {
            assert(s.skip(1)[r] == s[r + 1]);
            assert forall|j: int| 0 <= j < r + 1 implies s[j] != c by {
                if j > 0 {
                    assert(s.skip(1)[j - 1] == s[j]);
                }
            }
        }
    }
}

/// The segments of `s` split on `c`: one segment more than there are
/// separators, in order, separators removed.
pub open spec fn spec_split(s: Seq<char>, c: char) -> Seq<Seq<char>>
    decreases s.len(),
{
    let i = spec_first_index(s, c);
    if 0 <= i < s.len() {
        seq![s.subrange(0, i)] + spec_split(s.skip(i + 1), c)
    } else {
        seq![s]
    }
}

/// Splitting a prefix: a sequence that starts with `a + b` starts with
/// `a`, and past `a` it starts with `b`.
pub proof fn lemma_peel(x: Seq<char>, a: Seq<char>, b: Seq<char>)
    requires
        seq_starts_with(x, a + b),
    ensures
        seq_starts_with(x, a),
        seq_starts_with(x.skip(a.len() as int), b),
{
    assert(x.subrange(0, a.len() as int) =~= a) by {
        assert forall|m: int| 0 <= m < a.len() implies x.subrange(0, a.len() as int)[m] == a[m] by {
            assert(x.subrange(0, (a + b).len() as int)[m] == x[m]);
            assert((a + b)[m] == a[m]);
        }
    }
    assert(x.skip(a.len() as int).subrange(0, b.len() as int) =~= b) by {
        assert forall|m: int| 0 <= m < b.len() implies x.skip(a.len() as int).subrange(
            0,
            b.len() as int,
        )[m] == b[m] by {
            assert(x.subrange(0, (a + b).len() as int)[a.len() + m] == x[a.len() + m]);
            assert((a + b)[a.len() + m] == b[m]);
        }
    }
}

/// A sequence that starts with a prefix agrees with it on the matching
/// subrange.
pub proof fn lemma_prefix_window(w: Seq<char>, i: int, a: Seq<char>)
    requires
        0 <= i <= w.len(),
        seq_starts_with(w.skip(i), a),
    ensures
        i + a.len() <= w.len(),
        w.subrange(i, i + a.len()) == a,
        w.skip(i + a.len()) == w.skip(i).skip(a.len() as int),
{
    assert(w.subrange(i, i + a.len()) =~= a) by {
        assert forall|m: int| 0 <= m < a.len() implies w.subrange(i, i + a.len())[m] == a[m] by {
            assert(w.skip(i).subrange(0, a.len() as int)[m] == w.skip(i)[m]);
        }
    }
    assert(w.skip(i + a.len()) =~= w.skip(i).skip(a.len() as int));
}

/// Concatenation of sequences associates.
pub proof fn lemma_add_assoc<A>(a: Seq<A>, b: Seq<A>, c: Seq<A>)
    ensures
        (a + b) + c == a + (b + c),
{
    assert((a + b) + c =~= a + (b + c));
}

/// The empty sequence is neutral for concatenation.
pub proof fn lemma_add_empty<A>(a: Seq<A>)
    ensures
        a + Seq::<A>::empty() == a,
        Seq::<A>::empty() + a == a,
{
    assert(a + Seq::<A>::empty() =~= a);
    assert(Seq::<A>::empty() + a =~= a);
}

/// The decimal digit character for a value below ten.
pub open spec fn decimal_digit(n: int) -> char {
    if n == 0 { '0' } else if n == 1 { '1' } else if n == 2 { '2' } else if n == 3 { '3' }
    else if n == 4 { '4' } else if n == 5 { '5' } else if n == 6 { '6' } else if n == 7 { '7' }
    else if n == 8 { '8' } else { '9' }
}

/// The decimal rendering of a non-negative integer.
pub open spec fn spec_decimal(n: int) -> Seq<char>
    decreases n,
{
    if n < 10 {
        seq![decimal_digit(n)]
    } else {
        spec_decimal(n / 10).push(decimal_digit(n % 10))
    }
}

fn decimal_digit_char(n: u32) -> (c: char)
    requires
        n < 10,
    ensures
        c == decimal_digit(n as int),
{
    match n {
        0 => '0',
        1 => '1',
        2 => '2',
        3 => '3',
        4 => '4',
        5 => '5',
        6 => '6',
        7 => '7',
        8 => '8',
        _ => '9',
    }
}

/// Renders `n` in decimal.
pub fn u32_to_decimal(n: u32) -> (r: Vec<char>)
    ensures
        r@ == spec_decimal(n as int),
    decreases n,
{
    if n < 10 {
        let mut r: Vec<char> = Vec::new();
        r.push(decimal_digit_char(n));
        proof {
            assert(r@ =~= seq![decimal_digit(n as int)]);
        }
        r
    } else {
        let mut r = u32_to_decimal(n / 10);
        r.push(decimal_digit_char(n % 10));
        r
    }
}

/// Renders `n` in decimal.
pub fn u64_to_decimal(n: u64) -> (r: Vec<char>)
    ensures
        r@ == spec_decimal(n as int),
    decreases n,
{
    if n < 10 {
        let mut r: Vec<char> = Vec::new();
        r.push(decimal_digit_char((n as u32) % 10));
        proof {
            assert(r@ =~= seq![decimal_digit(n as int)]);
        }
        r
    } else {
        let mut r = u64_to_decimal(n / 10);
        r.push(decimal_digit_char((n % 10) as u32));
        r
    }
}

/// Does `v` start with `p`, checked character by character?
pub fn starts_with(v: &Vec<char>, p: &Vec<char>) -> (r: bool)
    ensures
        r == seq_starts_with(v@, p@),
{
    if p.len() > v.len() {
        proof {
            assert(!seq_starts_with(v@, p@));
        }
        return false;
    }
    let mut i: usize = 0;
    while i < p.len()
        invariant
            p@.len() <= v@.len(),
            i <= p@.len(),
            forall|j: int| 0 <= j < i ==> v@[j] == p@[j],
        decreases p@.len() - i,
    {
        if v[i] != p[i] {
            proof {
                assert(v@.subrange(0, p@.len() as int)[i as int] != p@[i as int]);
            }
            return false;
        }
        i = i + 1;
    }
    proof {
        assert(v@.subrange(0, p@.len() as int) =~= p@);
    }
    true
}

/// The characters of `v` from index `from` (inclusive) to `to` (exclusive).
pub fn subvec(v: &Vec<char>, from: usize, to: usize) -> (r: Vec<char>)
    requires
        from <= to <= v@.len(),
    ensures
        r@ == v@.subrange(from as int, to as int),
{
    let mut r: Vec<char> = Vec::new();
    let mut i: usize = from;
    while i < to
        invariant
            from <= i <= to <= v@.len(),
            r@ == v@.subrange(from as int, i as int),
        decreases to - i,
    {
        r.push(v[i]);
        proof {
            assert(r@ =~= v@.subrange(from as int, i + 1));
        }
        i = i + 1;
    }
    r
}

/// Appends all of `p` to `v`.
pub fn push_all(v: &mut Vec<char>, p: &Vec<char>)
    ensures
        final(v)@ == old(v)@ + p@,
{
    let mut i: usize = 0;
    while i < p.len()
        invariant
            i <= p@.len(),
            v@ == old(v)@ + p@.subrange(0, i as int),
        decreases p@.len() - i,
    {
        v.push(p[i]);
        proof {
            assert(v@ =~= old(v)@ + p@.subrange(0, i + 1));
        }
        i = i + 1;
    }
    proof {
        assert(old(v)@ + p@.subrange(0, p@.len() as int) =~= old(v)@ + p@);
    }
}

/// Appends the characters of the string slice `p` to `v`.
pub fn push_str_chars(v: &mut Vec<char>, p: &str)
    ensures
        final(v)@ == old(v)@ + p@,
{
    let chars = str_to_chars(p);
    push_all(v, &chars);
}

/// The first index at or after `from` where character `c` occurs, if any.
pub fn find_char(v: &Vec<char>, from: usize, c: char) -> (r: Option<usize>)
    requires
        from <= v@.len(),
    ensures
        match r {
            Some(i) => from <= i < v@.len() && v@[i as int] == c
                && forall|j: int| from <= j < i ==> v@[j] != c,
            None => forall|j: int| from <= j < v@.len() ==> v@[j] != c,
        },
{
    let mut i: usize = from;
    while i < v.len()
        invariant
            from <= i <= v@.len(),
            forall|j: int| from <= j < i ==> v@[j] != c,
        decreases v@.len() - i,
    {
        if v[i] == c {
            return Some(i);
        }
        i = i + 1;
    }
    None
}

/// Do the two vectors hold the same characters?
pub fn chars_eq(a: &Vec<char>, b: &Vec<char>) -> (r: bool)
    ensures
        r == (a@ == b@),
{
    if a.len() != b.len() {
        return false;
    }
    let mut i: usize = 0;
    while i < a.len()
        invariant
            a@.len() == b@.len(),
            i <= a@.len(),
            forall|j: int| 0 <= j < i ==> a@[j] == b@[j],
        decreases a@.len() - i,
    {
        if a[i] != b[i] {
            return false;
        }
        i = i + 1;
    }
    proof {
        assert(a@ =~= b@);
    }
    true
}

} // verus!
