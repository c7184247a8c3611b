//! Small verified text utilities: character search, whitespace trimming,
//! copying and comparing character sequences and string slices.
use vstd::prelude::*;
use vstd::string::StrSliceExecFns;

verus! {

/// `i` is the position of the first occurrence of `c` in `s`.
pub open spec fn is_first_pos(s: Seq<char>, c: char, i: int) -> bool {
    &&& 0 <= i < s.len()
    &&& s[i] == c
    &&& forall|j: int| 0 <= j < i ==> s[j] != c
}

/// The first occurrence of a character is unique.
pub proof fn lemma_first_pos_unique(s: Seq<char>, c: char, i: int, j: int)
    requires
        is_first_pos(s, c, i),
        is_first_pos(s, c, j),
    ensures
        i == j,
{
    if i < j {
        assert(s[i] != c);
    } else if j < i {
        assert(s[j] != c);
    }
}

/// The characters of a string, in order.
pub fn str_to_chars(s: &str) -> (r: Vec<char>)
    ensures
        r@ == s@,
{
    let n = s.unicode_len();
    let mut out: Vec<char> = Vec::new();
    let mut i: usize = 0;
    while i < n
        invariant
            n == s@.len(),
            i <= n,
            out@ == s@.subrange(0, i as int),
        decreases n - i,
    {
        let c = s.get_char(i);
        out.push(c);
        proof {
            assert(out@ =~= s@.subrange(0, i as int + 1));
        }
        i += 1;
    }
    proof {
        assert(out@ =~= s@);
    }
    out
}

/// A fresh copy of a character vector.
pub fn copy_chars(v: &Vec<char>) -> (r: Vec<char>)
    ensures
        r@ == v@,
{
    let mut out: Vec<char> = Vec::new();
    let mut i: usize = 0;
    while i < v.len()
        invariant
            i <= v@.len(),
            out@ == v@.subrange(0, i as int),
        decreases v@.len() - i,
    {
        out.push(v[i]);
        proof {
            assert(out@ =~= v@.subrange(0, i as int + 1));
        }
        i += 1;
    }
    proof {
        assert(out@ =~= v@);
    }
    out
}

/// Element-wise equality of two character vectors.
pub fn chars_eq(a: &Vec<char>, b: &Vec<char>) -> (r: bool)
    ensures
        r == (a@ == b@),
{
    if a.len() != b.len() {
        return false;
    }
    let mut i: usize = 0;
    while i < a.len()
        invariant
            a@.len() == b@.len(),
            i <= a@.len(),
            forall|j: int| 0 <= j < i ==> a@[j] == b@[j],
        decreases a@.len() - i,
    {
        if a[i] != b[i] {
            return false;
        }
        i += 1;
    }
    proof {
        assert(a@ =~= b@);
    }
    true
}

/// Whitespace that may surround entries in a preference header.
pub open spec fn is_ws(c: char) -> bool {
    c == ' ' || c == '\t'
}

/// `a` is the number of leading whitespace characters of `s`.
pub open spec fn is_leading_ws(s: Seq<char>, a: int) -> bool {
    &&& 0 <= a <= s.len()
    &&& forall|j: int| 0 <= j < a ==> is_ws(#[trigger] s[j])
    &&& (a == s.len() || !is_ws(s[a]))
}

/// Everything at or after `b` in `s` is whitespace, and `b` is minimal.
pub open spec fn is_trailing_ws(s: Seq<char>, b: int) -> bool {
    &&& 0 <= b <= s.len()
    &&& forall|j: int| b <= j < s.len() ==> is_ws(#[trigger] s[j])
    &&& (b == 0 || !is_ws(s[b - 1]))
}

pub proof fn lemma_leading_ws_unique(s: Seq<char>, a1: int, a2: int)
    requires
        is_leading_ws(s, a1),
        is_leading_ws(s, a2),
    ensures
        a1 == a2,
{
    if a1 < a2 {
        assert(is_ws(s[a1]));
    } else if a2 < a1 {
        assert(is_ws(s[a2]));
    }
}

pub proof fn lemma_trailing_ws_unique(s: Seq<char>, b1: int, b2: int)
    requires
        is_trailing_ws(s, b1),
        is_trailing_ws(s, b2),
    ensures
        b1 == b2,
{
    if b1 < b2 {
        assert(is_ws(s[b2 - 1]));
    } else if b2 < b1 {
        assert(is_ws(s[b1 - 1]));
    }
}

/// `s` without leading and trailing whitespace.
pub open spec fn trim_spec(s: Seq<char>) -> Seq<char> {
    let a = choose|a: int| is_leading_ws(s, a);
    let b = choose|b: int| is_trailing_ws(s, b);
    if a <= b {
        s.subrange(a, b)
    } else {
        Seq::empty()
    }
}

/// The characters `v[from..to]`, as a fresh vector.
pub fn copy_range(v: &Vec<char>, from: usize, to: usize) -> (r: Vec<char>)
    requires
        from <= to <= v@.len(),
    ensures
        r@ == v@.subrange(from as int, to as int),
{
    let mut out: Vec<char> = Vec::new();
    let mut i: usize = from;
    while i < to
        invariant
            from <= i <= to <= v@.len(),
            out@ == v@.subrange(from as int, i as int),
        decreases to - i,
    {
        out.push(v[i]);
        proof {
            assert(out@ =~= v@.subrange(from as int, i as int + 1));
        }
        i += 1;
    }
    out
}

/// Whether `c` counts as trimmable whitespace.
fn is_ws_exec(c: char) -> (r: bool)
    ensures
        r == is_ws(c),
{
    c == ' ' || c == '\t'
}

/// A copy of `v` without leading and trailing whitespace.
pub fn trim_copy(v: &Vec<char>) -> (r: Vec<char>)
    ensures
        r@ == trim_spec(v@),
{
    let n = v.len();
    let mut a: usize = 0;
    while a < n && is_ws_exec(v[a])
        invariant
            a <= n,
            n == v@.len(),
            forall|j: int| 0 <= j < a ==> is_ws(#[trigger] v@[j]),
        decreases n - a,
    {
        a += 1;
    }
    let mut b: usize = n;
    while b > 0 && is_ws_exec(v[b - 1])
        invariant
            b <= n,
            n == v@.len(),
            forall|j: int| b <= j < n ==> is_ws(#[trigger] v@[j]),
        decreases b,
    {
        b -= 1;
    }
    proof {
        assert(is_leading_ws(v@, a as int));
        assert(is_trailing_ws(v@, b as int));
        let a0 = choose|x: int| is_leading_ws(v@, x);
        let b0 = choose|x: int| is_trailing_ws(v@, x);
        lemma_leading_ws_unique(v@, a as int, a0);
        lemma_trailing_ws_unique(v@, b as int, b0);
    }
    if a <= b {
        copy_range(v, a, b)
    } else {
        let out: Vec<char> = Vec::new();
        proof {
            assert(out@ =~= trim_spec(v@));
        }
        out
    }
}

/// Character-wise equality of two string slices.
pub fn str_eq(a: &str, b: &str) -> (r: bool)
    ensures
        r == (a@ == b@),
{
    let na = a.unicode_len();
    let nb = b.unicode_len();
    if na != nb {
        proof {
            assert(a@ != b@);
        }
        return false;
    }
    let mut i: usize = 0;
    while i < na
        invariant
            i <= na,
            na == a@.len(),
            na == b@.len(),
            forall|j: int| 0 <= j < i ==> a@[j] == b@[j],
        decreases na - i,
    {
        if a.get_char(i) != b.get_char(i) {
            return false;
        }
        i += 1;
    }
    proof {
        assert(a@ =~= b@);
    }
    true
}

/// The bounds of `s[from..to]` without leading and trailing whitespace:
/// a subrange `[r.0, r.1)` whose characters are the trimmed text.
pub fn trim_bounds(s: &str, from: usize, to: usize) -> (r: (usize, usize))
    requires
        from <= to <= s@.len(),
    ensures
        from <= r.0 <= r.1 <= to,
        s@.subrange(r.0 as int, r.1 as int) == trim_spec(s@.subrange(from as int, to as int)),
{
    let ghost t = s@.subrange(from as int, to as int);
    let mut a: usize = from;
    while a < to && is_ws_exec(s.get_char(a))
        invariant
            from <= a <= to <= s@.len(),
            t == s@.subrange(from as int, to as int),
            forall|j: int| from <= j < a ==> is_ws(#[trigger] s@[j]),
        decreases to - a,
    {
        a += 1;
    }
    let mut b: usize = to;
    while b > from && is_ws_exec(s.get_char(b - 1))
        invariant
            from <= b <= to <= s@.len(),
            t == s@.subrange(from as int, to as int),
            forall|j: int| b <= j < to ==> is_ws(#[trigger] s@[j]),
        decreases b,
    {
        b -= 1;
    }
    proof {
        assert(is_leading_ws(t, a - from)) by {
            assert(forall|j: int| 0 <= j < t.len() ==> #[trigger] t[j] == s@[from + j]);
        }
        assert(is_trailing_ws(t, b - from)) by {
            assert(forall|j: int| 0 <= j < t.len() ==> #[trigger] t[j] == s@[from + j]);
        }
        let a0 = choose|x: int| is_leading_ws(t, x);
        let b0 = choose|x: int| is_trailing_ws(t, x);
        lemma_leading_ws_unique(t, a - from, a0);
        lemma_trailing_ws_unique(t, b - from, b0);
    }
    if a <= b {
        proof {
            assert(s@.subrange(a as int, b as int) =~= t.subrange(a - from, b - from));
        }
        (a, b)
    } else {
        proof {
            assert(s@.subrange(from as int, from as int) =~= trim_spec(t));
        }
        (from, from)
    }
}

} // verus!
