//! Structured language identifiers: a primary language subtag plus an
//! optional region subtag (for example `zh` or `zh-CN`), stored in canonical
//! case (primary lowercase, region uppercase).
use vstd::prelude::*;
use crate::text::{chars_eq, copy_chars, is_first_pos, lemma_first_pos_unique, str_to_chars};

verus! {

/// True for the ASCII letters `a`..`z`.
pub open spec fn is_lower_alpha(c: char) -> bool {
    'a' <= c && c <= 'z'
}

/// True for the ASCII letters `A`..`Z`.
pub open spec fn is_upper_alpha(c: char) -> bool {
    'A' <= c && c <= 'Z'
}

/// True for any ASCII letter.
pub open spec fn is_alpha(c: char) -> bool {
    is_lower_alpha(c) || is_upper_alpha(c)
}

/// True for the ASCII digits `0`..`9`.
pub open spec fn is_digit(c: char) -> bool {
    '0' <= c && c <= '9'
}

/// ASCII lowercase mapping; other characters are unchanged.
pub open spec fn lower_char(c: char) -> char {
    if is_upper_alpha(c) {
        ((c as u8) + 32) as char
    } else {
        c
    }
}

/// ASCII uppercase mapping; other characters are unchanged.
pub open spec fn upper_char(c: char) -> char {
    if is_lower_alpha(c) {
        ((c as u8) - 32) as char
    } else {
        c
    }
}

/// A sequence of characters mapped to ASCII lowercase.
pub open spec fn lower_chars(s: Seq<char>) -> Seq<char> {
    s.map_values(|c: char| lower_char(c))
}

/// A sequence of characters mapped to ASCII uppercase.
pub open spec fn upper_chars(s: Seq<char>) -> Seq<char> {
    s.map_values(|c: char| upper_char(c))
}

/// ASCII lowercase of one character.
pub fn lower_char_exec(c: char) -> (r: char)
    ensures
        r == lower_char(c),
{
    if 'A' <= c && c <= 'Z' {
        ((c as u8) + 32) as char
    } else {
        c
    }
}

/// ASCII uppercase of one character.
pub fn upper_char_exec(c: char) -> (r: char)
    ensures
        r == upper_char(c),
{
    if 'a' <= c && c <= 'z' {
        ((c as u8) - 32) as char
    } else {
        c
    }
}

/// Whether `c` is an ASCII letter.
pub fn is_alpha_exec(c: char) -> (r: bool)
    ensures
        r == is_alpha(c),
{
    ('a' <= c && c <= 'z') || ('A' <= c && c <= 'Z')
}

/// Whether `c` is an ASCII digit.
pub fn is_digit_exec(c: char) -> (r: bool)
    ensures
        r == is_digit(c),
{
    '0' <= c && c <= '9'
}

/// A valid primary language subtag: one to eight ASCII letters.
pub open spec fn valid_primary(s: Seq<char>) -> bool {
    &&& 1 <= s.len() <= 8
    &&& forall|i: int| 0 <= i < s.len() ==> is_alpha(#[trigger] s[i])
}

/// A valid region subtag: two ASCII letters or three ASCII digits.
pub open spec fn valid_region(s: Seq<char>) -> bool {
    ||| s.len() == 2 && (forall|i: int| 0 <= i < s.len() ==> is_alpha(#[trigger] s[i]))
    ||| s.len() == 3 && (forall|i: int| 0 <= i < s.len() ==> is_digit(#[trigger] s[i]))
}

/// Spec-level shape of a parsed locale: canonical primary and region subtags.
pub ghost struct LocaleSpec {
    pub primary: Seq<char>,
    pub region: Option<Seq<char>>,
}

impl LocaleSpec {
    /// Canonical well-formedness: subtags valid and in canonical case.
    pub open spec fn wf(self) -> bool {
        &&& valid_primary(self.primary)
        &&& forall|i: int| 0 <= i < self.primary.len() ==> is_lower_alpha(#[trigger] self.primary[i])
        &&& match self.region {
            Some(r) => valid_region(r) && (forall|i: int|
                0 <= i < r.len() ==> !is_lower_alpha(#[trigger] r[i])),
            None => true,
        }
    }

    /// Two locales share a primary language subtag.
    pub open spec fn same_primary(self, other: LocaleSpec) -> bool {
        self.primary == other.primary
    }
}

/// Grammar of a locale tag: `primary` or `primary-region`, mapped to
/// canonical case; anything else fails to parse.
pub open spec fn parse_locale_spec(s: Seq<char>) -> Option<LocaleSpec> {
    if exists|i: int| is_first_pos(s, '-', i) {
        let i = choose|i: int| is_first_pos(s, '-', i);
        let p = s.subrange(0, i);
        let r = s.subrange(i + 1, s.len() as int);
        if valid_primary(p) && valid_region(r) {
            Some(LocaleSpec { primary: lower_chars(p), region: Some(upper_chars(r)) })
        } else {
            None
        }
    } else {
        if valid_primary(s) {
            Some(LocaleSpec { primary: lower_chars(s), region: None })
        } else {
            None
        }
    }
}

/// A structured language identifier in canonical case.
#[derive(Debug)]
pub struct Locale {
    pub primary: Vec<char>,
    pub region: Option<Vec<char>>,
}

impl Locale {
    /// The spec-level value of this locale.
    pub open spec fn view_spec(self) -> LocaleSpec {
        LocaleSpec {
            primary: self.primary@,
            region: match self.region {
                Some(r) => Some(r@),
                None => None,
            },
        }
    }

    /// Canonical well-formedness of the stored subtags.
    pub open spec fn wf(self) -> bool {
        self.view_spec().wf()
    }

    /// Exact-tag equality at the spec level.
    pub open spec fn tag_eq(self, other: Locale) -> bool {
        self.view_spec() == other.view_spec()
    }

    /// A fresh copy with the same subtags.
    pub fn duplicate(&self) -> (r: Locale)
        ensures
            r.view_spec() == self.view_spec(),
    {
        let primary = copy_chars(&self.primary);
        let region = match &self.region {
            Some(r) => Some(copy_chars(r)),
            None => None,
        };
        let out = Locale { primary, region };
        proof {
            assert(out.view_spec() =~= self.view_spec());
        }
        out
    }

    /// Exact-tag equality, decided by comparing the stored subtags.
    pub fn eq_tag(&self, other: &Locale) -> (r: bool)
        ensures
            r == self.tag_eq(*other),
    {
        if !chars_eq(&self.primary, &other.primary) {
            proof {
                assert(self.view_spec().primary != other.view_spec().primary);
            }
            return false;
        }
        let r = match (&self.region, &other.region) {
            (None, None) => true,
            (Some(a), Some(b)) => chars_eq(a, b),
            _ => false,
        };
        proof {
            if r {
                assert(self.view_spec() =~= other.view_spec());
            }
        }
        r
    }

    /// Whether the two locales share a primary language subtag.
    pub fn eq_primary(&self, other: &Locale) -> (r: bool)
        ensures
            r == self.view_spec().same_primary(other.view_spec()),
    {
        chars_eq(&self.primary, &other.primary)
    }

    /// Parses a locale tag (`zh`, `zh-CN`, case-insensitive) into canonical
    /// form; returns `None` exactly when the tag does not fit the grammar.
    pub fn parse(tag: &str) -> (r: Option<Locale>)
        ensures
            match r {
                Some(l) => parse_locale_spec(tag@) == Some(l.view_spec()) && l.wf(),
                None => parse_locale_spec(tag@) is None,
            },
    {
        let chars = str_to_chars(tag);
        Self::parse_chars(&chars)
    }

    /// Parses a locale tag given as characters; see [`Locale::parse`].
    pub fn parse_chars(chars: &Vec<char>) -> (r: Option<Locale>)
        ensures
            match r {
                Some(l) => parse_locale_spec(chars@) == Some(l.view_spec()) && l.wf(),
                None => parse_locale_spec(chars@) is None,
            },
    {
        let n = chars.len();
        let mut dash: Option<usize> = None;
        let mut i: usize = 0;
        while i < n
            invariant
                n == chars@.len(),
                i <= n,
                match dash {
                    Some(d) => is_first_pos(chars@, '-', d as int) && d < i,
                    None => forall|j: int| 0 <= j < i ==> chars@[j] != '-',
                },
            decreases n - i,
        {
            if dash.is_none() && chars[i] == '-' {
                dash = Some(i);
            }
            i += 1;
        }
        match dash {
            None => {
                proof {
                    assert(forall|j: int| 0 <= j < chars@.len() ==> chars@[j] != '-');
                    assert(!exists|k: int| is_first_pos(chars@, '-', k));
                }
                if check_primary(chars, 0, n) {
                    proof {
                        assert(chars@.subrange(0, n as int) =~= chars@);
                    }
                    let primary = lower_range(chars, 0, n);
                    let l = Locale { primary, region: None };
                    proof {
                        lemma_lower_chars_wf(chars@);
                        assert(l.view_spec() =~= LocaleSpec {
                            primary: lower_chars(chars@),
                            region: None,
                        });
                    }
                    Some(l)
                } else {
                    proof {
                        assert(chars@.subrange(0, n as int) =~= chars@);
                    }
                    None
                }
            }
            Some(d) => {
                proof {
                    assert(is_first_pos(chars@, '-', d as int));
                    assert((choose|k: int| is_first_pos(chars@, '-', k)) == d as int) by {
                        let k = choose|k: int| is_first_pos(chars@, '-', k);
                        lemma_first_pos_unique(chars@, '-', k, d as int);
                    }
                }
                let p_ok = check_primary(chars, 0, d);
                let r_ok = check_region(chars, d + 1, n);
                if p_ok && r_ok {
                    let primary = lower_range(chars, 0, d);
                    let region = upper_range(chars, d + 1, n);
                    let l = Locale { primary, region: Some(region) };
                    proof {
                        let p = chars@.subrange(0, d as int);
                        let r = chars@.subrange(d as int + 1, n as int);
                        lemma_lower_chars_wf(p);
                        lemma_upper_chars_wf(r);
                        assert(l.view_spec() =~= LocaleSpec {
                            primary: lower_chars(p),
                            region: Some(upper_chars(r)),
                        });
                    }
                    Some(l)
                } else {
                    None
                }
            }
        }
    }
}

/// Lowercasing a valid primary subtag yields a canonical lowercase subtag.
proof fn lemma_lower_chars_wf(s: Seq<char>)
    requires
        forall|i: int| 0 <= i < s.len() ==> is_alpha(#[trigger] s[i]),
    ensures
        lower_chars(s).len() == s.len(),
        forall|i: int| 0 <= i < s.len() ==> is_lower_alpha(#[trigger] lower_chars(s)[i]),
{
    assert forall|i: int| 0 <= i < s.len() implies is_lower_alpha(#[trigger] lower_chars(s)[i]) by {
        assert(lower_chars(s)[i] == lower_char(s[i]));
    }
}

/// Uppercasing a valid region subtag leaves no lowercase letters in it and
/// keeps it a valid region subtag.
proof fn lemma_upper_chars_wf(s: Seq<char>)
    requires
        valid_region(s),
    ensures
        valid_region(upper_chars(s)),
        forall|i: int| 0 <= i < upper_chars(s).len() ==> !is_lower_alpha(
            #[trigger] upper_chars(s)[i],
        ),
{
    assert forall|i: int| 0 <= i < upper_chars(s).len() implies !is_lower_alpha(
        #[trigger] upper_chars(s)[i],
    ) by {
        assert(upper_chars(s)[i] == upper_char(s[i]));
    }
    if s.len() == 2 {
        assert forall|i: int| 0 <= i < upper_chars(s).len() implies is_alpha(
            #[trigger] upper_chars(s)[i],
        ) by {
            assert(upper_chars(s)[i] == upper_char(s[i]));
        }
    } else {
        assert forall|i: int| 0 <= i < upper_chars(s).len() implies is_digit(
            #[trigger] upper_chars(s)[i],
        ) by {
            assert(upper_chars(s)[i] == upper_char(s[i]));
        }
    }
}

/// Whether `v[from..to]` is a valid primary subtag.
fn check_primary(v: &Vec<char>, from: usize, to: usize) -> (r: bool)
    requires
        from <= to <= v@.len(),
    ensures
        r == valid_primary(v@.subrange(from as int, to as int)),
{
    let ghost s = v@.subrange(from as int, to as int);
    if to - from < 1 || to - from > 8 {
        return false;
    }
    let mut i: usize = from;
    while i < to
        invariant
            from <= i <= to <= v@.len(),
            s == v@.subrange(from as int, to as int),
            forall|j: int| from <= j < i ==> is_alpha(#[trigger] v@[j]),
        decreases to - i,
    {
        if !is_alpha_exec(v[i]) {
            proof {
                assert(s[i - from] == v@[i as int]);
                assert(!is_alpha(s[i - from]));
            }
            return false;
        }
        i += 1;
    }
    proof {
        assert forall|j: int| 0 <= j < s.len() implies is_alpha(#[trigger] s[j]) by {
            assert(s[j] == v@[from + j]);
        }
    }
    true
}

/// Whether `v[from..to]` is a valid region subtag.
fn check_region(v: &Vec<char>, from: usize, to: usize) -> (r: bool)
    requires
        from <= to <= v@.len(),
    ensures
        r == valid_region(v@.subrange(from as int, to as int)),
{
    let ghost s = v@.subrange(from as int, to as int);
    if to - from == 2 {
        let ok = is_alpha_exec(v[from]) && is_alpha_exec(v[from + 1]);
        proof {
            assert(s[0] == v@[from as int]);
            assert(s[1] == v@[from as int + 1]);
            if ok {
                assert forall|j: int| 0 <= j < s.len() implies is_alpha(#[trigger] s[j]) by {
                    assert(j == 0 || j == 1);
                }
            } else {
                assert(!(is_alpha(s[0]) && is_alpha(s[1])));
            }
        }
        ok
    } else if to - from == 3 {
        let ok = is_digit_exec(v[from]) && is_digit_exec(v[from + 1]) && is_digit_exec(
            v[from + 2],
        );
        proof {
            assert(s[0] == v@[from as int]);
            assert(s[1] == v@[from as int + 1]);
            assert(s[2] == v@[from as int + 2]);
            if ok {
                assert forall|j: int| 0 <= j < s.len() implies is_digit(#[trigger] s[j]) by {
                    assert(j == 0 || j == 1 || j == 2);
                }
            } else {
                assert(!(is_digit(s[0]) && is_digit(s[1]) && is_digit(s[2])));
            }
        }
        ok
    } else {
        false
    }
}

/// `v[from..to]` mapped to ASCII lowercase.
fn lower_range(v: &Vec<char>, from: usize, to: usize) -> (r: Vec<char>)
    requires
        from <= to <= v@.len(),
    ensures
        r@ == lower_chars(v@.subrange(from as int, to as int)),
{
    let ghost s = v@.subrange(from as int, to as int);
    let mut out: Vec<char> = Vec::new();
    let mut i: usize = from;
    while i < to
        invariant
            from <= i <= to <= v@.len(),
            s == v@.subrange(from as int, to as int),
            out@ == lower_chars(s.subrange(0, i - from)),
        decreases to - i,
    {
        out.push(lower_char_exec(v[i]));
        proof {
            assert(s.subrange(0, i - from + 1) =~= s.subrange(0, i - from).push(s[i - from]));
            assert(s[i - from] == v@[i as int]);
            assert(lower_chars(s.subrange(0, i - from + 1)) =~= lower_chars(
                s.subrange(0, i - from),
            ).push(lower_char(s[i - from])));
        }
        i += 1;
    }
    proof {
        assert(s.subrange(0, (to - from) as int) =~= s);
    }
    out
}

/// `v[from..to]` mapped to ASCII uppercase.
fn upper_range(v: &Vec<char>, from: usize, to: usize) -> (r: Vec<char>)
    requires
        from <= to <= v@.len(),
    ensures
        r@ == upper_chars(v@.subrange(from as int, to as int)),
{
    let ghost s = v@.subrange(from as int, to as int);
    let mut out: Vec<char> = Vec::new();
    let mut i: usize = from;
    while i < to
        invariant
            from <= i <= to <= v@.len(),
            s == v@.subrange(from as int, to as int),
            out@ == upper_chars(s.subrange(0, i - from)),
        decreases to - i,
    {
        out.push(upper_char_exec(v[i]));
        proof {
            assert(s.subrange(0, i - from + 1) =~= s.subrange(0, i - from).push(s[i - from]));
            assert(s[i - from] == v@[i as int]);
            assert(upper_chars(s.subrange(0, i - from + 1)) =~= upper_chars(
                s.subrange(0, i - from),
            ).push(upper_char(s[i - from])));
        }
        i += 1;
    }
    proof {
        assert(s.subrange(0, (to - from) as int) =~= s);
    }
    out
}

} // verus!

