//! Quality-weighted locale negotiation: parsing a raw language-preference
//! header into ranked entries and picking the best supported locale, with an
//! exact-tag pass, a primary-subtag pass, and a hard default.
use vstd::prelude::*;
use crate::locale::{is_digit, is_digit_exec, parse_locale_spec, Locale, LocaleSpec};
use crate::text::{
    copy_range, is_first_pos, lemma_first_pos_unique, str_to_chars, trim_copy, trim_spec,
};

verus! {

/// Numeric value of an ASCII digit.
pub open spec fn digit_val(c: char) -> int {
    c as int - 48
}

/// Value in thousandths contributed by up to three fraction digits.
pub open spec fn frac_thousandths(f: Seq<char>) -> int {
    if f.len() == 0 {
        0
    } else if f.len() == 1 {
        digit_val(f[0]) * 100
    } else if f.len() == 2 {
        digit_val(f[0]) * 100 + digit_val(f[1]) * 10
    } else {
        digit_val(f[0]) * 100 + digit_val(f[1]) * 10 + digit_val(f[2])
    }
}

/// Grammar of a quality value, scaled to thousandths: `0`, `1`, `0.` followed
/// by up to three digits, or `1.` followed by up to three zeros.
pub open spec fn parse_qvalue_spec(s: Seq<char>) -> Option<int> {
    if s.len() == 0 || s.len() > 5 {
        None
    } else if s[0] == '0' {
        if s.len() == 1 {
            Some(0)
        } else if s[1] == '.' && (forall|j: int| 2 <= j < s.len() ==> is_digit(#[trigger] s[j])) {
            Some(frac_thousandths(s.subrange(2, s.len() as int)))
        } else {
            None
        }
    } else if s[0] == '1' {
        if s.len() == 1 {
            Some(1000)
        } else if s[1] == '.' && (forall|j: int| 2 <= j < s.len() ==> #[trigger] s[j] == '0') {
            Some(1000)
        } else {
            None
        }
    } else {
        None
    }
}

/// Numeric value of one ASCII digit character.
fn digit_val_exec(c: char) -> (r: u16)
    requires
        is_digit(c),
    ensures
        r as int == digit_val(c),
        r <= 9,
{
    (c as u8 - 48) as u16
}

/// Parses a quality value into thousandths; `None` exactly when the text does
/// not fit the quality grammar.
pub fn parse_qvalue(v: &Vec<char>) -> (r: Option<u16>)
    ensures
        match r {
            Some(q) => parse_qvalue_spec(v@) == Some(q as int) && q <= 1000,
            None => parse_qvalue_spec(v@) is None,
        },
{
    let n = v.len();
    if n == 0 || n > 5 {
        return None;
    }
    let c0 = v[0];
    if c0 == '0' {
        if n == 1 {
            return Some(0);
        }
        if v[1] != '.' {
            return None;
        }
        let mut i: usize = 2;
        while i < n
            invariant
                2 <= i <= n,
                n == v@.len(),
                n <= 5,
                v@[0] == '0',
                v@[1] == '.',
                forall|j: int| 2 <= j < i ==> is_digit(#[trigger] v@[j]),
            decreases n - i,
        {
            if !is_digit_exec(v[i]) {
                return None;
            }
            i += 1;
        }
        let ghost f = v@.subrange(2, n as int);
        let mut q: u16 = 0;
        if n >= 3 {
            q = digit_val_exec(v[2]) * 100;
            proof {
                assert(f[0] == v@[2]);
            }
        }
        if n >= 4 {
            q = q + digit_val_exec(v[3]) * 10;
            proof {
                assert(f[1] == v@[3]);
            }
        }
        if n >= 5 {
            q = q + digit_val_exec(v[4]);
            proof {
                assert(f[2] == v@[4]);
            }
        }
        Some(q)
    } else if c0 == '1' {
        if n == 1 {
            return Some(1000);
        }
        if v[1] != '.' {
            return None;
        }
        let mut i: usize = 2;
        while i < n
            invariant
                2 <= i <= n,
                n == v@.len(),
                n <= 5,
                v@[0] == '1',
                v@[1] == '.',
                forall|j: int| 2 <= j < i ==> #[trigger] v@[j] == '0',
            decreases n - i,
        {
            if v[i] != '0' {
                return None;
            }
            i += 1;
        }
        Some(1000)
    } else {
        None
    }
}

/// Spec-level shape of one ranked preference: a locale and a quality weight
/// in thousandths.
pub ghost struct EntrySpec {
    pub loc: LocaleSpec,
    pub q: int,
}

/// One ranked preference taken from a header: a parsed locale and its quality
/// weight in thousandths (`1000` when the quality was omitted).
#[derive(Debug)]
pub struct AcceptEntry {
    pub locale: Locale,
    pub q: u16,
}

impl AcceptEntry {
    /// The spec-level value of this entry.
    pub open spec fn view_spec(self) -> EntrySpec {
        EntrySpec { loc: self.locale.view_spec(), q: self.q as int }
    }
}

/// The spec-level values of a sequence of entries.
pub open spec fn entry_views(es: Seq<AcceptEntry>) -> Seq<EntrySpec> {
    es.map_values(|e: AcceptEntry| e.view_spec())
}

/// The spec-level values of a sequence of locales.
pub open spec fn locale_views(ls: Seq<Locale>) -> Seq<LocaleSpec> {
    ls.map_values(|l: Locale| l.view_spec())
}

/// Grammar of one header element: an optionally whitespace-padded locale tag,
/// optionally followed by `;` and a quality parameter. Elements that do not
/// fit the grammar are dropped (`None`).
pub open spec fn parse_item_spec(s: Seq<char>) -> Option<EntrySpec> {
    let t = trim_spec(s);
    if t.len() == 0 {
        None
    } else if exists|i: int| is_first_pos(t, ';', i) {
        let i = choose|i: int| is_first_pos(t, ';', i);
        let tag = trim_spec(t.subrange(0, i));
        let param = trim_spec(t.subrange(i + 1, t.len() as int));
        if param.len() >= 2 && param[0] == 'q' && param[1] == '=' {
            match parse_locale_spec(tag) {
                Some(l) => match parse_qvalue_spec(param.subrange(2, param.len() as int)) {
                    Some(q) => Some(EntrySpec { loc: l, q }),
                    None => None,
                },
                None => None,
            }
        } else {
            None
        }
    } else {
        match parse_locale_spec(t) {
            Some(l) => Some(EntrySpec { loc: l, q: 1000 }),
            None => None,
        }
    }
}

/// Parses one header element; see [`parse_item_spec`].
pub fn parse_item(v: &Vec<char>) -> (r: Option<AcceptEntry>)
    ensures
        match r {
            Some(e) => parse_item_spec(v@) == Some(e.view_spec()) && e.locale.wf() && e.q <= 1000,
            None => parse_item_spec(v@) is None,
        },
{
    let t = trim_copy(v);
    let n = t.len();
    if n == 0 {
        return None;
    }
    let mut semi: Option<usize> = None;
    let mut i: usize = 0;
    while i < n
        invariant
            n == t@.len(),
            i <= n,
            match semi {
                Some(d) => is_first_pos(t@, ';', d as int) && d < i,
                None => forall|j: int| 0 <= j < i ==> t@[j] != ';',
            },
        decreases n - i,
    {
        if semi.is_none() && t[i] == ';' {
            semi = Some(i);
        }
        i += 1;
    }
    match semi {
        None => {
            proof {
                assert(!exists|k: int| is_first_pos(t@, ';', k));
            }
            match Locale::parse_chars(&t) {
                Some(l) => Some(AcceptEntry { locale: l, q: 1000 }),
                None => None,
            }
        }
        Some(d) => {
            proof {
                assert(is_first_pos(t@, ';', d as int));
                assert((choose|k: int| is_first_pos(t@, ';', k)) == d as int) by {
                    let k = choose|k: int| is_first_pos(t@, ';', k);
                    lemma_first_pos_unique(t@, ';', k, d as int);
                }
            }
            let tag_raw = copy_range(&t, 0, d);
            let tag = trim_copy(&tag_raw);
            let param_raw = copy_range(&t, d + 1, n);
            let param = trim_copy(&param_raw);
            if param.len() < 2 || param[0] != 'q' || param[1] != '=' {
                return None;
            }
            let qtext = copy_range(&param, 2, param.len());
            match Locale::parse_chars(&tag) {
                Some(l) => match parse_qvalue(&qtext) {
                    Some(q) => Some(AcceptEntry { locale: l, q }),
                    None => None,
                },
                None => None,
            }
        }
    }
}

/// Grammar of a whole preference header: elements separated by commas, each
/// parsed by [`parse_item_spec`]; elements that fail to parse are dropped.
pub open spec fn parse_header_spec(s: Seq<char>) -> Seq<EntrySpec>
    decreases s.len(),
{
    if exists|i: int| is_first_pos(s, ',', i) {
        let i = choose|i: int| is_first_pos(s, ',', i);
        let tail = parse_header_spec(s.subrange(i + 1, s.len() as int));
        match parse_item_spec(s.subrange(0, i)) {
            Some(e) => seq![e] + tail,
            None => tail,
        }
    } else {
        match parse_item_spec(s) {
            Some(e) => seq![e],
            None => Seq::empty(),
        }
    }
}

/// Appending one entry appends its spec-level value.
proof fn lemma_entry_views_push(es: Seq<AcceptEntry>, e: AcceptEntry)
    ensures
        entry_views(es.push(e)) == entry_views(es).push(e.view_spec()),
{
    assert(entry_views(es.push(e)) =~= entry_views(es).push(e.view_spec()));
}

/// Parses a whole preference header into ranked entries, in header order;
/// see [`parse_header_spec`].
pub fn parse_header(chars: &Vec<char>) -> (r: Vec<AcceptEntry>)
    ensures
        entry_views(r@) == parse_header_spec(chars@),
        forall|i: int| 0 <= i < r@.len() ==> (#[trigger] r@[i]).locale.wf() && r@[i].q <= 1000,
{
    let n = chars.len();
    let mut out: Vec<AcceptEntry> = Vec::new();
    let mut pos: usize = 0;
    let mut done = false;
    proof {
        assert(chars@.subrange(0, n as int) =~= chars@);
        assert(entry_views(out@) + parse_header_spec(chars@) =~= parse_header_spec(chars@));
    }
    while !done
        invariant
            pos <= n,
            n == chars@.len(),
            !done ==> entry_views(out@) + parse_header_spec(
                chars@.subrange(pos as int, n as int),
            ) == parse_header_spec(chars@),
            done ==> entry_views(out@) == parse_header_spec(chars@),
            forall|i: int|
                0 <= i < out@.len() ==> (#[trigger] out@[i]).locale.wf() && out@[i].q <= 1000,
        decreases n - pos, if done { 0int } else { 1int },
    {
        let ghost rest = chars@.subrange(pos as int, n as int);
        let mut comma: Option<usize> = None;
        let mut i: usize = pos;
        while i < n
            invariant
                pos <= i <= n,
                n == chars@.len(),
                match comma {
                    Some(d) => pos <= d < i && chars@[d as int] == ',' && (forall|j: int|
                        pos <= j < d ==> chars@[j] != ','),
                    None => forall|j: int| pos <= j < i ==> chars@[j] != ',',
                },
            decreases n - i,
        {
            if comma.is_none() && chars[i] == ',' {
                comma = Some(i);
            }
            i += 1;
        }
        let end = match comma {
            Some(d) => d,
            None => n,
        };
        let seg = copy_range(chars, pos, end);
        proof {
            match comma {
                Some(d) => {
                    assert(is_first_pos(rest, ',', d - pos)) by {
                        assert(forall|j: int|
                            0 <= j < d - pos ==> #[trigger] rest[j] == chars@[pos + j]);
                        assert(rest[d - pos] == chars@[d as int]);
                    }
                    assert((choose|k: int| is_first_pos(rest, ',', k)) == d - pos) by {
                        let k = choose|k: int| is_first_pos(rest, ',', k);
                        lemma_first_pos_unique(rest, ',', k, d - pos);
                    }
                    assert(seg@ =~= rest.subrange(0, d - pos));
                    assert(chars@.subrange(d + 1, n as int) =~= rest.subrange(
                        d + 1 - pos,
                        rest.len() as int,
                    ));
                }
                None => {
                    assert(forall|j: int|
                        0 <= j < rest.len() ==> #[trigger] rest[j] == chars@[pos + j]);
                    assert(!exists|k: int| is_first_pos(rest, ',', k));
                    assert(seg@ =~= rest);
                }
            }
        }
        let ghost out_before = out@;
        let item = parse_item(&seg);
        match item {
            Some(e) => {
                proof {
                    lemma_entry_views_push(out@, e);
                }
                out.push(e);
            }
            None => {}
        }
        match comma {
            Some(d) => {
                pos = d + 1;
                proof {
                    assert(entry_views(out@) + parse_header_spec(
                        chars@.subrange(pos as int, n as int),
                    ) =~= entry_views(out_before) + parse_header_spec(rest));
                }
            }
            None => {
                done = true;
                proof {
                    assert(entry_views(out@) =~= entry_views(out_before) + parse_header_spec(
                        rest,
                    ));
                }
            }
        }
    }
    out
}

/// The locale is supported by exact tag.
pub open spec fn exact_in(l: LocaleSpec, supported: Seq<LocaleSpec>) -> bool {
    supported.contains(l)
}

/// Some supported locale shares the primary subtag.
pub open spec fn primary_in(l: LocaleSpec, supported: Seq<LocaleSpec>) -> bool {
    exists|k: int| 0 <= k < supported.len() && (#[trigger] supported[k]).primary == l.primary
}

/// Entry `i` is the exact-pass winner: it matches exactly, and every other
/// exactly-matching entry either has lower quality or comes later at equal
/// quality. This is the entry an exact-match scan of the ranked list (stable
/// descending sort by quality) would hit first.
pub open spec fn is_exact_winner(
    entries: Seq<EntrySpec>,
    supported: Seq<LocaleSpec>,
    i: int,
) -> bool {
    &&& 0 <= i < entries.len()
    &&& exact_in(entries[i].loc, supported)
    &&& forall|j: int|
        0 <= j < entries.len() && exact_in((#[trigger] entries[j]).loc, supported) ==> (
        entries[i].q > entries[j].q || (entries[i].q == entries[j].q && i <= j))
}

/// Entry `i` is the primary-pass winner, by the same ranking applied to
/// primary-subtag matches.
pub open spec fn is_primary_winner(
    entries: Seq<EntrySpec>,
    supported: Seq<LocaleSpec>,
    i: int,
) -> bool {
    &&& 0 <= i < entries.len()
    &&& primary_in(entries[i].loc, supported)
    &&& forall|j: int|
        0 <= j < entries.len() && primary_in((#[trigger] entries[j]).loc, supported) ==> (
        entries[i].q > entries[j].q || (entries[i].q == entries[j].q && i <= j))
}

/// `k` is the first supported locale sharing the primary subtag of `l`.
pub open spec fn is_first_primary(l: LocaleSpec, supported: Seq<LocaleSpec>, k: int) -> bool {
    &&& 0 <= k < supported.len()
    &&& supported[k].primary == l.primary
    &&& forall|m: int| 0 <= m < k ==> (#[trigger] supported[m]).primary != l.primary
}

pub proof fn lemma_exact_winner_unique(
    entries: Seq<EntrySpec>,
    supported: Seq<LocaleSpec>,
    i1: int,
    i2: int,
)
    requires
        is_exact_winner(entries, supported, i1),
        is_exact_winner(entries, supported, i2),
    ensures
        i1 == i2,
{
}

pub proof fn lemma_primary_winner_unique(
    entries: Seq<EntrySpec>,
    supported: Seq<LocaleSpec>,
    i1: int,
    i2: int,
)
    requires
        is_primary_winner(entries, supported, i1),
        is_primary_winner(entries, supported, i2),
    ensures
        i1 == i2,
{
}

pub proof fn lemma_first_primary_unique(
    l: LocaleSpec,
    supported: Seq<LocaleSpec>,
    k1: int,
    k2: int,
)
    requires
        is_first_primary(l, supported, k1),
        is_first_primary(l, supported, k2),
    ensures
        k1 == k2,
{
    if k1 < k2 {
        assert(supported[k1].primary != l.primary);
    } else if k2 < k1 {
        assert(supported[k2].primary != l.primary);
    }
}

/// The negotiated locale for ranked entries: the exact-pass winner's locale
/// if any entry matches exactly; otherwise, for the primary-pass winner, the
/// first supported locale sharing its primary subtag; otherwise the default.
pub open spec fn negotiate_spec(
    entries: Seq<EntrySpec>,
    supported: Seq<LocaleSpec>,
    default: LocaleSpec,
) -> LocaleSpec {
    if exists|i: int| is_exact_winner(entries, supported, i) {
        entries[choose|i: int| is_exact_winner(entries, supported, i)].loc
    } else if exists|i: int| is_primary_winner(entries, supported, i) {
        let i = choose|i: int| is_primary_winner(entries, supported, i);
        supported[choose|k: int| is_first_primary(entries[i].loc, supported, k)]
    } else {
        default
    }
}

/// When some entry matches exactly, an exact-pass winner exists.
pub proof fn lemma_exact_winner_exists(entries: Seq<EntrySpec>, supported: Seq<LocaleSpec>)
    requires
        exists|j: int| 0 <= j < entries.len() && exact_in((#[trigger] entries[j]).loc, supported),
    ensures
        exists|i: int| is_exact_winner(entries, supported, i),
    decreases entries.len(),
{
    let n = entries.len() as int;
    let prefix = entries.subrange(0, n - 1);
    if exists|j: int| 0 <= j < prefix.len() && exact_in((#[trigger] prefix[j]).loc, supported) {
        lemma_exact_winner_exists(prefix, supported);
        let i = choose|i: int| is_exact_winner(prefix, supported, i);
        assert(prefix[i] == entries[i]);
        if exact_in(entries[n - 1].loc, supported) && entries[n - 1].q > entries[i].q {
            assert(is_exact_winner(entries, supported, n - 1)) by {
                assert(forall|j: int|
                    0 <= j < n - 1 ==> #[trigger] entries[j] == prefix[j]);
            }
        } else {
            assert(is_exact_winner(entries, supported, i)) by {
                assert(forall|j: int|
                    0 <= j < n - 1 ==> #[trigger] entries[j] == prefix[j]);
            }
        }
    } else {
        let j = choose|j: int|
            0 <= j < entries.len() && exact_in((#[trigger] entries[j]).loc, supported);
        assert(forall|m: int| 0 <= m < n - 1 ==> #[trigger] prefix[m] == entries[m]);
        if j < n - 1 {
            assert(prefix[j] == entries[j]);
            assert(exact_in(prefix[j].loc, supported));
        }
        assert(j == n - 1);
        assert(is_exact_winner(entries, supported, n - 1));
    }
}

/// When some entry has a primary-subtag match, a primary-pass winner exists.
pub proof fn lemma_primary_winner_exists(entries: Seq<EntrySpec>, supported: Seq<LocaleSpec>)
    requires
        exists|j: int|
            0 <= j < entries.len() && primary_in((#[trigger] entries[j]).loc, supported),
    ensures
        exists|i: int| is_primary_winner(entries, supported, i),
    decreases entries.len(),
{
    let n = entries.len() as int;
    let prefix = entries.subrange(0, n - 1);
    if exists|j: int| 0 <= j < prefix.len() && primary_in((#[trigger] prefix[j]).loc, supported) {
        lemma_primary_winner_exists(prefix, supported);
        let i = choose|i: int| is_primary_winner(prefix, supported, i);
        assert(prefix[i] == entries[i]);
        if primary_in(entries[n - 1].loc, supported) && entries[n - 1].q > entries[i].q {
            assert(is_primary_winner(entries, supported, n - 1)) by {
                assert(forall|j: int|
                    0 <= j < n - 1 ==> #[trigger] entries[j] == prefix[j]);
            }
        } else {
            assert(is_primary_winner(entries, supported, i)) by {
                assert(forall|j: int|
                    0 <= j < n - 1 ==> #[trigger] entries[j] == prefix[j]);
            }
        }
    } else {
        let j = choose|j: int|
            0 <= j < entries.len() && primary_in((#[trigger] entries[j]).loc, supported);
        assert(forall|m: int| 0 <= m < n - 1 ==> #[trigger] prefix[m] == entries[m]);
        if j < n - 1 {
            assert(prefix[j] == entries[j]);
            assert(primary_in(prefix[j].loc, supported));
        }
        assert(j == n - 1);
        assert(is_primary_winner(entries, supported, n - 1));
    }
}

/// Law: for every ranked entry list and every supported set containing the
/// default locale, negotiation returns a member of the supported set.
pub proof fn lemma_negotiation_total(
    entries: Seq<EntrySpec>,
    supported: Seq<LocaleSpec>,
    default: LocaleSpec,
)
    requires
        supported.contains(default),
    ensures
        supported.contains(negotiate_spec(entries, supported, default)),
{
    if exists|i: int| is_exact_winner(entries, supported, i) {
        let i = choose|i: int| is_exact_winner(entries, supported, i);
        assert(supported.contains(entries[i].loc));
    } else if exists|i: int| is_primary_winner(entries, supported, i) {
        let i = choose|i: int| is_primary_winner(entries, supported, i);
        let k = choose|k: int| is_first_primary(entries[i].loc, supported, k);
        let k0 = choose|k: int|
            0 <= k < supported.len() && (#[trigger] supported[k]).primary == entries[i].loc.primary;
        lemma_first_primary_from_any(entries[i].loc, supported, k0);
        let kf = choose|k: int| is_first_primary(entries[i].loc, supported, k);
        assert(supported.contains(supported[kf]));
    }
}

/// From any primary-subtag match a first one exists.
pub proof fn lemma_first_primary_from_any(l: LocaleSpec, supported: Seq<LocaleSpec>, k0: int)
    requires
        0 <= k0 < supported.len(),
        supported[k0].primary == l.primary,
    ensures
        exists|k: int| is_first_primary(l, supported, k),
    decreases k0,
{
    if forall|m: int| 0 <= m < k0 ==> (#[trigger] supported[m]).primary != l.primary {
        assert(is_first_primary(l, supported, k0));
    } else {
        let m = choose|m: int|
            0 <= m < k0 && (#[trigger] supported[m]).primary == l.primary;
        lemma_first_primary_from_any(l, supported, m);
    }
}

/// Law: when any ranked entry matches a supported locale exactly, the
/// negotiated locale is the exact-pass winner's tag — an exact match always
/// beats a primary-subtag match, and carries at least the quality of every
/// other exactly-matching entry.
pub proof fn lemma_exact_match_wins(
    entries: Seq<EntrySpec>,
    supported: Seq<LocaleSpec>,
    default: LocaleSpec,
    j: int,
)
    requires
        0 <= j < entries.len(),
        exact_in(entries[j].loc, supported),
    ensures
        exists|i: int|
            is_exact_winner(entries, supported, i) && negotiate_spec(entries, supported, default)
                == entries[i].loc && entries[i].q >= entries[j].q,
        exact_in(negotiate_spec(entries, supported, default), supported),
{
    lemma_exact_winner_exists(entries, supported);
    let i = choose|i: int| is_exact_winner(entries, supported, i);
    assert(negotiate_spec(entries, supported, default) == entries[i].loc);
    assert(entries[i].q >= entries[j].q);
}

/// Law: when the header yields no ranked entries — empty or entirely
/// malformed input — negotiation returns the default locale.
pub proof fn lemma_empty_yields_default(
    entries: Seq<EntrySpec>,
    supported: Seq<LocaleSpec>,
    default: LocaleSpec,
)
    requires
        entries.len() == 0,
    ensures
        negotiate_spec(entries, supported, default) == default,
{
}

/// Whether `supported` contains an exact match for `l`.
fn contains_exact(supported: &Vec<Locale>, l: &Locale) -> (r: bool)
    ensures
        r == exact_in(l.view_spec(), locale_views(supported@)),
{
    let n = supported.len();
    let mut i: usize = 0;
    while i < n
        invariant
            i <= n,
            n == supported@.len(),
            forall|j: int| 0 <= j < i ==> (#[trigger] supported@[j]).view_spec() != l.view_spec(),
        decreases n - i,
    {
        if supported[i].eq_tag(l) {
            proof {
                assert(locale_views(supported@)[i as int] == l.view_spec());
            }
            return true;
        }
        i += 1;
    }
    proof {
        assert forall|k: int| 0 <= k < locale_views(supported@).len() implies #[trigger] locale_views(
            supported@,
        )[k] != l.view_spec() by {
            assert(locale_views(supported@)[k] == supported@[k].view_spec());
        }
    }
    false
}

/// The first supported locale sharing the primary subtag of `l`, if any.
fn first_primary_idx(supported: &Vec<Locale>, l: &Locale) -> (r: Option<usize>)
    ensures
        match r {
            Some(k) => is_first_primary(l.view_spec(), locale_views(supported@), k as int),
            None => !primary_in(l.view_spec(), locale_views(supported@)),
        },
{
    let n = supported.len();
    let mut i: usize = 0;
    while i < n
        invariant
            i <= n,
            n == supported@.len(),
            forall|j: int|
                0 <= j < i ==> (#[trigger] supported@[j]).view_spec().primary
                    != l.view_spec().primary,
        decreases n - i,
    {
        if supported[i].eq_primary(l) {
            proof {
                assert(locale_views(supported@)[i as int] == supported@[i as int].view_spec());
                assert forall|m: int| 0 <= m < i implies #[trigger] locale_views(
                    supported@,
                )[m].primary != l.view_spec().primary by {
                    assert(locale_views(supported@)[m] == supported@[m].view_spec());
                }
            }
            return Some(i);
        }
        i += 1;
    }
    proof {
        assert forall|k: int|
            0 <= k < locale_views(supported@).len() implies #[trigger] locale_views(
            supported@,
        )[k].primary != l.view_spec().primary by {
            assert(locale_views(supported@)[k] == supported@[k].view_spec());
        }
    }
    None
}

/// Negotiates the best supported locale for a raw preference header: ranked
/// entries are scanned for an exact tag match first, then for a primary
/// subtag match, and the default locale is returned when both passes miss.
/// The result is always a member of the supported set.
pub fn negotiate(header: &str, supported: &Vec<Locale>, default: &Locale) -> (r: Locale)
    requires
        locale_views(supported@).contains(default.view_spec()),
    ensures
        r.view_spec() == negotiate_spec(
            parse_header_spec(header@),
            locale_views(supported@),
            default.view_spec(),
        ),
        locale_views(supported@).contains(r.view_spec()),
{
    let chars = str_to_chars(header);
    let r = negotiate_entries(&parse_header(&chars), supported, default);
    proof {
        lemma_negotiation_total(
            parse_header_spec(header@),
            locale_views(supported@),
            default.view_spec(),
        );
    }
    r
}

/// Negotiation over already-parsed ranked entries; see [`negotiate`].
pub fn negotiate_entries(
    entries: &Vec<AcceptEntry>,
    supported: &Vec<Locale>,
    default: &Locale,
) -> (r: Locale)
    requires
        locale_views(supported@).contains(default.view_spec()),
    ensures
        r.view_spec() == negotiate_spec(
            entry_views(entries@),
            locale_views(supported@),
            default.view_spec(),
        ),
{
    let ghost ev = entry_views(entries@);
    let ghost sv = locale_views(supported@);
    let n = entries.len();
    proof {
        assert(forall|j: int| 0 <= j < n ==> #[trigger] ev[j] == entries@[j].view_spec());
    }
    // Exact pass: the highest-quality exactly-matching entry, earliest on ties.
    let mut best: Option<usize> = None;
    let mut i: usize = 0;
    while i < n
        invariant
            i <= n,
            n == entries@.len(),
            ev == entry_views(entries@),
            sv == locale_views(supported@),
            forall|j: int| 0 <= j < n ==> #[trigger] ev[j] == entries@[j].view_spec(),
            match best {
                Some(b) => b < i && exact_in(ev[b as int].loc, sv) && (forall|j: int|
                    0 <= j < i && exact_in((#[trigger] ev[j]).loc, sv) ==> (ev[b as int].q > ev[j].q
                        || (ev[b as int].q == ev[j].q && b <= j))),
                None => forall|j: int| 0 <= j < i ==> !exact_in((#[trigger] ev[j]).loc, sv),
            },
        decreases n - i,
    {
        if contains_exact(supported, &entries[i].locale) {
            let replace = match best {
                None => true,
                Some(b) => entries[i].q > entries[b].q,
            };
            if replace {
                best = Some(i);
            }
        }
        i += 1;
    }
    match best {
        Some(b) => {
            proof {
                assert(is_exact_winner(ev, sv, b as int));
                let i0 = choose|i: int| is_exact_winner(ev, sv, i);
                lemma_exact_winner_unique(ev, sv, i0, b as int);
            }
            return entries[b].locale.duplicate();
        }
        None => {
            proof {
                assert(forall|j: int| 0 <= j < n ==> !exact_in((#[trigger] ev[j]).loc, sv));
                assert(!exists|i: int| is_exact_winner(ev, sv, i));
            }
        }
    }
    // Primary pass: the highest-quality entry with a primary-subtag match,
    // resolved to the first supported locale sharing that subtag.
    let mut bestp: Option<(usize, usize)> = None;
    let mut i2: usize = 0;
    while i2 < n
        invariant
            i2 <= n,
            n == entries@.len(),
            ev == entry_views(entries@),
            sv == locale_views(supported@),
            forall|j: int| 0 <= j < n ==> #[trigger] ev[j] == entries@[j].view_spec(),
            match bestp {
                Some(bk) => bk.0 < i2 && primary_in(ev[bk.0 as int].loc, sv) && is_first_primary(
                    ev[bk.0 as int].loc,
                    sv,
                    bk.1 as int,
                ) && (forall|j: int|
                    0 <= j < i2 && primary_in((#[trigger] ev[j]).loc, sv) ==> (ev[bk.0 as int].q
                        > ev[j].q || (ev[bk.0 as int].q == ev[j].q && bk.0 <= j))),
                None => forall|j: int| 0 <= j < i2 ==> !primary_in((#[trigger] ev[j]).loc, sv),
            },
        decreases n - i2,
    {
        match first_primary_idx(supported, &entries[i2].locale) {
            Some(k) => {
                let replace = match bestp {
                    None => true,
                    Some(bk) => entries[i2].q > entries[bk.0].q,
                };
                if replace {
                    bestp = Some((i2, k));
                }
                proof {
                    assert(primary_in(ev[i2 as int].loc, sv));
                }
            }
            None => {}
        }
        i2 += 1;
    }
    match bestp {
        Some(bk) => {
            proof {
                assert(is_primary_winner(ev, sv, bk.0 as int));
                let i0 = choose|i: int| is_primary_winner(ev, sv, i);
                lemma_primary_winner_unique(ev, sv, i0, bk.0 as int);
                let k0 = choose|k: int| is_first_primary(ev[i0].loc, sv, k);
                lemma_first_primary_unique(ev[i0].loc, sv, k0, bk.1 as int);
                assert(locale_views(supported@)[bk.1 as int] == supported@[bk.1 as int].view_spec());
            }
            supported[bk.1].duplicate()
        }
        None => {
            proof {
                assert(forall|j: int| 0 <= j < n ==> !primary_in((#[trigger] ev[j]).loc, sv));
                assert(!exists|i: int| is_primary_winner(ev, sv, i));
            }
            default.duplicate()
        }
    }
}

} // verus!
