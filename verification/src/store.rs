//! Message resource stores: each resource is a set of `key = template` lines
//! for one locale, inferred from the resource's name. All resources are
//! parsed at load time, and any malformed name, line, template, or duplicate
//! is a load error — the store never starts in a partial state.
use vstd::prelude::*;
use vstd::string::StrSliceExecFns;
use vstd::string::StringExecFns;
use crate::locale::{parse_locale_spec, Locale, LocaleSpec};
use crate::template::{
    is_name_char, parse_template_spec, render_spec, seg_views, SegSpec, Template, TranslateArgs,
};
use crate::text::{is_first_pos, lemma_first_pos_unique, str_eq, trim_spec};

verus! {

/// Characters allowed in a message key.
pub open spec fn is_key_char(c: char) -> bool {
    is_name_char(c) || c == '-'
}

/// A valid message key: one or more key characters.
pub open spec fn valid_key(s: Seq<char>) -> bool {
    s.len() >= 1 && forall|i: int| 0 <= i < s.len() ==> is_key_char(#[trigger] s[i])
}

/// One parsed bundle entry at the spec level: a key and its template.
pub type BundleEntrySpec = (Seq<char>, Seq<SegSpec>);

/// Grammar of one resource line: blank lines and `#` comments are skipped
/// (`Some(None)`); otherwise the line must be `key = template`, with the key
/// and template trimmed; anything else is a parse error (`None`).
pub open spec fn parse_line_spec(s: Seq<char>) -> Option<Option<BundleEntrySpec>> {
    let t = trim_spec(s);
    if t.len() == 0 || t[0] == '#' {
        Some(None)
    } else if exists|i: int| is_first_pos(t, '=', i) {
        let i = choose|i: int| is_first_pos(t, '=', i);
        let key = trim_spec(t.subrange(0, i));
        let value = trim_spec(t.subrange(i + 1, t.len() as int));
        if valid_key(key) {
            match parse_template_spec(value) {
                Some(tpl) => Some(Some((key, tpl))),
                None => None,
            }
        } else {
            None
        }
    } else {
        None
    }
}

/// Some entry binds `key`.
pub open spec fn bundle_has_key(entries: Seq<BundleEntrySpec>, key: Seq<char>) -> bool {
    exists|i: int| 0 <= i < entries.len() && (#[trigger] entries[i]).0 == key
}

/// The template bound to `key`, scanning entries front to back.
pub open spec fn bundle_lookup(entries: Seq<BundleEntrySpec>, key: Seq<char>) -> Option<
    Seq<SegSpec>,
>
    decreases entries.len(),
{
    if entries.len() == 0 {
        None
    } else if entries[0].0 == key {
        Some(entries[0].1)
    } else {
        bundle_lookup(entries.drop_first(), key)
    }
}

/// Entry keys are pairwise distinct.
pub open spec fn bundle_keys_unique(entries: Seq<BundleEntrySpec>) -> bool {
    forall|i: int, j: int|
        0 <= i < j < entries.len() ==> (#[trigger] entries[i]).0 != (#[trigger] entries[j]).0
}

/// Grammar of a whole resource: newline-separated lines, each parsed by
/// [`parse_line_spec`]; a malformed line or a duplicated key fails the whole
/// resource.
pub open spec fn parse_bundle_spec(s: Seq<char>) -> Option<Seq<BundleEntrySpec>>
    decreases s.len(),
{
    if exists|i: int| is_first_pos(s, '\n', i) {
        let i = choose|i: int| is_first_pos(s, '\n', i);
        match parse_line_spec(s.subrange(0, i)) {
            None => None,
            Some(head) => match parse_bundle_spec(s.subrange(i + 1, s.len() as int)) {
                None => None,
                Some(rest) => match head {
                    Some(e) => if bundle_has_key(rest, e.0) {
                        None
                    } else {
                        Some(seq![e] + rest)
                    },
                    None => Some(rest),
                },
            },
        }
    } else {
        match parse_line_spec(s) {
            None => None,
            Some(head) => match head {
                Some(e) => Some(seq![e]),
                None => Some(Seq::empty()),
            },
        }
    }
}

/// An immutable collection of message templates for one locale.
#[derive(Debug)]
pub struct Bundle {
    pub entries: Vec<(String, Template)>,
}

/// The spec-level entries of a bundle's backing vector.
pub open spec fn bundle_views(es: Seq<(String, Template)>) -> Seq<BundleEntrySpec> {
    es.map_values(|e: (String, Template)| (e.0@, seg_views(e.1.segs@)))
}

impl Bundle {
    /// The spec-level entries of this bundle.
    pub open spec fn view_spec(self) -> Seq<BundleEntrySpec> {
        bundle_views(self.entries@)
    }

    /// Distinct keys.
    pub open spec fn wf(self) -> bool {
        bundle_keys_unique(self.view_spec())
    }

    /// Whether this bundle binds `key`.
    pub fn has_key(&self, key: &str) -> (r: bool)
        ensures
            r == bundle_has_key(self.view_spec(), key@),
    {
        let ghost bv = self.view_spec();
        let n = self.entries.len();
        let mut i: usize = 0;
        while i < n
            invariant
                i <= n,
                n == self.entries@.len(),
                bv == self.view_spec(),
                forall|j: int| 0 <= j < i ==> (#[trigger] bv[j]).0 != key@,
            decreases n - i,
        {
            proof {
                assert(bv[i as int].0 == self.entries@[i as int].0@);
            }
            if str_eq(self.entries[i].0.as_str(), key) {
                return true;
            }
            i += 1;
        }
        false
    }

    /// The template bound to `key`, if any.
    pub fn get(&self, key: &str) -> (r: Option<&Template>)
        ensures
            match r {
                Some(t) => bundle_lookup(self.view_spec(), key@) == Some(t.view_spec()),
                None => bundle_lookup(self.view_spec(), key@) is None,
            },
    {
        let ghost bv = self.view_spec();
        let n = self.entries.len();
        let mut i: usize = 0;
        proof {
            assert(bv.subrange(0, n as int) =~= bv);
        }
        while i < n
            invariant
                i <= n,
                n == self.entries@.len(),
                bv == self.view_spec(),
                bundle_lookup(bv, key@) == bundle_lookup(bv.subrange(i as int, n as int), key@),
            decreases n - i,
        {
            proof {
                assert(bv[i as int] == (self.entries@[i as int].0@, seg_views(
                    self.entries@[i as int].1.segs@,
                )));
                assert(bv.subrange(i as int, n as int)[0] == bv[i as int]);
            }
            if str_eq(self.entries[i].0.as_str(), key) {
                return Some(&self.entries[i].1);
            }
            proof {
                assert(bv.subrange(i as int, n as int).drop_first() =~= bv.subrange(
                    i as int + 1,
                    n as int,
                ));
            }
            i += 1;
        }
        proof {
            assert(bv.subrange(n as int, n as int) =~= Seq::<BundleEntrySpec>::empty());
        }
        None
    }
}

/// A load failure; loading is all-or-nothing, so any of these aborts startup.
#[derive(Debug)]
pub enum LoadError {
    /// A resource name is not a valid locale tag.
    InvalidLocaleTag { name: String },
    /// A resource body has a malformed line, template, or duplicate key.
    InvalidResource { name: String },
    /// Two resources carry the same locale.
    DuplicateLocale { name: String },
    /// The configured default tag is not a valid locale tag.
    InvalidDefaultTag { tag: String },
    /// No resource was loaded for the default locale.
    MissingDefaultLocale { tag: String },
}

/// Spec-level shape of a load failure.
pub ghost enum LoadErrorSpec {
    InvalidLocaleTag(Seq<char>),
    InvalidResource(Seq<char>),
    DuplicateLocale(Seq<char>),
    InvalidDefaultTag(Seq<char>),
    MissingDefaultLocale(Seq<char>),
}

impl LoadError {
    /// The spec-level value of this error.
    pub open spec fn view_spec(self) -> LoadErrorSpec {
        match self {
            LoadError::InvalidLocaleTag { name } => LoadErrorSpec::InvalidLocaleTag(name@),
            LoadError::InvalidResource { name } => LoadErrorSpec::InvalidResource(name@),
            LoadError::DuplicateLocale { name } => LoadErrorSpec::DuplicateLocale(name@),
            LoadError::InvalidDefaultTag { tag } => LoadErrorSpec::InvalidDefaultTag(tag@),
            LoadError::MissingDefaultLocale { tag } => LoadErrorSpec::MissingDefaultLocale(tag@),
        }
    }
}

/// One loaded store entry at the spec level: a locale and its entries.
pub type StoreEntrySpec = (LocaleSpec, Seq<BundleEntrySpec>);

/// Some store entry carries locale `l`.
pub open spec fn store_has_locale(store: Seq<StoreEntrySpec>, l: LocaleSpec) -> bool {
    exists|i: int| 0 <= i < store.len() && (#[trigger] store[i]).0 == l
}

/// The entries of the bundle for `l`, scanning front to back.
pub open spec fn store_lookup(store: Seq<StoreEntrySpec>, l: LocaleSpec) -> Option<
    Seq<BundleEntrySpec>,
>
    decreases store.len(),
{
    if store.len() == 0 {
        None
    } else if store[0].0 == l {
        Some(store[0].1)
    } else {
        store_lookup(store.drop_first(), l)
    }
}

/// The spec-level sources: each resource's name and body.
pub open spec fn source_views(ss: Seq<(String, String)>) -> Seq<(Seq<char>, Seq<char>)> {
    ss.map_values(|s: (String, String)| (s.0@, s.1@))
}

/// What loading yields for given sources: each name parsed as a locale tag
/// and each body parsed as a bundle, in order, failing on the first bad name
/// or body, and on a duplicated locale.
pub open spec fn load_store_spec(sources: Seq<(Seq<char>, Seq<char>)>) -> Result<
    Seq<StoreEntrySpec>,
    LoadErrorSpec,
>
    decreases sources.len(),
{
    if sources.len() == 0 {
        Ok(Seq::empty())
    } else {
        let head = sources[0];
        match parse_locale_spec(head.0) {
            None => Err(LoadErrorSpec::InvalidLocaleTag(head.0)),
            Some(loc) => match parse_bundle_spec(head.1) {
                None => Err(LoadErrorSpec::InvalidResource(head.0)),
                Some(bundle) => match load_store_spec(sources.drop_first()) {
                    Err(e) => Err(e),
                    Ok(rest) => if store_has_locale(rest, loc) {
                        Err(LoadErrorSpec::DuplicateLocale(head.0))
                    } else {
                        Ok(seq![(loc, bundle)] + rest)
                    },
                },
            },
        }
    }
}

/// Law: a successful load yields exactly one store entry per source, in
/// source order, whose locale is the one parsed from that source's name —
/// the supported locale set is the set of locales named by the sources.
pub proof fn lemma_load_locales_round_trip(sources: Seq<(Seq<char>, Seq<char>)>)
    requires
        load_store_spec(sources) is Ok,
    ensures
        (load_store_spec(sources)->Ok_0).len() == sources.len(),
        forall|i: int|
            0 <= i < sources.len() ==> Some(#[trigger] (load_store_spec(sources)->Ok_0)[i].0)
                == parse_locale_spec(sources[i].0),
    decreases sources.len(),
{
    if sources.len() > 0 {
        let st = load_store_spec(sources)->Ok_0;
        let rest = load_store_spec(sources.drop_first())->Ok_0;
        lemma_load_locales_round_trip(sources.drop_first());
        assert forall|i: int| 0 <= i < sources.len() implies Some(#[trigger] st[i].0)
            == parse_locale_spec(sources[i].0) by {
            if i > 0 {
                assert(st[i] == rest[i - 1]);
                assert(sources.drop_first()[i - 1] == sources[i]);
            }
        }
    }
}

/// A loaded, immutable store of per-locale bundles.
#[derive(Debug)]
pub struct ResourceStore {
    pub bundles: Vec<(Locale, Bundle)>,
}

/// The spec-level entries of a store's backing vector.
pub open spec fn store_views(bs: Seq<(Locale, Bundle)>) -> Seq<StoreEntrySpec> {
    bs.map_values(|b: (Locale, Bundle)| (b.0.view_spec(), bundle_views(b.1.entries@)))
}

impl ResourceStore {
    /// The spec-level entries of this store.
    pub open spec fn view_spec(self) -> Seq<StoreEntrySpec> {
        store_views(self.bundles@)
    }

    /// The locales of this store, in load order.
    pub open spec fn locales_spec(self) -> Seq<LocaleSpec> {
        self.view_spec().map_values(|e: StoreEntrySpec| e.0)
    }

    /// Distinct well-formed locales and well-formed bundles.
    pub open spec fn wf(self) -> bool {
        &&& forall|i: int, j: int|
            0 <= i < j < self.view_spec().len() ==> (#[trigger] self.view_spec()[i]).0 != (
            #[trigger] self.view_spec()[j]).0
        &&& forall|i: int|
            0 <= i < self.view_spec().len() ==> (#[trigger] self.view_spec()[i]).0.wf()
                && bundle_keys_unique(self.view_spec()[i].1) && self.bundles@[i].0.wf()
    }

    /// The index of the bundle for `l`, if one was loaded.
    pub fn bundle_idx(&self, l: &Locale) -> (r: Option<usize>)
        ensures
            match r {
                Some(k) => k < self.view_spec().len() && store_lookup(
                    self.view_spec(),
                    l.view_spec(),
                ) == Some(self.view_spec()[k as int].1),
                None => store_lookup(self.view_spec(), l.view_spec()) is None,
            },
    {
        let ghost sv = self.view_spec();
        let n = self.bundles.len();
        let mut i: usize = 0;
        proof {
            assert(sv.subrange(0, n as int) =~= sv);
        }
        while i < n
            invariant
                i <= n,
                n == self.bundles@.len(),
                sv == self.view_spec(),
                store_lookup(sv, l.view_spec()) == store_lookup(
                    sv.subrange(i as int, n as int),
                    l.view_spec(),
                ),
            decreases n - i,
        {
            proof {
                assert(sv[i as int] == (self.bundles@[i as int].0.view_spec(), bundle_views(
                    self.bundles@[i as int].1.entries@,
                )));
                assert(sv.subrange(i as int, n as int)[0] == sv[i as int]);
            }
            if self.bundles[i].0.eq_tag(l) {
                return Some(i);
            }
            proof {
                assert(sv.subrange(i as int, n as int).drop_first() =~= sv.subrange(
                    i as int + 1,
                    n as int,
                ));
            }
            i += 1;
        }
        proof {
            assert(sv.subrange(n as int, n as int) =~= Seq::<StoreEntrySpec>::empty());
        }
        None
    }

    /// The locales for which a bundle was loaded, in load order.
    pub fn supported_locales(&self) -> (r: Vec<Locale>)
        ensures
            crate::negotiate::locale_views(r@) == self.locales_spec(),
    {
        let n = self.bundles.len();
        let mut out: Vec<Locale> = Vec::new();
        let mut i: usize = 0;
        proof {
            assert(crate::negotiate::locale_views(out@) =~= self.locales_spec().subrange(0, 0));
        }
        while i < n
            invariant
                i <= n,
                n == self.bundles@.len(),
                crate::negotiate::locale_views(out@) == self.locales_spec().subrange(0, i as int),
            decreases n - i,
        {
            let l = self.bundles[i].0.duplicate();
            let ghost lv = l.view_spec();
            let ghost prev = out@;
            out.push(l);
            proof {
                assert(crate::negotiate::locale_views(out@) =~= crate::negotiate::locale_views(
                    prev,
                ).push(lv));
                assert(self.locales_spec()[i as int] == self.bundles@[i as int].0.view_spec());
                assert(self.locales_spec().subrange(0, i as int + 1) =~= self.locales_spec(
                ).subrange(0, i as int).push(self.locales_spec()[i as int]));
            }
            i += 1;
        }
        proof {
            assert(self.locales_spec().subrange(0, n as int) =~= self.locales_spec());
        }
        out
    }

    /// Renders `key` with `args` strictly in the bundle of `locale`: no
    /// fallback of any kind happens here.
    pub fn render_exact(&self, locale: &Locale, key: &str, args: &TranslateArgs) -> (r: Result<
        String,
        RenderError,
    >)
        ensures
            match store_lookup(self.view_spec(), locale.view_spec()) {
                None => r is Err && (r->Err_0).view_spec() == RenderErrorSpec::MissingLocale(
                    locale.view_spec(),
                ),
                Some(b) => match bundle_lookup(b, key@) {
                    None => r is Err && (r->Err_0).view_spec() == RenderErrorSpec::MissingKey(
                        key@,
                    ),
                    Some(tpl) => r is Ok && (r->Ok_0)@ == render_spec(tpl, args.view_spec()),
                },
            },
    {
        match self.bundle_idx(locale) {
            None => Err(RenderError::MissingLocale { locale: locale.duplicate() }),
            Some(k) => {
                match self.bundles[k].1.get(key) {
                    None => Err(RenderError::MissingKey { key: key.to_owned() }),
                    Some(tpl) => Ok(tpl.render(args)),
                }
            }
        }
    }
}

/// Whether the characters of `s` in `[from, to)` form a valid message key.
fn check_key(s: &str, from: usize, to: usize) -> (r: bool)
    requires
        from <= to <= s@.len(),
    ensures
        r == valid_key(s@.subrange(from as int, to as int)),
{
    let ghost key = s@.subrange(from as int, to as int);
    if to == from {
        return false;
    }
    let mut i: usize = from;
    while i < to
        invariant
            from <= i <= to <= s@.len(),
            key == s@.subrange(from as int, to as int),
            forall|j: int| from <= j < i ==> is_key_char(#[trigger] s@[j]),
        decreases to - i,
    {
        let c = s.get_char(i);
        if !(('a' <= c && c <= 'z') || ('A' <= c && c <= 'Z') || ('0' <= c && c <= '9') || c
            == '_' || c == '-') {
            proof {
                assert(key[i - from] == s@[i as int]);
                assert(!is_key_char(key[i - from]));
            }
            return false;
        }
        i += 1;
    }
    proof {
        assert forall|j: int| 0 <= j < key.len() implies is_key_char(#[trigger] key[j]) by {
            assert(key[j] == s@[from + j]);
        }
    }
    true
}

/// Parses the resource line `s[from..to]`; see [`parse_line_spec`].
fn parse_line_range(s: &str, from: usize, to: usize) -> (r: Option<Option<(String, Template)>>)
    requires
        from <= to <= s@.len(),
    ensures
        match r {
            None => parse_line_spec(s@.subrange(from as int, to as int)) is None,
            Some(head) => match head {
                None => parse_line_spec(s@.subrange(from as int, to as int)) == Some(
                    None::<BundleEntrySpec>,
                ),
                Some(e) => parse_line_spec(s@.subrange(from as int, to as int)) == Some(
                    Some((e.0@, e.1.view_spec())),
                ),
            },
        },
{
    let ghost raw = s@.subrange(from as int, to as int);
    let (a, b) = crate::text::trim_bounds(s, from, to);
    let ghost t = trim_spec(raw);
    proof {
        assert(t == s@.subrange(a as int, b as int));
    }
    if a == b {
        return Some(None);
    }
    let c0 = s.get_char(a);
    proof {
        assert(t[0] == s@[a as int]);
    }
    if c0 == '#' {
        return Some(None);
    }
    // Find the key/value separator.
    let mut eq: Option<usize> = None;
    let mut i: usize = a;
    while i < b
        invariant
            a <= i <= b <= s@.len(),
            match eq {
                Some(d) => a <= d < i && s@[d as int] == '=' && (forall|j: int|
                    a <= j < d ==> s@[j] != '='),
                None => forall|j: int| a <= j < i ==> s@[j] != '=',
            },
        decreases b - i,
    {
        if eq.is_none() && s.get_char(i) == '=' {
            eq = Some(i);
        }
        i += 1;
    }
    match eq {
        None => {
            proof {
                assert(forall|j: int| 0 <= j < t.len() ==> #[trigger] t[j] == s@[a + j]);
                assert(!exists|k: int| is_first_pos(t, '=', k));
            }
            None
        }
        Some(d) => {
            proof {
                assert(is_first_pos(t, '=', d - a)) by {
                    assert(forall|j: int| 0 <= j < t.len() ==> #[trigger] t[j] == s@[a + j]);
                }
                assert((choose|k: int| is_first_pos(t, '=', k)) == d - a) by {
                    let k = choose|k: int| is_first_pos(t, '=', k);
                    lemma_first_pos_unique(t, '=', k, d - a);
                }
                assert(t.subrange(0, d - a) =~= s@.subrange(a as int, d as int));
                assert(t.subrange(d - a + 1, t.len() as int) =~= s@.subrange(
                    d as int + 1,
                    b as int,
                ));
            }
            let (ka, kb) = crate::text::trim_bounds(s, a, d);
            if !check_key(s, ka, kb) {
                return None;
            }
            let (va, vb) = crate::text::trim_bounds(s, d + 1, b);
            let vtext = s.substring_char(va, vb);
            proof {
                assert(vtext@ == trim_spec(t.subrange(d - a + 1, t.len() as int)));
            }
            match Template::parse(vtext) {
                None => None,
                Some(tpl) => {
                    let ktext = s.substring_char(ka, kb);
                    Some(Some((ktext.to_owned(), tpl)))
                }
            }
        }
    }
}

/// Whether some entry of `v` binds `key`.
fn vec_has_key(v: &Vec<(String, Template)>, key: &str) -> (r: bool)
    ensures
        r == bundle_has_key(bundle_views(v@), key@),
{
    let ghost bv = bundle_views(v@);
    let n = v.len();
    let mut i: usize = 0;
    while i < n
        invariant
            i <= n,
            n == v@.len(),
            bv == bundle_views(v@),
            forall|j: int| 0 <= j < i ==> (#[trigger] bv[j]).0 != key@,
        decreases n - i,
    {
        proof {
            assert(bv[i as int].0 == v@[i as int].0@);
        }
        if str_eq(v[i].0.as_str(), key) {
            return true;
        }
        i += 1;
    }
    false
}

/// Parses the resource body from `from` to the end; see [`parse_bundle_spec`].
fn parse_bundle_from(s: &str, from: usize) -> (r: Option<Vec<(String, Template)>>)
    requires
        from <= s@.len(),
    ensures
        match r {
            Some(v) => parse_bundle_spec(s@.subrange(from as int, s@.len() as int)) == Some(
                bundle_views(v@),
            ) && bundle_keys_unique(bundle_views(v@)),
            None => parse_bundle_spec(s@.subrange(from as int, s@.len() as int)) is None,
        },
    decreases s@.len() - from,
{
    let ghost tail = s@.subrange(from as int, s@.len() as int);
    let n = s.unicode_len();
    let mut nl: Option<usize> = None;
    let mut i: usize = from;
    while i < n
        invariant
            from <= i <= n,
            n == s@.len(),
            match nl {
                Some(d) => from <= d < i && s@[d as int] == '\n' && (forall|j: int|
                    from <= j < d ==> s@[j] != '\n'),
                None => forall|j: int| from <= j < i ==> s@[j] != '\n',
            },
        decreases n - i,
    {
        if nl.is_none() && s.get_char(i) == '\n' {
            nl = Some(i);
        }
        i += 1;
    }
    proof {
        assert(forall|j: int| 0 <= j < tail.len() ==> #[trigger] tail[j] == s@[from + j]);
    }
    let end = match nl {
        Some(d) => d,
        None => n,
    };
    let head = parse_line_range(s, from, end);
    proof {
        match nl {
            Some(d) => {
                assert(is_first_pos(tail, '\n', d - from));
                assert((choose|k: int| is_first_pos(tail, '\n', k)) == d - from) by {
                    let k = choose|k: int| is_first_pos(tail, '\n', k);
                    lemma_first_pos_unique(tail, '\n', k, d - from);
                }
                assert(tail.subrange(0, d - from) =~= s@.subrange(from as int, d as int));
                assert(tail.subrange(d - from + 1, tail.len() as int) =~= s@.subrange(
                    d as int + 1,
                    n as int,
                ));
            }
            None => {
                assert(!exists|k: int| is_first_pos(tail, '\n', k));
                assert(tail =~= s@.subrange(from as int, n as int));
            }
        }
    }
    let head = match head {
        None => {
            return None;
        }
        Some(h) => h,
    };
    match nl {
        None => {
            match head {
                Some((k, tpl)) => {
                    let mut out: Vec<(String, Template)> = Vec::new();
                    let ghost kv = k@;
                    let ghost tv = tpl.view_spec();
                    out.push((k, tpl));
                    proof {
                        assert(bundle_views(out@) =~= seq![(kv, tv)]);
                    }
                    Some(out)
                }
                None => {
                    let out: Vec<(String, Template)> = Vec::new();
                    proof {
                        assert(bundle_views(out@) =~= Seq::<BundleEntrySpec>::empty());
                    }
                    Some(out)
                }
            }
        }
        Some(d) => {
            let rest = match parse_bundle_from(s, d + 1) {
                None => {
                    return None;
                }
                Some(v) => v,
            };
            match head {
                None => Some(rest),
                Some((k, tpl)) => {
                    if vec_has_key(&rest, k.as_str()) {
                        None
                    } else {
                        let ghost kv = k@;
                        let ghost tv = tpl.view_spec();
                        let ghost restv = bundle_views(rest@);
                        let mut rest = rest;
                        rest.insert(0, (k, tpl));
                        proof {
                            assert(bundle_views(rest@) =~= seq![(kv, tv)] + restv);
                            assert(bundle_keys_unique(bundle_views(rest@))) by {
                                let whole = bundle_views(rest@);
                                assert forall|x: int, y: int|
                                    0 <= x < y < whole.len() implies (#[trigger] whole[x]).0 != (
                                #[trigger] whole[y]).0 by {
                                    if x == 0 {
                                        assert(whole[y] == restv[y - 1]);
                                        assert(!bundle_has_key(restv, kv));
                                    } else {
                                        assert(whole[x] == restv[x - 1]);
                                        assert(whole[y] == restv[y - 1]);
                                    }
                                }
                            }
                        }
                        Some(rest)
                    }
                }
            }
        }
    }
}

/// Parses a whole resource body into its entries; `None` exactly when some
/// line, template, or duplicated key is malformed; see [`parse_bundle_spec`].
pub fn parse_bundle(s: &str) -> (r: Option<Vec<(String, Template)>>)
    ensures
        match r {
            Some(v) => parse_bundle_spec(s@) == Some(bundle_views(v@)) && bundle_keys_unique(
                bundle_views(v@),
            ),
            None => parse_bundle_spec(s@) is None,
        },
{
    proof {
        assert(s@.subrange(0, s@.len() as int) =~= s@);
    }
    parse_bundle_from(s, 0)
}

/// Whether some loaded entry carries locale `l`.
fn vec_has_locale(v: &Vec<(Locale, Bundle)>, l: &Locale) -> (r: bool)
    ensures
        r == store_has_locale(store_views(v@), l.view_spec()),
{
    let ghost sv = store_views(v@);
    let n = v.len();
    let mut i: usize = 0;
    while i < n
        invariant
            i <= n,
            n == v@.len(),
            sv == store_views(v@),
            forall|j: int| 0 <= j < i ==> (#[trigger] sv[j]).0 != l.view_spec(),
        decreases n - i,
    {
        proof {
            assert(sv[i as int].0 == v@[i as int].0.view_spec());
        }
        if v[i].0.eq_tag(l) {
            return true;
        }
        i += 1;
    }
    false
}

/// Loads the sources from index `i` on; see [`load_store_spec`].
fn load_from(sources: &Vec<(String, String)>, i: usize) -> (r: Result<Vec<(Locale, Bundle)>, LoadError>)
    requires
        i <= sources@.len(),
    ensures
        match r {
            Ok(v) => {
                &&& load_store_spec(
                    source_views(sources@).subrange(i as int, sources@.len() as int),
                ) == Ok::<_, LoadErrorSpec>(store_views(v@))
                &&& forall|x: int, y: int|
                    0 <= x < y < store_views(v@).len() ==> (#[trigger] store_views(v@)[x]).0 != (
                    #[trigger] store_views(v@)[y]).0
                &&& forall|x: int|
                    0 <= x < v@.len() ==> (#[trigger] v@[x]).0.wf() && bundle_keys_unique(
                        store_views(v@)[x].1,
                    )
            },
            Err(e) => load_store_spec(
                source_views(sources@).subrange(i as int, sources@.len() as int),
            ) == Err::<Seq<StoreEntrySpec>, _>(e.view_spec()),
        },
    decreases sources@.len() - i,
{
    let ghost tail = source_views(sources@).subrange(i as int, sources@.len() as int);
    let n = sources.len();
    if i == n {
        let out: Vec<(Locale, Bundle)> = Vec::new();
        proof {
            assert(store_views(out@) =~= Seq::<StoreEntrySpec>::empty());
        }
        return Ok(out);
    }
    proof {
        assert(tail[0] == (sources@[i as int].0@, sources@[i as int].1@));
        assert(tail.drop_first() =~= source_views(sources@).subrange(
            i as int + 1,
            sources@.len() as int,
        ));
    }
    let name = &sources[i].0;
    let loc = match Locale::parse(name.as_str()) {
        None => {
            return Err(LoadError::InvalidLocaleTag { name: name.clone() });
        }
        Some(l) => l,
    };
    let body = sources[i].1.as_str();
    proof {
        assert(body@.subrange(0, body@.len() as int) =~= body@);
    }
    let entries = match parse_bundle_from(body, 0) {
        None => {
            return Err(LoadError::InvalidResource { name: name.clone() });
        }
        Some(v) => v,
    };
    let rest = match load_from(sources, i + 1) {
        Err(e) => {
            return Err(e);
        }
        Ok(v) => v,
    };
    if vec_has_locale(&rest, &loc) {
        return Err(LoadError::DuplicateLocale { name: name.clone() });
    }
    let ghost lv = loc.view_spec();
    let ghost bv = bundle_views(entries@);
    let ghost restv = store_views(rest@);
    let mut rest = rest;
    rest.insert(0, (loc, Bundle { entries }));
    proof {
        assert(store_views(rest@) =~= seq![(lv, bv)] + restv);
        let whole = store_views(rest@);
        assert forall|x: int, y: int| 0 <= x < y < whole.len() implies (#[trigger] whole[x]).0
            != (#[trigger] whole[y]).0 by {
            if x == 0 {
                assert(whole[y] == restv[y - 1]);
                assert(!store_has_locale(restv, lv));
            } else {
                assert(whole[x] == restv[x - 1]);
                assert(whole[y] == restv[y - 1]);
            }
        }
        assert forall|x: int| 0 <= x < rest@.len() implies (#[trigger] rest@[x]).0.wf()
            && bundle_keys_unique(store_views(rest@)[x].1) by {
            if x > 0 {
                assert(store_views(rest@)[x] == restv[x - 1]);
            }
        }
    }
    Ok(rest)
}

impl ResourceStore {
    /// Loads a store from named sources: each source is a resource name (a
    /// locale tag) and its body. Returns the first load failure, in source
    /// order; see [`load_store_spec`].
    pub fn load_from_sources(sources: &Vec<(String, String)>) -> (r: Result<
        ResourceStore,
        LoadError,
    >)
        ensures
            match r {
                Ok(store) => load_store_spec(source_views(sources@)) == Ok::<_, LoadErrorSpec>(
                    store.view_spec(),
                ) && store.wf(),
                Err(e) => load_store_spec(source_views(sources@)) == Err::<
                    Seq<StoreEntrySpec>,
                    _,
                >(e.view_spec()),
            },
    {
        proof {
            assert(source_views(sources@).subrange(0, sources@.len() as int) =~= source_views(
                sources@,
            ));
        }
        match load_from(sources, 0) {
            Ok(v) => Ok(ResourceStore { bundles: v }),
            Err(e) => Err(e),
        }
    }
}

/// A render failure; both kinds are recoverable and callers fall back to a
/// fixed description instead of failing the response.
#[derive(Debug)]
pub enum RenderError {
    /// The resolved bundle does not bind the requested key.
    MissingKey { key: String },
    /// No bundle was loaded for the requested locale.
    MissingLocale { locale: Locale },
}

/// Spec-level shape of a render failure.
pub ghost enum RenderErrorSpec {
    MissingKey(Seq<char>),
    MissingLocale(LocaleSpec),
}

impl RenderError {
    /// The spec-level value of this error.
    pub open spec fn view_spec(self) -> RenderErrorSpec {
        match self {
            RenderError::MissingKey { key } => RenderErrorSpec::MissingKey(key@),
            RenderError::MissingLocale { locale } => RenderErrorSpec::MissingLocale(
                locale.view_spec(),
            ),
        }
    }
}

} // verus!
