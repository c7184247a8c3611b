//! The translation backend: a loaded resource store, a fixed default locale,
//! and one mutable current locale. Rendering resolves the requested locale's
//! bundle, substituting the default locale's bundle when the requested one
//! was not loaded, then looks the key up in that resolved bundle alone.
use vstd::prelude::*;
use crate::locale::{parse_locale_spec, Locale, LocaleSpec};
use crate::negotiate::{locale_views, negotiate, negotiate_spec, parse_header_spec};
use crate::store::{
    bundle_lookup, load_store_spec, store_has_locale, store_lookup, BundleEntrySpec, LoadError,
    LoadErrorSpec, RenderError, RenderErrorSpec, ResourceStore, StoreEntrySpec, source_views,
};
use crate::template::{render_spec, TranslateArgs};

verus! {

/// A loaded store together with a default locale: what loading yields when
/// the default tag parses, every resource loads, and the default locale's
/// resource is among them — and the first failure otherwise.
pub open spec fn load_backend_spec(
    sources: Seq<(Seq<char>, Seq<char>)>,
    default_tag: Seq<char>,
) -> Result<(Seq<StoreEntrySpec>, LocaleSpec), LoadErrorSpec> {
    match parse_locale_spec(default_tag) {
        None => Err(LoadErrorSpec::InvalidDefaultTag(default_tag)),
        Some(d) => match load_store_spec(sources) {
            Err(e) => Err(e),
            Ok(store) => if !store_has_locale(store, d) {
                Err(LoadErrorSpec::MissingDefaultLocale(default_tag))
            } else {
                Ok((store, d))
            },
        },
    }
}

/// The bundle used for `l`: its own when loaded, the default's otherwise.
pub open spec fn resolve_bundle_spec(
    store: Seq<StoreEntrySpec>,
    l: LocaleSpec,
    d: LocaleSpec,
) -> Seq<BundleEntrySpec> {
    match store_lookup(store, l) {
        Some(b) => b,
        None => match store_lookup(store, d) {
            Some(b) => b,
            None => Seq::empty(),
        },
    }
}

/// What translating `key` for `l` yields: the rendering of the key's
/// template in the resolved bundle, or nothing when that bundle lacks the
/// key — a key missing from the resolved bundle is never retried elsewhere.
pub open spec fn translate_spec(
    store: Seq<StoreEntrySpec>,
    l: LocaleSpec,
    d: LocaleSpec,
    key: Seq<char>,
    args: Seq<(Seq<char>, Seq<char>)>,
) -> Option<Seq<char>> {
    match bundle_lookup(resolve_bundle_spec(store, l, d), key) {
        Some(tpl) => Some(render_spec(tpl, args)),
        None => None,
    }
}

/// Law: when every resource loads but none carries the default locale, the
/// whole load fails — the store never starts without its last-resort bundle.
pub proof fn lemma_missing_default_fails_load(
    sources: Seq<(Seq<char>, Seq<char>)>,
    default_tag: Seq<char>,
)
    requires
        parse_locale_spec(default_tag) is Some,
        load_store_spec(sources) is Ok,
        !store_has_locale(load_store_spec(sources)->Ok_0, parse_locale_spec(default_tag)->Some_0),
    ensures
        load_backend_spec(sources, default_tag) == Err::<
            (Seq<StoreEntrySpec>, LocaleSpec),
            LoadErrorSpec,
        >(LoadErrorSpec::MissingDefaultLocale(default_tag)),
{
}

/// A carried locale is found by lookup.
pub proof fn lemma_has_locale_lookup(store: Seq<StoreEntrySpec>, l: LocaleSpec)
    requires
        store_has_locale(store, l),
    ensures
        store_lookup(store, l) is Some,
    decreases store.len(),
{
    if store[0].0 != l {
        let i = choose|i: int| 0 <= i < store.len() && (#[trigger] store[i]).0 == l;
        assert(store.drop_first()[i - 1] == store[i]);
        lemma_has_locale_lookup(store.drop_first(), l);
    }
}

/// A carried locale is in the locale sequence, and conversely.
pub proof fn lemma_has_locale_in_views(store: Seq<StoreEntrySpec>, l: LocaleSpec)
    ensures
        store_has_locale(store, l) <==> store.map_values(|e: StoreEntrySpec| e.0).contains(l),
{
    let locs = store.map_values(|e: StoreEntrySpec| e.0);
    if store_has_locale(store, l) {
        let i = choose|i: int| 0 <= i < store.len() && (#[trigger] store[i]).0 == l;
        assert(locs[i] == l);
    }
    if locs.contains(l) {
        let i = choose|i: int| 0 <= i < locs.len() && locs[i] == l;
        assert(store[i].0 == l);
    }
}

/// The translation backend: an immutable loaded store, the fixed default
/// locale, and the mutable current locale used when no request-scoped locale
/// applies.
#[derive(Debug)]
pub struct TranslationBackend {
    pub store: ResourceStore,
    pub default_locale: Locale,
    pub current_locale: Locale,
}

impl TranslationBackend {
    /// The store is well formed and carries both the default and the current
    /// locale.
    pub open spec fn wf(self) -> bool {
        &&& self.store.wf()
        &&& self.default_locale.wf()
        &&& self.current_locale.wf()
        &&& store_has_locale(self.store.view_spec(), self.default_locale.view_spec())
        &&& store_has_locale(self.store.view_spec(), self.current_locale.view_spec())
    }

    /// Loads a backend from named sources and a default locale tag. Fails
    /// fast: a bad default tag, any malformed resource, a duplicated locale,
    /// or a missing default-locale resource aborts the load; see
    /// [`load_backend_spec`]. On success the current locale starts at the
    /// default.
    pub fn load_resources(sources: &Vec<(String, String)>, default_tag: &str) -> (r: Result<
        TranslationBackend,
        LoadError,
    >)
        ensures
            match r {
                Ok(b) => {
                    &&& load_backend_spec(source_views(sources@), default_tag@) == Ok::<
                        _,
                        LoadErrorSpec,
                    >((b.store.view_spec(), b.default_locale.view_spec()))
                    &&& b.current_locale.view_spec() == b.default_locale.view_spec()
                    &&& b.wf()
                },
                Err(e) => load_backend_spec(source_views(sources@), default_tag@) == Err::<
                    (Seq<StoreEntrySpec>, LocaleSpec),
                    _,
                >(e.view_spec()),
            },
    {
        let d = match Locale::parse(default_tag) {
            None => {
                return Err(LoadError::InvalidDefaultTag { tag: default_tag.to_owned() });
            }
            Some(l) => l,
        };
        let store = match ResourceStore::load_from_sources(sources) {
            Err(e) => {
                return Err(e);
            }
            Ok(s) => s,
        };
        let has_default = match store.bundle_idx(&d) {
            Some(_) => true,
            None => false,
        };
        proof {
            if has_default {
                assert(store_has_locale(store.view_spec(), d.view_spec())) by {
                    lemma_lookup_has_locale(store.view_spec(), d.view_spec());
                }
            } else {
                if store_has_locale(store.view_spec(), d.view_spec()) {
                    lemma_has_locale_lookup(store.view_spec(), d.view_spec());
                }
            }
        }
        if !has_default {
            return Err(LoadError::MissingDefaultLocale { tag: default_tag.to_owned() });
        }
        let current = d.duplicate();
        Ok(TranslationBackend { store, default_locale: d, current_locale: current })
    }

    /// Renders `key` with `args` in the bundle resolved for `locale`: the
    /// locale's own bundle when loaded, the default locale's bundle
    /// otherwise. Fails exactly when the resolved bundle lacks the key.
    pub fn translate(&self, key: &str, locale: &Locale, args: &TranslateArgs) -> (r: Result<
        String,
        RenderError,
    >)
        requires
            self.wf(),
        ensures
            match translate_spec(
                self.store.view_spec(),
                locale.view_spec(),
                self.default_locale.view_spec(),
                key@,
                args.view_spec(),
            ) {
                Some(m) => r is Ok && (r->Ok_0)@ == m,
                None => r is Err && (r->Err_0).view_spec() == RenderErrorSpec::MissingKey(key@),
            },
    {
        proof {
            lemma_has_locale_lookup(self.store.view_spec(), self.default_locale.view_spec());
        }
        let idx = match self.store.bundle_idx(locale) {
            Some(k) => k,
            None => match self.store.bundle_idx(&self.default_locale) {
                Some(k) => k,
                None => {
                    proof {
                        assert(false);
                    }
                    0
                }
            },
        };
        let ghost resolved = resolve_bundle_spec(
            self.store.view_spec(),
            locale.view_spec(),
            self.default_locale.view_spec(),
        );
        proof {
            assert(self.store.view_spec()[idx as int].1 == resolved);
        }
        match self.store.bundles[idx].1.get(key) {
            None => Err(RenderError::MissingKey { key: key.to_owned() }),
            Some(tpl) => Ok(tpl.render(args)),
        }
    }

    /// The current locale, as a fresh value.
    pub fn current_locale(&self) -> (r: Locale)
        ensures
            r.view_spec() == self.current_locale.view_spec(),
    {
        self.current_locale.duplicate()
    }

    /// The default locale, as a fresh value.
    pub fn default_locale(&self) -> (r: Locale)
        ensures
            r.view_spec() == self.default_locale.view_spec(),
    {
        self.default_locale.duplicate()
    }

    /// The supported locales: those for which a resource was loaded.
    pub fn supported_locales(&self) -> (r: Vec<Locale>)
        ensures
            locale_views(r@) == self.store.locales_spec(),
    {
        self.store.supported_locales()
    }

    /// Sets the current locale; refused, leaving the backend unchanged, when
    /// the locale is not supported. Concurrent writers need outside
    /// synchronization around the backend; the last write wins.
    pub fn set_locale(&mut self, locale: &Locale) -> (r: Result<(), RenderError>)
        requires
            old(self).wf(),
            locale.wf(),
        ensures
            final(self).store == old(self).store,
            final(self).default_locale == old(self).default_locale,
            final(self).wf(),
            if store_has_locale(old(self).store.view_spec(), locale.view_spec()) {
                r is Ok && final(self).current_locale.view_spec() == locale.view_spec()
            } else {
                r is Err && (r->Err_0).view_spec() == RenderErrorSpec::MissingLocale(
                    locale.view_spec(),
                ) && final(self).current_locale == old(self).current_locale
            },
    {
        let supported = match self.store.bundle_idx(locale) {
            Some(_) => true,
            None => false,
        };
        proof {
            if supported {
                lemma_lookup_has_locale(self.store.view_spec(), locale.view_spec());
            } else {
                if store_has_locale(self.store.view_spec(), locale.view_spec()) {
                    lemma_has_locale_lookup(self.store.view_spec(), locale.view_spec());
                }
            }
        }
        if supported {
            self.current_locale = locale.duplicate();
            Ok(())
        } else {
            Err(RenderError::MissingLocale { locale: locale.duplicate() })
        }
    }

    /// Negotiates the best supported locale for a raw preference header,
    /// against this backend's supported set and default locale.
    pub fn negotiate_locale(&self, header: &str) -> (r: Locale)
        requires
            self.wf(),
        ensures
            r.view_spec() == negotiate_spec(
                parse_header_spec(header@),
                self.store.locales_spec(),
                self.default_locale.view_spec(),
            ),
            store_has_locale(self.store.view_spec(), r.view_spec()),
    {
        proof {
            lemma_has_locale_in_views(self.store.view_spec(), self.default_locale.view_spec());
        }
        let supported = self.store.supported_locales();
        let r = negotiate(header, &supported, &self.default_locale);
        proof {
            lemma_has_locale_in_views(self.store.view_spec(), r.view_spec());
        }
        r
    }
}

/// A successful lookup means the locale is carried.
pub proof fn lemma_lookup_has_locale(store: Seq<StoreEntrySpec>, l: LocaleSpec)
    requires
        store_lookup(store, l) is Some,
    ensures
        store_has_locale(store, l),
    decreases store.len(),
{
    if store.len() > 0 {
        if store[0].0 == l {
            assert(store_has_locale(store, l));
        } else {
            lemma_lookup_has_locale(store.drop_first(), l);
            let i = choose|i: int|
                0 <= i < store.drop_first().len() && (#[trigger] store.drop_first()[i]).0 == l;
            assert(store[i + 1].0 == l);
        }
    }
}

} // verus!
