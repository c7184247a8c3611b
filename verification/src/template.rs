//! Parameterized message templates: literal text interleaved with named
//! placeholders (`Not found: {resource}/{identifier}`), parsed from resource
//! files and rendered by substituting named arguments. A placeholder whose
//! argument is missing renders as empty text rather than failing the render.
use vstd::prelude::*;
use vstd::string::StrSliceExecFns;
use vstd::string::StringExecFns;
use crate::locale::{is_alpha, is_digit};
use crate::text::{is_first_pos, lemma_first_pos_unique, str_eq};

verus! {

/// Characters allowed in a placeholder name.
pub open spec fn is_name_char(c: char) -> bool {
    is_alpha(c) || is_digit(c) || c == '_'
}

/// A valid placeholder name: one or more name characters.
pub open spec fn valid_name(s: Seq<char>) -> bool {
    s.len() >= 1 && forall|i: int| 0 <= i < s.len() ==> is_name_char(#[trigger] s[i])
}

/// Spec-level shape of one template segment.
pub ghost enum SegSpec {
    Lit(Seq<char>),
    Arg(Seq<char>),
}

/// One template segment: literal text, or a placeholder to substitute.
#[derive(Debug)]
pub enum Seg {
    Lit(String),
    Arg(String),
}

impl Seg {
    /// The spec-level value of this segment.
    pub open spec fn view_spec(self) -> SegSpec {
        match self {
            Seg::Lit(s) => SegSpec::Lit(s@),
            Seg::Arg(s) => SegSpec::Arg(s@),
        }
    }
}

/// The spec-level values of a sequence of segments.
pub open spec fn seg_views(ss: Seq<Seg>) -> Seq<SegSpec> {
    ss.map_values(|s: Seg| s.view_spec())
}

/// Grammar of a template: `{` opens a placeholder that must be closed by the
/// next `}` around a valid name; all other text, `}` included, is literal.
pub open spec fn parse_template_spec(s: Seq<char>) -> Option<Seq<SegSpec>>
    decreases s.len(),
{
    if s.len() == 0 {
        Some(Seq::empty())
    } else if s[0] == '{' {
        if exists|i: int| is_first_pos(s, '}', i) {
            let i = choose|i: int| is_first_pos(s, '}', i);
            let name = s.subrange(1, i);
            if valid_name(name) {
                match parse_template_spec(s.subrange(i + 1, s.len() as int)) {
                    Some(rest) => Some(seq![SegSpec::Arg(name)] + rest),
                    None => None,
                }
            } else {
                None
            }
        } else {
            None
        }
    } else {
        if exists|k: int| is_first_pos(s, '{', k) {
            let k = choose|k: int| is_first_pos(s, '{', k);
            match parse_template_spec(s.subrange(k, s.len() as int)) {
                Some(rest) => Some(seq![SegSpec::Lit(s.subrange(0, k))] + rest),
                None => None,
            }
        } else {
            Some(seq![SegSpec::Lit(s)])
        }
    }
}

/// A parsed message template.
#[derive(Debug)]
pub struct Template {
    pub segs: Vec<Seg>,
}

impl Template {
    /// The spec-level segments of this template.
    pub open spec fn view_spec(self) -> Seq<SegSpec> {
        seg_views(self.segs@)
    }
}

/// Named rendering arguments: an association list with pairwise-distinct
/// keys, looked up by name during rendering.
#[derive(Debug)]
pub struct TranslateArgs {
    pub pairs: Vec<(String, String)>,
}

/// The spec-level key/value pairs of an argument list.
pub open spec fn pair_views(ps: Seq<(String, String)>) -> Seq<(Seq<char>, Seq<char>)> {
    ps.map_values(|p: (String, String)| (p.0@, p.1@))
}

/// The value bound to `key`, scanning pairs front to back.
pub open spec fn lookup_spec(ps: Seq<(Seq<char>, Seq<char>)>, key: Seq<char>) -> Option<Seq<char>>
    decreases ps.len(),
{
    if ps.len() == 0 {
        None
    } else if ps[0].0 == key {
        Some(ps[0].1)
    } else {
        lookup_spec(ps.drop_first(), key)
    }
}

/// Keys are pairwise distinct.
pub open spec fn keys_unique(ps: Seq<(Seq<char>, Seq<char>)>) -> bool {
    forall|i: int, j: int| 0 <= i < j < ps.len() ==> (#[trigger] ps[i]).0 != (#[trigger] ps[j]).0
}

impl TranslateArgs {
    /// The spec-level pairs of this argument list.
    pub open spec fn view_spec(self) -> Seq<(Seq<char>, Seq<char>)> {
        pair_views(self.pairs@)
    }

    /// Distinct keys.
    pub open spec fn wf(self) -> bool {
        keys_unique(self.view_spec())
    }

    /// An empty argument list.
    pub fn new() -> (r: TranslateArgs)
        ensures
            r.view_spec() == Seq::<(Seq<char>, Seq<char>)>::empty(),
            r.wf(),
    {
        let r = TranslateArgs { pairs: Vec::new() };
        proof {
            assert(r.view_spec() =~= Seq::<(Seq<char>, Seq<char>)>::empty());
        }
        r
    }

    /// Binds `key` to `value`, replacing any existing binding; builder style.
    pub fn add(self, key: &str, value: &str) -> (r: TranslateArgs)
        requires
            self.wf(),
        ensures
            r.wf(),
            lookup_spec(r.view_spec(), key@) == Some(value@),
            forall|k: Seq<char>|
                k != key@ ==> #[trigger] lookup_spec(r.view_spec(), k) == lookup_spec(
                    self.view_spec(),
                    k,
                ),
            r.view_spec().len() == self.view_spec().len() + (
            if lookup_spec(self.view_spec(), key@) is Some {
                0int
            } else {
                1int
            }),
    {
        let mut pairs = self.pairs;
        let n = pairs.len();
        let ghost orig = pair_views(pairs@);
        let mut i: usize = 0;
        while i < n
            invariant
                i <= n,
                n == pairs@.len(),
                orig == pair_views(pairs@),
                orig == self.view_spec(),
                keys_unique(orig),
                forall|j: int| 0 <= j < i ==> (#[trigger] orig[j]).0 != key@,
            decreases n - i,
        {
            proof {
                assert(orig[i as int] == (pairs@[i as int].0@, pairs@[i as int].1@));
            }
            if str_eq(pairs[i].0.as_str(), key) {
                let k_owned = key.to_owned();
                let v_owned = value.to_owned();
                pairs.set(i, (k_owned, v_owned));
                let r = TranslateArgs { pairs };
                proof {
                    let rv = r.view_spec();
                    assert(rv =~= orig.update(i as int, (key@, value@)));
                    lemma_lookup_update(orig, i as int, key@, value@);
                    lemma_lookup_some_iff_bound(orig, key@);
                    assert(keys_unique(rv)) by {
                        assert(orig[i as int].0 == key@);
                        assert forall|x: int, y: int| 0 <= x < y < rv.len() implies (
                        #[trigger] rv[x]).0 != (#[trigger] rv[y]).0 by {
                            assert(orig[x].0 == rv[x].0 && orig[y].0 == rv[y].0);
                        }
                    }
                }
                return r;
            }
            i += 1;
        }
        let k_owned = key.to_owned();
        let v_owned = value.to_owned();
        pairs.push((k_owned, v_owned));
        let r = TranslateArgs { pairs };
        proof {
            let rv = r.view_spec();
            assert(rv =~= orig.push((key@, value@)));
            lemma_lookup_push_new(orig, key@, value@);
            lemma_lookup_some_iff_bound(orig, key@);
            assert(keys_unique(rv)) by {
                assert forall|x: int, y: int| 0 <= x < y < rv.len() implies (#[trigger] rv[x]).0
                    != (#[trigger] rv[y]).0 by {
                    if y < orig.len() {
                        assert(orig[x].0 == rv[x].0 && orig[y].0 == rv[y].0);
                    } else {
                        assert(rv[y].0 == key@);
                        assert(orig[x].0 == rv[x].0);
                    }
                }
            }
        }
        r
    }

    /// The value bound to `key`, if any.
    pub fn get(&self, key: &str) -> (r: Option<&String>)
        ensures
            match r {
                Some(v) => lookup_spec(self.view_spec(), key@) == Some(v@),
                None => lookup_spec(self.view_spec(), key@) is None,
            },
    {
        let ghost pv = self.view_spec();
        let n = self.pairs.len();
        let mut i: usize = 0;
        proof {
            assert(pv.subrange(0, n as int) =~= pv);
        }
        while i < n
            invariant
                i <= n,
                n == self.pairs@.len(),
                pv == self.view_spec(),
                lookup_spec(pv, key@) == lookup_spec(pv.subrange(i as int, n as int), key@),
            decreases n - i,
        {
            proof {
                assert(pv[i as int] == (self.pairs@[i as int].0@, self.pairs@[i as int].1@));
                assert(pv.subrange(i as int, n as int)[0] == pv[i as int]);
            }
            if str_eq(self.pairs[i].0.as_str(), key) {
                return Some(&self.pairs[i].1);
            }
            proof {
                assert(pv.subrange(i as int, n as int).drop_first() =~= pv.subrange(
                    i as int + 1,
                    n as int,
                ));
            }
            i += 1;
        }
        proof {
            assert(pv.subrange(n as int, n as int) =~= Seq::<(Seq<char>, Seq<char>)>::empty());
        }
        None
    }

    /// Whether `key` is bound.
    pub fn contains_key(&self, key: &str) -> (r: bool)
        ensures
            r == (lookup_spec(self.view_spec(), key@) is Some),
    {
        self.get(key).is_some()
    }

    /// The number of bindings.
    pub fn len(&self) -> (r: usize)
        ensures
            r == self.view_spec().len(),
    {
        self.pairs.len()
    }

    /// Whether no binding is present.
    pub fn is_empty(&self) -> (r: bool)
        ensures
            r == (self.view_spec().len() == 0),
    {
        self.pairs.len() == 0
    }
}

/// Updating one pair changes lookups for its new key and for no other key
/// that does not collide with the replaced one.
proof fn lemma_lookup_update(ps: Seq<(Seq<char>, Seq<char>)>, i: int, key: Seq<char>, value: Seq<char>)
    requires
        keys_unique(ps),
        0 <= i < ps.len(),
        ps[i].0 == key,
    ensures
        lookup_spec(ps.update(i, (key, value)), key) == Some(value),
        forall|k: Seq<char>|
            k != key ==> #[trigger] lookup_spec(ps.update(i, (key, value)), k) == lookup_spec(
                ps,
                k,
            ),
    decreases ps.len(),
{
    let updated = ps.update(i, (key, value));
    if i == 0 {
        assert(updated[0] == (key, value));
        assert forall|k: Seq<char>| k != key implies #[trigger] lookup_spec(updated, k)
            == lookup_spec(ps, k) by {
            assert(updated.drop_first() =~= ps.drop_first());
        }
    } else {
        assert(ps[0].0 != key);
        assert(updated[0] == ps[0]);
        assert(updated.drop_first() =~= ps.drop_first().update(i - 1, (key, value)));
        assert(keys_unique(ps.drop_first())) by {
            assert forall|x: int, y: int|
                0 <= x < y < ps.drop_first().len() implies (#[trigger] ps.drop_first()[x]).0 != (
            #[trigger] ps.drop_first()[y]).0 by {
                assert(ps.drop_first()[x] == ps[x + 1] && ps.drop_first()[y] == ps[y + 1]);
            }
        }
        assert(ps.drop_first()[i - 1] == ps[i]);
        lemma_lookup_update(ps.drop_first(), i - 1, key, value);
        assert(lookup_spec(updated, key) == Some(value));
        assert forall|k: Seq<char>| k != key implies #[trigger] lookup_spec(updated, k)
            == lookup_spec(ps, k) by {
            if ps[0].0 == k {
                assert(lookup_spec(updated, k) == Some(ps[0].1));
                assert(lookup_spec(ps, k) == Some(ps[0].1));
            } else {
                assert(lookup_spec(updated, k) == lookup_spec(updated.drop_first(), k));
                assert(lookup_spec(ps, k) == lookup_spec(ps.drop_first(), k));
            }
        }
    }
}

/// Pushing a pair with a fresh key changes only that key's lookup.
proof fn lemma_lookup_push_new(ps: Seq<(Seq<char>, Seq<char>)>, key: Seq<char>, value: Seq<char>)
    requires
        forall|j: int| 0 <= j < ps.len() ==> (#[trigger] ps[j]).0 != key,
    ensures
        lookup_spec(ps.push((key, value)), key) == Some(value),
        forall|k: Seq<char>|
            k != key ==> #[trigger] lookup_spec(ps.push((key, value)), k) == lookup_spec(ps, k),
    decreases ps.len(),
{
    let pushed = ps.push((key, value));
    if ps.len() == 0 {
        assert(pushed[0] == (key, value));
        assert forall|k: Seq<char>| k != key implies #[trigger] lookup_spec(pushed, k)
            == lookup_spec(ps, k) by {
            assert(pushed.drop_first() =~= Seq::<(Seq<char>, Seq<char>)>::empty());
            assert(lookup_spec(Seq::<(Seq<char>, Seq<char>)>::empty(), k) is None);
            assert(lookup_spec(pushed, k) == lookup_spec(pushed.drop_first(), k));
        }
    } else {
        assert(pushed[0] == ps[0]);
        assert(pushed.drop_first() =~= ps.drop_first().push((key, value)));
        assert(forall|j: int|
            0 <= j < ps.drop_first().len() ==> (#[trigger] ps.drop_first()[j]).0 != key) by {
            assert(forall|j: int|
                0 <= j < ps.drop_first().len() ==> #[trigger] ps.drop_first()[j] == ps[j + 1]);
        }
        lemma_lookup_push_new(ps.drop_first(), key, value);
        assert(ps[0].0 != key);
        assert(lookup_spec(pushed, key) == Some(value));
        assert forall|k: Seq<char>| k != key implies #[trigger] lookup_spec(pushed, k)
            == lookup_spec(ps, k) by {
            if ps[0].0 == k {
                assert(lookup_spec(pushed, k) == Some(ps[0].1));
            } else {
                assert(lookup_spec(pushed, k) == lookup_spec(pushed.drop_first(), k));
                assert(lookup_spec(ps, k) == lookup_spec(ps.drop_first(), k));
            }
        }
    }
}

/// A key's lookup succeeds exactly when some pair binds it.
proof fn lemma_lookup_some_iff_bound(ps: Seq<(Seq<char>, Seq<char>)>, key: Seq<char>)
    ensures
        (lookup_spec(ps, key) is Some) <==> exists|j: int|
            0 <= j < ps.len() && (#[trigger] ps[j]).0 == key,
    decreases ps.len(),
{
    if ps.len() > 0 {
        lemma_lookup_some_iff_bound(ps.drop_first(), key);
        if ps[0].0 == key {
        } else {
            if exists|j: int| 0 <= j < ps.len() && (#[trigger] ps[j]).0 == key {
                let j = choose|j: int| 0 <= j < ps.len() && (#[trigger] ps[j]).0 == key;
                assert(ps.drop_first()[j - 1] == ps[j]);
            }
            if exists|j: int|
                0 <= j < ps.drop_first().len() && (#[trigger] ps.drop_first()[j]).0 == key {
                let j = choose|j: int|
                    0 <= j < ps.drop_first().len() && (#[trigger] ps.drop_first()[j]).0 == key;
                assert(ps[j + 1].0 == key);
            }
        }
    }
}

/// What one segment renders to: its literal text, or the bound argument
/// value, or empty text for an unbound placeholder.
pub open spec fn seg_render(s: SegSpec, args: Seq<(Seq<char>, Seq<char>)>) -> Seq<char> {
    match s {
        SegSpec::Lit(l) => l,
        SegSpec::Arg(name) => match lookup_spec(args, name) {
            Some(v) => v,
            None => Seq::empty(),
        },
    }
}

/// What a template renders to: the concatenation of its segments' renderings.
pub open spec fn render_spec(segs: Seq<SegSpec>, args: Seq<(Seq<char>, Seq<char>)>) -> Seq<char>
    decreases segs.len(),
{
    if segs.len() == 0 {
        Seq::empty()
    } else {
        seg_render(segs[0], args) + render_spec(segs.drop_first(), args)
    }
}

/// Rendering a template with one more segment appends that segment's text.
proof fn lemma_render_push(segs: Seq<SegSpec>, s: SegSpec, args: Seq<(Seq<char>, Seq<char>)>)
    ensures
        render_spec(segs.push(s), args) == render_spec(segs, args) + seg_render(s, args),
    decreases segs.len(),
{
    if segs.len() == 0 {
        assert(segs.push(s)[0] == s);
        assert(segs.push(s).drop_first() =~= Seq::<SegSpec>::empty());
        assert(render_spec(Seq::<SegSpec>::empty(), args) =~= Seq::<char>::empty());
        assert(render_spec(segs.push(s), args) =~= render_spec(segs, args) + seg_render(s, args));
    } else {
        assert(segs.push(s)[0] == segs[0]);
        assert(segs.push(s).drop_first() =~= segs.drop_first().push(s));
        lemma_render_push(segs.drop_first(), s, args);
        assert(render_spec(segs.push(s), args) =~= render_spec(segs, args) + seg_render(s, args));
    }
}

impl Template {
    /// Parses a template; `None` exactly when a `{` is unclosed or encloses
    /// an invalid placeholder name.
    pub fn parse(s: &str) -> (r: Option<Template>)
        ensures
            match r {
                Some(t) => parse_template_spec(s@) == Some(t.view_spec()),
                None => parse_template_spec(s@) is None,
            },
    {
        let n = s.unicode_len();
        let mut segs: Vec<Seg> = Vec::new();
        let mut pos: usize = 0;
        proof {
            assert(s@.subrange(0, n as int) =~= s@);
        }
        while pos < n
            invariant
                pos <= n,
                n == s@.len(),
                match parse_template_spec(s@.subrange(pos as int, n as int)) {
                    Some(rest) => parse_template_spec(s@) == Some(seg_views(segs@) + rest),
                    None => parse_template_spec(s@) is None,
                },
            decreases n - pos,
        {
            let ghost rest = s@.subrange(pos as int, n as int);
            let c = s.get_char(pos);
            proof {
                assert(rest[0] == s@[pos as int]);
            }
            if c == '{' {
                // Find the closing brace.
                let mut close: Option<usize> = None;
                let mut i: usize = pos;
                while i < n
                    invariant
                        pos <= i <= n,
                        n == s@.len(),
                        match close {
                            Some(d) => pos <= d < i && s@[d as int] == '}' && (forall|j: int|
                                pos <= j < d ==> s@[j] != '}'),
                            None => forall|j: int| pos <= j < i ==> s@[j] != '}',
                        },
                    decreases n - i,
                {
                    if close.is_none() && s.get_char(i) == '}' {
                        close = Some(i);
                    }
                    i += 1;
                }
                match close {
                    None => {
                        proof {
                            assert(forall|j: int|
                                0 <= j < rest.len() ==> #[trigger] rest[j] == s@[pos + j]);
                            assert(!exists|k: int| is_first_pos(rest, '}', k));
                        }
                        return None;
                    }
                    Some(d) => {
                        proof {
                            assert(is_first_pos(rest, '}', d - pos)) by {
                                assert(forall|j: int|
                                    0 <= j < rest.len() ==> #[trigger] rest[j] == s@[pos + j]);
                            }
                            assert((choose|k: int| is_first_pos(rest, '}', k)) == d - pos) by {
                                let k = choose|k: int| is_first_pos(rest, '}', k);
                                lemma_first_pos_unique(rest, '}', k, d - pos);
                            }
                        }
                        let ghost name_g = rest.subrange(1, d - pos);
                        if !check_name(s, pos + 1, d) {
                            proof {
                                assert(s@.subrange(pos as int + 1, d as int) =~= name_g);
                            }
                            return None;
                        }
                        let name = s.substring_char(pos + 1, d);
                        proof {
                            assert(name@ =~= name_g);
                        }
                        let ghost segs_before = seg_views(segs@);
                        segs.push(Seg::Arg(name.to_owned()));
                        proof {
                            assert(seg_views(segs@) =~= segs_before.push(
                                SegSpec::Arg(name_g),
                            ));
                            assert(s@.subrange(d as int + 1, n as int) =~= rest.subrange(
                                d + 1 - pos,
                                rest.len() as int,
                            ));
                            lemma_prefix_extend(s@, segs_before, SegSpec::Arg(name_g), rest, d + 1 - pos);
                        }
                        pos = d + 1;
                    }
                }
            } else {
                // Literal run up to the next opening brace.
                let mut open: Option<usize> = None;
                let mut i: usize = pos;
                while i < n
                    invariant
                        pos <= i <= n,
                        n == s@.len(),
                        match open {
                            Some(d) => pos <= d < i && s@[d as int] == '{' && (forall|j: int|
                                pos <= j < d ==> s@[j] != '{'),
                            None => forall|j: int| pos <= j < i ==> s@[j] != '{',
                        },
                    decreases n - i,
                {
                    if open.is_none() && s.get_char(i) == '{' {
                        open = Some(i);
                    }
                    i += 1;
                }
                let end = match open {
                    Some(d) => d,
                    None => n,
                };
                let lit = s.substring_char(pos, end);
                let ghost segs_before = seg_views(segs@);
                let ghost lit_g = rest.subrange(0, end - pos);
                proof {
                    assert(lit@ =~= lit_g);
                    assert(forall|j: int|
                        0 <= j < rest.len() ==> #[trigger] rest[j] == s@[pos + j]);
                    match open {
                        Some(d) => {
                            assert(is_first_pos(rest, '{', d - pos));
                            assert((choose|k: int| is_first_pos(rest, '{', k)) == d - pos) by {
                                let k = choose|k: int| is_first_pos(rest, '{', k);
                                lemma_first_pos_unique(rest, '{', k, d - pos);
                            }
                        }
                        None => {
                            assert(!exists|k: int| is_first_pos(rest, '{', k));
                            assert(lit_g =~= rest);
                        }
                    }
                }
                segs.push(Seg::Lit(lit.to_owned()));
                proof {
                    assert(seg_views(segs@) =~= segs_before.push(SegSpec::Lit(lit_g)));
                    if end < n {
                        assert(s@.subrange(end as int, n as int) =~= rest.subrange(
                            end - pos,
                            rest.len() as int,
                        ));
                        lemma_prefix_extend(s@, segs_before, SegSpec::Lit(lit_g), rest, end - pos);
                    } else {
                        assert(s@.subrange(n as int, n as int) =~= Seq::<char>::empty());
                        assert(parse_template_spec(Seq::<char>::empty()) == Some(
                            Seq::<SegSpec>::empty(),
                        ));
                        assert(parse_template_spec(rest) == Some(seq![SegSpec::Lit(lit_g)]));
                        assert(seg_views(segs@) + Seq::<SegSpec>::empty() =~= segs_before + seq![
                            SegSpec::Lit(lit_g),
                        ]);
                    }
                }
                pos = end;
            }
        }
        proof {
            assert(s@.subrange(n as int, n as int) =~= Seq::<char>::empty());
            assert(seg_views(segs@) + Seq::<SegSpec>::empty() =~= seg_views(segs@));
        }
        Some(Template { segs })
    }

    /// Renders this template with the given arguments: literal segments are
    /// copied and placeholders are replaced by their bound values, or by
    /// empty text when unbound.
    pub fn render(&self, args: &TranslateArgs) -> (r: String)
        ensures
            r@ == render_spec(self.view_spec(), args.view_spec()),
    {
        let ghost full = self.view_spec();
        let ghost av = args.view_spec();
        let n = self.segs.len();
        let mut out = String::new();
        let mut i: usize = 0;
        proof {
            assert(render_spec(seg_views(self.segs@.subrange(0, 0)), av) =~= Seq::<char>::empty());
            assert(seg_views(self.segs@.subrange(0, 0)) =~= Seq::<SegSpec>::empty());
        }
        while i < n
            invariant
                i <= n,
                n == self.segs@.len(),
                full == self.view_spec(),
                av == args.view_spec(),
                out@ == render_spec(seg_views(self.segs@.subrange(0, i as int)), av),
            decreases n - i,
        {
            let ghost prefix = seg_views(self.segs@.subrange(0, i as int));
            let ghost cur = self.segs@[i as int].view_spec();
            match &self.segs[i] {
                Seg::Lit(l) => {
                    out.append(l.as_str());
                }
                Seg::Arg(name) => {
                    match args.get(name.as_str()) {
                        Some(v) => {
                            out.append(v.as_str());
                        }
                        None => {},
                    }
                }
            }
            proof {
                lemma_render_push(prefix, cur, av);
                assert(seg_views(self.segs@.subrange(0, i as int + 1)) =~= prefix.push(cur));
                assert(out@ =~= render_spec(prefix, av) + seg_render(cur, av));
            }
            i += 1;
        }
        proof {
            assert(self.segs@.subrange(0, n as int) =~= self.segs@);
        }
        out
    }
}

/// Extending the parsed prefix by one segment keeps the running equation
/// between the whole template and the unparsed tail.
proof fn lemma_prefix_extend(
    s: Seq<char>,
    segs_before: Seq<SegSpec>,
    seg: SegSpec,
    rest: Seq<char>,
    cut: int,
)
    requires
        0 <= cut <= rest.len(),
        match parse_template_spec(rest) {
            Some(r) => parse_template_spec(s) == Some(segs_before + r),
            None => parse_template_spec(s) is None,
        },
        parse_template_spec(rest) == (match parse_template_spec(
            rest.subrange(cut, rest.len() as int),
        ) {
            Some(tail) => Some(seq![seg] + tail),
            None => None::<Seq<SegSpec>>,
        }),
    ensures
        match parse_template_spec(rest.subrange(cut, rest.len() as int)) {
            Some(tail) => parse_template_spec(s) == Some(segs_before.push(seg) + tail),
            None => parse_template_spec(s) is None,
        },
{
    match parse_template_spec(rest.subrange(cut, rest.len() as int)) {
        Some(tail) => {
            assert(segs_before + (seq![seg] + tail) =~= segs_before.push(seg) + tail);
        }
        None => {},
    }
}

/// Whether the characters of `s` in `[from, to)` form a valid placeholder
/// name.
fn check_name(s: &str, from: usize, to: usize) -> (r: bool)
    requires
        from <= to <= s@.len(),
    ensures
        r == valid_name(s@.subrange(from as int, to as int)),
{
    let ghost name = s@.subrange(from as int, to as int);
    if to == from {
        return false;
    }
    let mut i: usize = from;
    while i < to
        invariant
            from <= i <= to <= s@.len(),
            name == s@.subrange(from as int, to as int),
            forall|j: int| from <= j < i ==> is_name_char(#[trigger] s@[j]),
        decreases to - i,
    {
        let c = s.get_char(i);
        if !(('a' <= c && c <= 'z') || ('A' <= c && c <= 'Z') || ('0' <= c && c <= '9') || c
            == '_') {
            proof {
                assert(name[i - from] == s@[i as int]);
                assert(!is_name_char(name[i - from]));
            }
            return false;
        }
        i += 1;
    }
    proof {
        assert forall|j: int| 0 <= j < name.len() implies is_name_char(#[trigger] name[j]) by {
            assert(name[j] == s@[from + j]);
        }
    }
    true
}

} // verus!
