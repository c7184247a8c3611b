//! Consistency checking across per-language key sets: the union of all keys,
//! and, per language, the keys it is missing. Keys a language has beyond the
//! union cannot exist — the union contains every language's keys — and that
//! is proved here, not assumed.
use vstd::prelude::*;
use vstd::string::StringExecFns;
use crate::store::{bundle_views, parse_bundle_spec, LoadError, LoadErrorSpec};
use crate::text::str_eq;

verus! {

/// The spec-level values of a sequence of strings.
pub open spec fn str_views(v: Seq<String>) -> Seq<Seq<char>> {
    v.map_values(|s: String| s@)
}

/// The spec-level values of language/key-list pairs.
pub open spec fn lang_keys_views(v: Seq<(String, Vec<String>)>) -> Seq<
    (Seq<char>, Seq<Seq<char>>),
> {
    v.map_values(|p: (String, Vec<String>)| (p.0@, str_views(p.1@)))
}

/// `k` occurs in some language's key list.
pub open spec fn in_any(inputs: Seq<(Seq<char>, Seq<Seq<char>>)>, k: Seq<char>) -> bool {
    exists|i: int| 0 <= i < inputs.len() && (#[trigger] inputs[i]).1.contains(k)
}

/// Pairwise-distinct strings.
pub open spec fn strs_unique(v: Seq<Seq<char>>) -> bool {
    forall|i: int, j: int| 0 <= i < j < v.len() ==> v[i] != v[j]
}

/// The elements of `all`, in order, that are absent from `keys`.
pub open spec fn diff_list(all: Seq<Seq<char>>, keys: Seq<Seq<char>>) -> Seq<Seq<char>>
    decreases all.len(),
{
    if all.len() == 0 {
        Seq::empty()
    } else {
        (if keys.contains(all[0]) {
            Seq::empty()
        } else {
            seq![all[0]]
        }) + diff_list(all.drop_first(), keys)
    }
}

/// Per language, in input order, the keys of `all` it is missing — only
/// languages that miss something appear.
pub open spec fn missing_spec(
    inputs: Seq<(Seq<char>, Seq<Seq<char>>)>,
    all: Seq<Seq<char>>,
) -> Seq<(Seq<char>, Seq<Seq<char>>)>
    decreases inputs.len(),
{
    if inputs.len() == 0 {
        Seq::empty()
    } else {
        (if diff_list(all, inputs[0].1).len() > 0 {
            seq![(inputs[0].0, diff_list(all, inputs[0].1))]
        } else {
            Seq::empty()
        }) + missing_spec(inputs.drop_first(), all)
    }
}

/// When every element of `a` occurs in `b`, nothing of `a` is missing from
/// `b`.
proof fn lemma_diff_list_empty(a: Seq<Seq<char>>, b: Seq<Seq<char>>)
    requires
        forall|j: int| 0 <= j < a.len() ==> b.contains(#[trigger] a[j]),
    ensures
        diff_list(a, b).len() == 0,
    decreases a.len(),
{
    if a.len() > 0 {
        assert(b.contains(a[0]));
        assert(forall|j: int|
            0 <= j < a.drop_first().len() ==> #[trigger] a.drop_first()[j] == a[j + 1]);
        lemma_diff_list_empty(a.drop_first(), b);
    }
}

/// Membership in a sequence extended by one element.
proof fn lemma_contains_snoc(s: Seq<Seq<char>>, x: Seq<char>, k: Seq<char>)
    ensures
        s.push(x).contains(k) <==> (s.contains(k) || k == x),
{
    if s.contains(k) {
        let i = choose|i: int| 0 <= i < s.len() && s[i] == k;
        assert(s.push(x)[i] == k);
    }
    if k == x {
        assert(s.push(x)[s.len() as int] == k);
    }
    if s.push(x).contains(k) {
        let i = choose|i: int| 0 <= i < s.push(x).len() && s.push(x)[i] == k;
        if i < s.len() {
            assert(s[i] == k);
        }
    }
}

/// The outcome of comparing the languages' key sets.
#[derive(Debug)]
pub struct DiffResult {
    /// Every key any language has, without duplicates.
    pub all_keys: Vec<String>,
    /// Per language with an incomplete key set: the keys it is missing.
    pub missing: Vec<(String, Vec<String>)>,
    /// Per language with keys beyond the union: always empty, since the
    /// union contains every language's keys.
    pub extra: Vec<(String, Vec<String>)>,
}

/// Whether `k` occurs in `v`.
fn contains_str(v: &Vec<String>, k: &str) -> (r: bool)
    ensures
        r == str_views(v@).contains(k@),
{
    let n = v.len();
    let mut i: usize = 0;
    while i < n
        invariant
            i <= n,
            n == v@.len(),
            forall|j: int| 0 <= j < i ==> (#[trigger] v@[j])@ != k@,
        decreases n - i,
    {
        if str_eq(v[i].as_str(), k) {
            proof {
                assert(str_views(v@)[i as int] == k@);
            }
            return true;
        }
        i += 1;
    }
    proof {
        assert forall|j: int| 0 <= j < str_views(v@).len() implies #[trigger] str_views(v@)[j]
            != k@ by {
            assert(str_views(v@)[j] == v@[j]@);
        }
    }
    false
}

/// The elements of `all` absent from `keys`, in order; see [`diff_list`].
fn diff_vec(all: &Vec<String>, keys: &Vec<String>) -> (r: Vec<String>)
    ensures
        str_views(r@) == diff_list(str_views(all@), str_views(keys@)),
{
    let ghost av = str_views(all@);
    let ghost kv = str_views(keys@);
    let n = all.len();
    let mut out: Vec<String> = Vec::new();
    let mut i: usize = 0;
    proof {
        assert(av.subrange(0, n as int) =~= av);
        assert(str_views(out@) + diff_list(av, kv) =~= diff_list(av, kv));
    }
    while i < n
        invariant
            i <= n,
            n == all@.len(),
            av == str_views(all@),
            kv == str_views(keys@),
            str_views(out@) + diff_list(av.subrange(i as int, n as int), kv) == diff_list(av, kv),
        decreases n - i,
    {
        let ghost suffix = av.subrange(i as int, n as int);
        proof {
            assert(suffix[0] == av[i as int]);
            assert(av[i as int] == all@[i as int]@);
            assert(suffix.drop_first() =~= av.subrange(i as int + 1, n as int));
        }
        let ghost before = out@;
        if !contains_str(keys, all[i].as_str()) {
            out.push(all[i].clone());
            proof {
                assert(str_views(out@) =~= str_views(before).push(av[i as int]));
            }
        }
        proof {
            assert(str_views(out@) + diff_list(av.subrange(i as int + 1, n as int), kv)
                =~= str_views(before) + diff_list(suffix, kv));
        }
        i += 1;
    }
    proof {
        assert(av.subrange(n as int, n as int) =~= Seq::<Seq<char>>::empty());
        assert(diff_list(Seq::<Seq<char>>::empty(), kv) =~= Seq::<Seq<char>>::empty());
        assert(str_views(out@) =~= str_views(out@) + diff_list(
            av.subrange(n as int, n as int),
            kv,
        ));
    }
    out
}

/// Compares the languages' key sets: collects the union of all keys, then
/// reports, per language in input order, the keys it is missing. The `extra`
/// report is proved empty: no language can have a key outside the union.
pub fn diff_keys(lang_keys: &Vec<(String, Vec<String>)>) -> (r: DiffResult)
    ensures
        strs_unique(str_views(r.all_keys@)),
        forall|k: Seq<char>|
            #[trigger] str_views(r.all_keys@).contains(k) <==> in_any(
                lang_keys_views(lang_keys@),
                k,
            ),
        lang_keys_views(r.missing@) == missing_spec(
            lang_keys_views(lang_keys@),
            str_views(r.all_keys@),
        ),
        r.extra@.len() == 0,
{
    let ghost inputs = lang_keys_views(lang_keys@);
    let n = lang_keys.len();
    proof {
        assert(forall|i: int|
            0 <= i < n ==> #[trigger] inputs[i] == (lang_keys@[i].0@, str_views(
                lang_keys@[i].1@,
            )));
    }
    // The union of every language's keys, first-seen order, no duplicates.
    let mut all_keys: Vec<String> = Vec::new();
    let mut i: usize = 0;
    while i < n
        invariant
            i <= n,
            n == lang_keys@.len(),
            inputs == lang_keys_views(lang_keys@),
            forall|x: int|
                0 <= x < n ==> #[trigger] inputs[x] == (lang_keys@[x].0@, str_views(
                    lang_keys@[x].1@,
                )),
            strs_unique(str_views(all_keys@)),
            forall|k: Seq<char>|
                #[trigger] str_views(all_keys@).contains(k) <==> in_any(
                    inputs.subrange(0, i as int),
                    k,
                ),
        decreases n - i,
    {
        let keys = &lang_keys[i].1;
        let ghost keysv = str_views(keys@);
        let m = keys.len();
        let mut j: usize = 0;
        while j < m
            invariant
                j <= m,
                i < n,
                m == keys@.len(),
                n == lang_keys@.len(),
                inputs == lang_keys_views(lang_keys@),
                keysv == str_views(lang_keys@[i as int].1@),
                keys@ == lang_keys@[i as int].1@,
                forall|x: int|
                    0 <= x < n ==> #[trigger] inputs[x] == (lang_keys@[x].0@, str_views(
                        lang_keys@[x].1@,
                    )),
                strs_unique(str_views(all_keys@)),
                forall|k: Seq<char>|
                    #[trigger] str_views(all_keys@).contains(k) <==> (in_any(
                        inputs.subrange(0, i as int),
                        k,
                    ) || keysv.subrange(0, j as int).contains(k)),
            decreases m - j,
        {
            let ghost sub_j = keysv.subrange(0, j as int);
            let ghost sub_j1 = keysv.subrange(0, j as int + 1);
            let ghost before = str_views(all_keys@);
            proof {
                assert(keysv[j as int] == keys@[j as int]@);
                assert(sub_j1 =~= sub_j.push(keysv[j as int]));
            }
            let present = contains_str(&all_keys, keys[j].as_str());
            if !present {
                all_keys.push(keys[j].clone());
                proof {
                    assert(str_views(all_keys@) =~= before.push(keysv[j as int]));
                }
            }
            proof {
                let now = str_views(all_keys@);
                assert forall|k2: Seq<char>| #[trigger] now.contains(k2) implies (in_any(
                    inputs.subrange(0, i as int),
                    k2,
                ) || sub_j1.contains(k2)) by {
                    lemma_contains_snoc(sub_j, keysv[j as int], k2);
                    if !present {
                        lemma_contains_snoc(before, keysv[j as int], k2);
                    }
                }
                assert forall|k2: Seq<char>|
                    in_any(inputs.subrange(0, i as int), k2) || sub_j1.contains(k2) implies
                    #[trigger] now.contains(k2) by {
                    lemma_contains_snoc(sub_j, keysv[j as int], k2);
                    if !present {
                        lemma_contains_snoc(before, keysv[j as int], k2);
                    }
                }
                if !present {
                    assert(strs_unique(now)) by {
                        assert(!before.contains(keysv[j as int]));
                        assert forall|x: int, y: int| 0 <= x < y < now.len() implies now[x]
                            != now[y] by {
                            if y == now.len() - 1 {
                                assert(now[x] == before[x]);
                                if now[x] == keysv[j as int] {
                                    assert(before.contains(keysv[j as int]));
                                }
                            } else {
                                assert(now[x] == before[x] && now[y] == before[y]);
                            }
                        }
                    }
                }
            }
            j += 1;
        }
        proof {
            assert(keysv.subrange(0, m as int) =~= keysv);
            assert forall|k: Seq<char>| #[trigger] str_views(all_keys@).contains(k) implies
                in_any(inputs.subrange(0, i as int + 1), k) by {
                if in_any(inputs.subrange(0, i as int), k) {
                    let x = choose|x: int|
                        0 <= x < i && (#[trigger] inputs.subrange(0, i as int)[x]).1.contains(k);
                    assert(inputs.subrange(0, i as int + 1)[x].1.contains(k));
                } else {
                    assert(keysv.contains(k));
                    assert(inputs.subrange(0, i as int + 1)[i as int].1.contains(k));
                }
            }
            assert forall|k: Seq<char>| in_any(inputs.subrange(0, i as int + 1), k) implies
                #[trigger] str_views(all_keys@).contains(k) by {
                let x = choose|x: int|
                    0 <= x < i + 1 && (#[trigger] inputs.subrange(0, i as int + 1)[x]).1.contains(
                        k,
                    );
                if x < i {
                    assert(inputs.subrange(0, i as int)[x].1.contains(k));
                } else {
                    assert(keysv.contains(k));
                }
            }
        }
        i += 1;
    }
    proof {
        assert(inputs.subrange(0, n as int) =~= inputs);
    }
    // Per language: the keys of the union it is missing, and — provably
    // nothing — the keys it has beyond the union.
    let ghost allv = str_views(all_keys@);
    let mut missing: Vec<(String, Vec<String>)> = Vec::new();
    let mut extra: Vec<(String, Vec<String>)> = Vec::new();
    let mut i2: usize = 0;
    proof {
        assert(lang_keys_views(missing@) + missing_spec(inputs, allv) =~= missing_spec(
            inputs,
            allv,
        ));
    }
    while i2 < n
        invariant
            i2 <= n,
            n == lang_keys@.len(),
            inputs == lang_keys_views(lang_keys@),
            allv == str_views(all_keys@),
            forall|x: int|
                0 <= x < n ==> #[trigger] inputs[x] == (lang_keys@[x].0@, str_views(
                    lang_keys@[x].1@,
                )),
            forall|k: Seq<char>| #[trigger] allv.contains(k) <==> in_any(inputs, k),
            lang_keys_views(missing@) + missing_spec(inputs.subrange(i2 as int, n as int), allv)
                == missing_spec(inputs, allv),
            extra@.len() == 0,
        decreases n - i2,
    {
        let ghost suffix = inputs.subrange(i2 as int, n as int);
        proof {
            assert(suffix[0] == inputs[i2 as int]);
            assert(suffix.drop_first() =~= inputs.subrange(i2 as int + 1, n as int));
        }
        let miss = diff_vec(&all_keys, &lang_keys[i2].1);
        let ghost before = lang_keys_views(missing@);
        if miss.len() > 0 {
            missing.push((lang_keys[i2].0.clone(), miss));
            proof {
                assert(lang_keys_views(missing@) =~= before.push(
                    (inputs[i2 as int].0, diff_list(allv, inputs[i2 as int].1)),
                ));
            }
        }
        let ext = diff_vec(&lang_keys[i2].1, &all_keys);
        proof {
            assert(str_views(ext@).len() == 0) by {
                assert forall|j: int|
                    0 <= j < str_views(lang_keys@[i2 as int].1@).len() implies allv.contains(
                    #[trigger] str_views(lang_keys@[i2 as int].1@)[j],
                ) by {
                    assert(inputs[i2 as int].1.contains(str_views(lang_keys@[i2 as int].1@)[j]));
                    assert(in_any(inputs, str_views(lang_keys@[i2 as int].1@)[j]));
                }
                lemma_diff_list_empty(str_views(lang_keys@[i2 as int].1@), allv);
            }
        }
        if ext.len() > 0 {
            extra.push((lang_keys[i2].0.clone(), ext));
        }
        proof {
            assert(lang_keys_views(missing@) + missing_spec(
                inputs.subrange(i2 as int + 1, n as int),
                allv,
            ) =~= before + missing_spec(suffix, allv));
        }
        i2 += 1;
    }
    proof {
        assert(inputs.subrange(n as int, n as int) =~= Seq::<(Seq<char>, Seq<Seq<char>>)>::empty());
        assert(missing_spec(Seq::<(Seq<char>, Seq<Seq<char>>)>::empty(), allv)
            =~= Seq::<(Seq<char>, Seq<Seq<char>>)>::empty());
        assert(lang_keys_views(missing@) =~= lang_keys_views(missing@) + missing_spec(
            inputs.subrange(n as int, n as int),
            allv,
        ));
    }
    DiffResult { all_keys, missing, extra }
}

/// What listing the keys of named resources yields: per resource, in order,
/// its language name and its parsed keys; the first unparsable resource
/// fails the listing.
pub open spec fn resource_keys_spec(sources: Seq<(Seq<char>, Seq<char>)>) -> Result<
    Seq<(Seq<char>, Seq<Seq<char>>)>,
    LoadErrorSpec,
>
    decreases sources.len(),
{
    if sources.len() == 0 {
        Ok(Seq::empty())
    } else {
        match parse_bundle_spec(sources[0].1) {
            None => Err(LoadErrorSpec::InvalidResource(sources[0].0)),
            Some(b) => match resource_keys_spec(sources.drop_first()) {
                Err(e) => Err(e),
                Ok(rest) => Ok(
                    seq![(sources[0].0, b.map_values(|e: (Seq<char>, Seq<crate::template::SegSpec>)| e.0))]
                        + rest,
                ),
            },
        }
    }
}

/// Lists the message keys of one parsed bundle, in order.
fn keys_of_bundle(entries: &Vec<(String, crate::template::Template)>) -> (r: Vec<String>)
    ensures
        str_views(r@) == bundle_views(entries@).map_values(
            |e: (Seq<char>, Seq<crate::template::SegSpec>)| e.0,
        ),
{
    let ghost goal = bundle_views(entries@).map_values(
        |e: (Seq<char>, Seq<crate::template::SegSpec>)| e.0,
    );
    let n = entries.len();
    let mut out: Vec<String> = Vec::new();
    let mut i: usize = 0;
    proof {
        assert(str_views(out@) =~= goal.subrange(0, 0));
    }
    while i < n
        invariant
            i <= n,
            n == entries@.len(),
            goal == bundle_views(entries@).map_values(
                |e: (Seq<char>, Seq<crate::template::SegSpec>)| e.0,
            ),
            str_views(out@) == goal.subrange(0, i as int),
        decreases n - i,
    {
        let ghost before = out@;
        out.push(entries[i].0.clone());
        proof {
            assert(goal[i as int] == entries@[i as int].0@);
            assert(str_views(out@) =~= str_views(before).push(entries@[i as int].0@));
            assert(goal.subrange(0, i as int + 1) =~= goal.subrange(0, i as int).push(
                goal[i as int],
            ));
        }
        i += 1;
    }
    proof {
        assert(goal.subrange(0, n as int) =~= goal);
    }
    out
}

/// Lists, per named resource from index `i` on, its parsed message keys;
/// see [`resource_keys_spec`].
fn resource_keys_from(sources: &Vec<(String, String)>, i: usize) -> (r: Result<
    Vec<(String, Vec<String>)>,
    LoadError,
>)
    requires
        i <= sources@.len(),
    ensures
        match r {
            Ok(v) => resource_keys_spec(
                crate::store::source_views(sources@).subrange(i as int, sources@.len() as int),
            ) == Ok::<_, LoadErrorSpec>(lang_keys_views(v@)),
            Err(e) => resource_keys_spec(
                crate::store::source_views(sources@).subrange(i as int, sources@.len() as int),
            ) == Err::<Seq<(Seq<char>, Seq<Seq<char>>)>, _>(e.view_spec()),
        },
    decreases sources@.len() - i,
{
    let ghost tail = crate::store::source_views(sources@).subrange(
        i as int,
        sources@.len() as int,
    );
    let n = sources.len();
    if i == n {
        let out: Vec<(String, Vec<String>)> = Vec::new();
        proof {
            assert(lang_keys_views(out@) =~= Seq::<(Seq<char>, Seq<Seq<char>>)>::empty());
        }
        return Ok(out);
    }
    proof {
        assert(tail[0] == (sources@[i as int].0@, sources@[i as int].1@));
        assert(tail.drop_first() =~= crate::store::source_views(sources@).subrange(
            i as int + 1,
            sources@.len() as int,
        ));
    }
    let body = sources[i].1.as_str();
    proof {
        assert(body@.subrange(0, body@.len() as int) =~= body@);
    }
    let entries = match crate::store::parse_bundle(body) {
        None => {
            return Err(LoadError::InvalidResource { name: sources[i].0.clone() });
        }
        Some(v) => v,
    };
    let keys = keys_of_bundle(&entries);
    let rest = match resource_keys_from(sources, i + 1) {
        Err(e) => {
            return Err(e);
        }
        Ok(v) => v,
    };
    let ghost langv = sources@[i as int].0@;
    let ghost keysv = str_views(keys@);
    let ghost restv = lang_keys_views(rest@);
    let mut rest = rest;
    rest.insert(0, (sources[i].0.clone(), keys));
    proof {
        assert(lang_keys_views(rest@) =~= seq![(langv, keysv)] + restv);
    }
    Ok(rest)
}

/// Lists, per named resource in order, its language name and its parsed
/// message keys; the first unparsable resource fails the listing.
pub fn resource_keys(sources: &Vec<(String, String)>) -> (r: Result<
    Vec<(String, Vec<String>)>,
    LoadError,
>)
    ensures
        match r {
            Ok(v) => resource_keys_spec(crate::store::source_views(sources@)) == Ok::<
                _,
                LoadErrorSpec,
            >(lang_keys_views(v@)),
            Err(e) => resource_keys_spec(crate::store::source_views(sources@)) == Err::<
                Seq<(Seq<char>, Seq<Seq<char>>)>,
                _,
            >(e.view_spec()),
        },
{
    proof {
        assert(crate::store::source_views(sources@).subrange(0, sources@.len() as int)
            =~= crate::store::source_views(sources@));
    }
    resource_keys_from(sources, 0)
}

} // verus!
