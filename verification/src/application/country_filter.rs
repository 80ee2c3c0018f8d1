//! Filtering servers by country, knowing which countries the servers are in.
use vstd::prelude::*;
use crate::application::country::{Country, country_display_name, iso_country_name};
use crate::keys::{
    codes_equal, codes_less, key_lt, lemma_key_lt_asymmetric, lemma_key_lt_irreflexive, lemma_key_lt_total,
    lemma_key_lt_transitive, text_codes, text_model,
};
use crate::application::filter_dictionary::FilterDictionary;
use crate::application::promised_value::PromisedValue;
use crate::ordered_map::{OrderedKey, OrderedMap};

verus! {

/// The name a country is listed under.
pub open spec fn listed_name(c: Country) -> Seq<char> {
    country_display_name(c@, iso_country_name(c@))
}

/// The countries come in the order of their names.
pub open spec fn by_name(s: Seq<&Country>) -> bool {
    forall|i: int, j: int|
        0 <= i < j < s.len() ==> !key_lt(text_model(listed_name(*s[j])), text_model(listed_name(*s[i])))
}

/// The countries listed under the name whose sort codes are `n`, in order.
pub open spec fn named(s: Seq<&Country>, n: Seq<u32>) -> Seq<&Country>
    decreases s.len(),
{
    if s.len() == 0 {
        Seq::empty()
    } else if text_model(listed_name(*s.last())) == n {
        named(s.drop_last(), n).push(s.last())
    } else {
        named(s.drop_last(), n)
    }
}

proof fn lemma_named_concat(a: Seq<&Country>, b: Seq<&Country>, n: Seq<u32>)
    ensures
        named(a + b, n) == named(a, n) + named(b, n),
    decreases b.len(),
{
    if b.len() == 0 {
        assert(a + b =~= a);
        assert(named(a, n) + named(b, n) =~= named(a, n));
    } else {
        assert((a + b).drop_last() =~= a + b.drop_last());
        assert((a + b).last() == b.last());
        lemma_named_concat(a, b.drop_last(), n);
        assert(named(a + b, n) =~= named(a, n) + named(b, n));
    }
}

proof fn lemma_named_none(s: Seq<&Country>, n: Seq<u32>)
    requires
        forall|k: int| 0 <= k < s.len() ==> text_model(listed_name(*#[trigger] s[k])) != n,
    ensures
        named(s, n) == Seq::<&Country>::empty(),
    decreases s.len(),
{
    if s.len() > 0 {
        lemma_named_none(s.drop_last(), n);
    }
}

/// The countries, sorted by name; countries with the same name keep their order.
fn sort_by_name<'a>(countries: Vec<&'a Country>) -> (r: Vec<&'a Country>)
    ensures
        r@.to_multiset() == countries@.to_multiset(),
        by_name(r@),
        forall|n: Seq<u32>| #[trigger] named(r@, n) == named(countries@, n),
{
    let mut out: Vec<&Country> = Vec::new();
    let mut names: Vec<Vec<u32>> = Vec::new();
    let mut i: usize = 0;
    assert(out@ =~= countries@.take(0));
    while i < countries.len()
        invariant
            i <= countries@.len(),
            out@.len() == names@.len(),
            out@.to_multiset() == countries@.take(i as int).to_multiset(),
            forall|k: int| 0 <= k < names@.len() ==> #[trigger] names@[k]@ == text_model(listed_name(*out@[k])),
            by_name(out@),
            forall|n: Seq<u32>| #[trigger] named(out@, n) == named(countries@.take(i as int), n),
        decreases countries@.len() - i,
    {
        let c: &Country = countries[i];
        let name = c.name();
        let code = text_codes(name.as_str());
        let mut pos: usize = 0;
        while pos < names.len() && !codes_less(&code, &names[pos])
            invariant
                pos <= names@.len(),
                forall|k: int| 0 <= k < pos ==> !key_lt(code@, #[trigger] names@[k]@),
            decreases names@.len() - pos,
        {
            pos = pos + 1;
        }
        let ghost before = out@;
        let ghost before_names = names@;
        out.insert(pos, c);
        names.insert(pos, code);
        proof {
            vstd::seq_lib::to_multiset_insert(before, pos as int, c);
            assert(countries@.take(i + 1) =~= countries@.take(i as int).push(c));
            vstd::seq_lib::to_multiset_build(countries@.take(i as int), c);
            assert(out@ == before.insert(pos as int, c));
            assert forall|k: int| 0 <= k < names@.len() implies #[trigger] names@[k]@ == text_model(listed_name(*out@[k])) by {
                if k < pos {
                    assert(names@[k] == before_names[k]);
                    assert(out@[k] == before[k]);
                } else if k > pos {
                    assert(names@[k] == before_names[k - 1]);
                    assert(out@[k] == before[k - 1]);
                }
            }
            assert forall|n: Seq<u32>| #[trigger] named(out@, n) == named(countries@.take(i + 1), n) by {
                let x = code@;
                let front = before.take(pos as int);
                let back = before.skip(pos as int);
                assert(before =~= front + back);
                assert(out@ =~= front + seq![c] + back);
                lemma_named_concat(front, back, n);
                lemma_named_concat(front, seq![c], n);
                lemma_named_concat(front + seq![c], back, n);
                assert(seq![c].drop_last() =~= Seq::<&Country>::empty());
                assert(seq![c].last() == c);
                assert(text_model(listed_name(*c)) == x);
                assert(named(Seq::<&Country>::empty(), n) == Seq::<&Country>::empty());
                assert(countries@.take(i + 1).drop_last() =~= countries@.take(i as int));
                assert(countries@.take(i + 1).last() == c);
                assert(named(before, n) == named(countries@.take(i as int), n));
                if x == n {
                    assert forall|k: int| 0 <= k < back.len() implies text_model(listed_name(*#[trigger] back[k])) != n by {
                        let np = before_names[pos as int]@;
                        assert(key_lt(x, np));
                        assert(back[k] == before[pos + k]);
                        assert(before_names[pos + k]@ == text_model(listed_name(*before[pos + k])));
                        if k > 0 {
                            assert(!key_lt(before_names[pos + k]@, np));
                        }
                        if text_model(listed_name(*back[k])) == n {
                            if k == 0 {
                                lemma_key_lt_irreflexive(x);
                            }
                        }
                    }
                    lemma_named_none(back, n);
                    assert(named(back, n) =~= Seq::<&Country>::empty());
                    assert(named(seq![c], n) =~= seq![c]);
                    assert(named(front + seq![c], n) + named(back, n) =~= named(front, n).push(c));
                    assert(named(front, n) + named(back, n) =~= named(front, n));
                } else {
                    assert(named(seq![c], n) =~= Seq::<&Country>::empty());
                    assert(named(front + seq![c], n) =~= named(front, n) + Seq::<&Country>::empty());
                    assert(named(front, n) + Seq::<&Country>::empty() =~= named(front, n));
                }
            }
            assert forall|a: int, b: int| 0 <= a < b < out@.len() implies !key_lt(
                text_model(listed_name(*out@[b])),
                text_model(listed_name(*out@[a])),
            ) by {
                let x = code@;
                let na = names@[a]@;
                let nb = names@[b]@;
                assert(na == text_model(listed_name(*out@[a])));
                assert(nb == text_model(listed_name(*out@[b])));
                if b < pos {
                    assert(names@[a] == before_names[a]);
                    assert(names@[b] == before_names[b]);
                } else if b == pos {
                    assert(names@[a] == before_names[a]);
                } else if a < pos {
                    assert(names@[a] == before_names[a]);
                    assert(names@[b] == before_names[b - 1]);
                } else if a == pos {
                    assert(names@[b] == before_names[b - 1]);
                    let np = before_names[pos as int]@;
                    assert(key_lt(x, np));
                    if key_lt(nb, x) {
                        if b - 1 == pos {
                            lemma_key_lt_asymmetric(x, np);
                        } else {
                            assert(!key_lt(nb, np));
                            lemma_key_lt_transitive(nb, x, np);
                        }
                    }
                } else {
                    assert(names@[a] == before_names[a - 1]);
                    assert(names@[b] == before_names[b - 1]);
                }
            }
        }
        i = i + 1;
    }
    assert(countries@.take(i as int) =~= countries@);
    out
}

/// The code models of some countries.
pub open spec fn listed_models(s: Seq<&Country>) -> Set<Seq<u32>> {
    Set::new(|m: Seq<u32>| exists|i: int| 0 <= i < s.len() && #[trigger] s[i].key_model() == m)
}

/// No two of the countries have the same code.
pub open spec fn distinct_models(s: Seq<&Country>) -> bool {
    forall|i: int, j: int| 0 <= i < j < s.len() ==> s[i].key_model() != s[j].key_model()
}

/// The list with `c` added at its end, unless a country with its code is there.
pub open spec fn with_once<'a>(s: Seq<&'a Country>, c: &'a Country) -> Seq<&'a Country> {
    if listed_models(s).contains(c.key_model()) {
        s
    } else {
        s.push(c)
    }
}

/// The countries themselves.
pub open spec fn values_of<'a>(s: Seq<&'a Country>) -> Seq<Country> {
    Seq::new(s.len(), |i: int| *s[i])
}

/// The list with `c` added at its end, unless a country with its code is there.
pub open spec fn with_code_once(s: Seq<Country>, c: Country) -> Seq<Country> {
    if exists|i: int| 0 <= i < s.len() && #[trigger] s[i].key_model() == c.key_model() {
        s
    } else {
        s.push(c)
    }
}

/// The countries in order, each code kept at its first place only.
pub open spec fn codes_once(s: Seq<Country>) -> Seq<Country>
    decreases s.len(),
{
    if s.len() == 0 {
        Seq::empty()
    } else {
        with_code_once(codes_once(s.drop_last()), s.last())
    }
}

/// The countries listed under the name whose sort codes are `n`, in order.
pub open spec fn named_values(s: Seq<Country>, n: Seq<u32>) -> Seq<Country>
    decreases s.len(),
{
    if s.len() == 0 {
        Seq::empty()
    } else if text_model(listed_name(s.last())) == n {
        named_values(s.drop_last(), n).push(s.last())
    } else {
        named_values(s.drop_last(), n)
    }
}

proof fn lemma_values_named<'a>(s: Seq<&'a Country>, n: Seq<u32>)
    ensures
        values_of(named(s, n)) == named_values(values_of(s), n),
    decreases s.len(),
{
    if s.len() > 0 {
        lemma_values_named(s.drop_last(), n);
        assert(values_of(s).drop_last() =~= values_of(s.drop_last()));
        assert(values_of(named(s.drop_last(), n).push(s.last())) =~= values_of(named(s.drop_last(), n)).push(*s.last()));
    } else {
        assert(values_of(named(s, n)) =~= named_values(values_of(s), n));
    }
}

proof fn lemma_values_with_once<'a>(s: Seq<&'a Country>, c: &'a Country)
    ensures
        values_of(with_once(s, c)) == with_code_once(values_of(s), *c),
{
    let v = values_of(s);
    if listed_models(s).contains(c.key_model()) {
        let i = choose|i: int| 0 <= i < s.len() && #[trigger] s[i].key_model() == c.key_model();
        assert(v[i].key_model() == c.key_model());
    } else {
        assert forall|i: int| 0 <= i < v.len() implies #[trigger] v[i].key_model() != c.key_model() by {
            assert(v[i] == *s[i]);
            if v[i].key_model() == c.key_model() {
                assert(listed_models(s).contains(s[i].key_model()));
            }
        }
        assert(values_of(s.push(c)) =~= v.push(*c));
    }
}

/// Adds a country to a list unless one with its code is there.
fn add_once<'a>(listed: &mut Vec<&'a Country>, codes: &mut Vec<Vec<u32>>, c: &'a Country)
    requires
        old(listed)@.len() == old(codes)@.len(),
        forall|k: int| 0 <= k < old(codes)@.len() ==> #[trigger] old(codes)@[k]@ == old(listed)@[k].key_model(),
        distinct_models(old(listed)@),
    ensures
        final(listed)@.len() == final(codes)@.len(),
        forall|k: int| 0 <= k < final(codes)@.len() ==> #[trigger] final(codes)@[k]@ == final(listed)@[k].key_model(),
        distinct_models(final(listed)@),
        listed_models(final(listed)@) == listed_models(old(listed)@).insert(c.key_model()),
        final(listed)@ == with_once(old(listed)@, c),
        values_of(final(listed)@) == with_code_once(values_of(old(listed)@), *c),
{
    proof {
        lemma_values_with_once(old(listed)@, c);
    }
    let code = c.key_code();
    let mut k: usize = 0;
    while k < codes.len()
        invariant
            k <= codes@.len(),
            listed@ == old(listed)@,
            codes@ == old(codes)@,
            old(listed)@.len() == old(codes)@.len(),
            forall|j: int| 0 <= j < old(codes)@.len() ==> #[trigger] old(codes)@[j]@ == old(listed)@[j].key_model(),
            distinct_models(old(listed)@),
            code@ == c.key_model(),
            forall|j: int| 0 <= j < k ==> #[trigger] codes@[j]@ != code@,
        decreases codes@.len() - k,
    {
        if codes_equal(&codes[k], &code) {
            assert(old(codes)@[k as int]@ == old(listed)@[k as int].key_model());
            assert(listed@[k as int].key_model() == c.key_model());
            assert(listed_models(listed@).contains(c.key_model()));
            assert(listed_models(listed@) =~= listed_models(old(listed)@).insert(c.key_model()));
            assert(with_once(old(listed)@, c) == old(listed)@);
            proof {
                lemma_values_with_once(old(listed)@, c);
            }
            return;
        }
        k = k + 1;
    }
    let ghost before = listed@;
    assert(!listed_models(before).contains(c.key_model())) by {
        if listed_models(before).contains(c.key_model()) {
            let j = choose|j: int| 0 <= j < before.len() && #[trigger] before[j].key_model() == c.key_model();
            assert(codes@[j]@ == before[j].key_model());
        }
    }
    listed.push(c);
    codes.push(code);
    assert(listed@ == with_once(before, c));
    assert forall|a: int, b: int| 0 <= a < b < listed@.len() implies listed@[a].key_model() != listed@[b].key_model() by {
        if b == before.len() {
            assert(codes@[a]@ == before[a].key_model());
        } else {
            assert(listed@[a] == before[a]);
            assert(listed@[b] == before[b]);
        }
    }
    assert forall|m: Seq<u32>| listed_models(listed@).contains(m) == listed_models(before).insert(c.key_model()).contains(m) by {
        if listed_models(listed@).contains(m) {
            let i = choose|i: int| 0 <= i < listed@.len() && #[trigger] listed@[i].key_model() == m;
            if i < before.len() {
                assert(listed@[i] == before[i]);
            }
        }
        if listed_models(before).contains(m) {
            let i = choose|i: int| 0 <= i < before.len() && #[trigger] before[i].key_model() == m;
            assert(listed@[i] == before[i]);
        }
        if m == c.key_model() {
            assert(listed@[before.len() as int] == c);
        }
    }
    assert(listed_models(listed@) =~= listed_models(before).insert(c.key_model()));
}

pub struct CountryFilter {
    available_countries: OrderedMap<Country, ()>,
    countries: FilterDictionary<Country>,
    no_countries: bool,
    enabled: bool,
}

impl CountryFilter {
    pub closed spec fn wf(&self) -> bool {
        self.available_countries.wf() && self.countries.wf()
    }

    /// The countries the current servers are in, by code model.
    pub closed spec fn available(&self) -> Set<Seq<u32>> {
        self.available_countries.to_map().dom()
    }

    /// The countries' checked states, by code model.
    pub closed spec fn checks(&self) -> Map<Seq<u32>, bool> {
        self.countries.checks()
    }

    /// The countries available, in ascending code order.
    pub closed spec fn available_seq(&self) -> Seq<Country> {
        self.available_countries.key_seq()
    }

    /// The countries with a state, in ascending code order.
    pub closed spec fn checked_seq(&self) -> Seq<Country> {
        self.countries.key_seq()
    }

    /// The order in which the countries are listed before they are sorted by
    /// name: the available ones, then the others with a state, each code once.
    pub open spec fn listing_order(&self) -> Seq<Country> {
        codes_once(self.available_seq() + self.checked_seq())
    }

    pub closed spec fn spec_no_countries(&self) -> bool {
        self.no_countries
    }

    pub closed spec fn spec_enabled(&self) -> bool {
        self.enabled
    }

    pub open spec fn spec_is_checked(&self, m: Seq<u32>) -> bool {
        self.checks().dom().contains(m) && self.checks()[m]
    }

    /// A disabled filter accepts every server; a country still being located is
    /// accepted; a missing one when servers without a country are accepted;
    /// else the country must be available and checked.
    pub open spec fn spec_accept(&self, country: PromisedValue<Country>) -> bool {
        if !self.spec_enabled() {
            true
        } else {
            match country {
                PromisedValue::Ready(c) => self.available().contains(c.key_model())
                    && self.spec_is_checked(c.key_model()),
                PromisedValue::Loading => true,
                PromisedValue::Absent => self.spec_no_countries(),
            }
        }
    }

    pub fn accept(&self, country: &PromisedValue<Country>) -> (r: bool)
        requires
            self.wf(),
        ensures
            r == self.spec_accept(*country),
    {
        if !self.enabled {
            return true;
        }
        match country {
            PromisedValue::Ready(country) => self.available_countries.position(country).is_some()
                && self.is_checked(country),
            PromisedValue::Loading => true,
            PromisedValue::Absent => self.no_countries,
        }
    }

    /// The countries to list: those available and those with a state, each
    /// once, in the order of their names.
    pub fn available_countries(&self) -> (r: Vec<&Country>)
        requires
            self.wf(),
        ensures
            forall|m: Seq<u32>| listed_models(r@).contains(m) <==> (self.available().contains(m) || self.checks().dom().contains(m)),
            distinct_models(r@),
            by_name(r@),
            forall|n: Seq<u32>| #[trigger] named_values(values_of(r@), n) == named_values(self.listing_order(), n),
    {
        let ghost chain = self.available_seq() + self.checked_seq();
        let ghost n_available = self.available_seq().len();
        let mut listed: Vec<&Country> = Vec::new();
        let mut codes: Vec<Vec<u32>> = Vec::new();
        assert(listed_models(listed@) =~= Set::<Seq<u32>>::empty());
        assert(chain.take(0) =~= Seq::<Country>::empty());
        assert(values_of(listed@) =~= Seq::<Country>::empty());
        let mut i: usize = 0;
        while i < self.available_countries.len()
            invariant
                self.wf(),
                i <= self.available_countries.key_seq().len(),
                listed@.len() == codes@.len(),
                forall|k: int| 0 <= k < codes@.len() ==> #[trigger] codes@[k]@ == listed@[k].key_model(),
                distinct_models(listed@),
                forall|m: Seq<u32>| listed_models(listed@).contains(m) <==> exists|j: int|
                    0 <= j < i && self.available_countries.models()[j] == m,
                chain == self.available_seq() + self.checked_seq(),
                n_available == self.available_seq().len(),
                values_of(listed@) == codes_once(chain.take(i as int)),
            decreases self.available_countries.key_seq().len() - i,
        {
            let c = self.available_countries.key_at(i);
            let ghost before = listed_models(listed@);
            proof {
                assert(chain.take(i + 1).drop_last() =~= chain.take(i as int));
                assert(chain.take(i + 1).last() == chain[i as int]);
                assert(chain[i as int] == *c);
            }
            add_once(&mut listed, &mut codes, c);
            assert forall|m: Seq<u32>| listed_models(listed@).contains(m) <==> exists|j: int|
                0 <= j < i + 1 && self.available_countries.models()[j] == m by {
                assert(self.available_countries.models()[i as int] == c.key_model());
            }
            i = i + 1;
        }
        let entries = self.countries.iter();
        proof {
            self.countries.lemma_wf();
        }
        let mut k: usize = 0;
        while k < entries.len()
            invariant
                self.wf(),
                i == self.available_countries.key_seq().len(),
                entries@.len() == self.countries.key_seq().len(),
                forall|j: int| 0 <= j < entries@.len() ==> *(#[trigger] entries@[j]).0 == self.countries.key_seq()[j],
                k <= entries@.len(),
                listed@.len() == codes@.len(),
                forall|t: int| 0 <= t < codes@.len() ==> #[trigger] codes@[t]@ == listed@[t].key_model(),
                distinct_models(listed@),
                forall|m: Seq<u32>| listed_models(listed@).contains(m) <==> (exists|j: int|
                    0 <= j < i && self.available_countries.models()[j] == m) || exists|j: int|
                    0 <= j < k && self.countries.key_seq()[j].key_model() == m,
                chain == self.available_seq() + self.checked_seq(),
                n_available == i,
                values_of(listed@) == codes_once(chain.take(i + k)),
            decreases entries@.len() - k,
        {
            let c = entries[k].0;
            proof {
                assert(chain.take(i + k + 1).drop_last() =~= chain.take(i + k));
                assert(chain.take(i + k + 1).last() == chain[i + k]);
                assert(chain[i + k] == *c);
            }
            add_once(&mut listed, &mut codes, c);
            assert forall|m: Seq<u32>| listed_models(listed@).contains(m) <==> (exists|j: int|
                0 <= j < i && self.available_countries.models()[j] == m) || exists|j: int|
                0 <= j < k + 1 && self.countries.key_seq()[j].key_model() == m by {
                assert(*entries@[k as int].0 == self.countries.key_seq()[k as int]);
            }
            k = k + 1;
        }
        proof {
            assert(chain.take(i + k) =~= chain);
        }
        let ghost listed_view = listed@;
        let r = sort_by_name(listed);
        proof {
            assert forall|n: Seq<u32>| #[trigger] named_values(values_of(r@), n) == named_values(self.listing_order(), n) by {
                lemma_values_named(r@, n);
                lemma_values_named(listed_view, n);
            }
        }
        proof {
            let l = listed@;
            assert forall|m: Seq<u32>| (exists|j: int| 0 <= j < i && self.available_countries.models()[j] == m)
                == self.available().contains(m) by {
                if self.available().contains(m) {
                    let j = self.available_countries.models().index_of(m);
                    assert(self.available_countries.models()[j] == m);
                }
                if exists|j: int| 0 <= j < i && self.available_countries.models()[j] == m {
                    let j = choose|j: int| 0 <= j < i && self.available_countries.models()[j] == m;
                    self.available_countries.lemma_index(j);
                }
            }
            assert forall|m: Seq<u32>| (exists|j: int| 0 <= j < k && self.countries.key_seq()[j].key_model() == m)
                == self.checks().dom().contains(m) by {
                if exists|j: int| 0 <= j < k && self.countries.key_seq()[j].key_model() == m {
                    let j = choose|j: int| 0 <= j < k && self.countries.key_seq()[j].key_model() == m;
                    assert(self.countries.checks().dom().contains(self.countries.key_seq()[j].key_model()));
                }
                if self.checks().dom().contains(m) {
                    assert(self.countries.checks().dom().contains(m));
                    let j = choose|j: int| 0 <= j < self.countries.key_seq().len() && self.countries.key_seq()[j].key_model() == m;
                    assert(j < k);
                }
            }
            assert(l.no_duplicates()) by {
                assert forall|a: int, b: int| 0 <= a < l.len() && 0 <= b < l.len() && a != b implies l[a] != l[b] by {
                    if a < b {
                        assert(l[a].key_model() != l[b].key_model());
                    } else {
                        assert(l[b].key_model() != l[a].key_model());
                    }
                }
            }
            l.lemma_multiset_has_no_duplicates();
            assert forall|x: &Country| r@.to_multiset().contains(x) implies r@.to_multiset().count(x) == 1 by {}
            r@.lemma_multiset_has_no_duplicates_conv();
            assert forall|m: Seq<u32>| listed_models(r@).contains(m) <==> listed_models(l).contains(m) by {
                if listed_models(r@).contains(m) {
                    let a = choose|a: int| 0 <= a < r@.len() && #[trigger] r@[a].key_model() == m;
                    vstd::seq_lib::to_multiset_contains(r@, r@[a]);
                    vstd::seq_lib::to_multiset_contains(l, r@[a]);
                    let b = choose|b: int| 0 <= b < l.len() && l[b] == r@[a];
                    assert(l[b].key_model() == m);
                }
                if listed_models(l).contains(m) {
                    let b = choose|b: int| 0 <= b < l.len() && #[trigger] l[b].key_model() == m;
                    vstd::seq_lib::to_multiset_contains(l, l[b]);
                    vstd::seq_lib::to_multiset_contains(r@, l[b]);
                    let a = choose|a: int| 0 <= a < r@.len() && r@[a] == l[b];
                    assert(r@[a].key_model() == m);
                }
            }
            assert forall|m: Seq<u32>| listed_models(r@).contains(m) <==> (self.available().contains(m)
                || self.checks().dom().contains(m)) by {
                assert(listed_models(l).contains(m) <==> ((exists|j: int|
                    0 <= j < i && self.available_countries.models()[j] == m) || exists|j: int|
                    0 <= j < k && self.countries.key_seq()[j].key_model() == m));
            }
            assert forall|a: int, b: int| 0 <= a < b < r@.len() implies r@[a].key_model() != r@[b].key_model() by {
                if r@[a].key_model() == r@[b].key_model() {
                    vstd::seq_lib::to_multiset_contains(r@, r@[a]);
                    vstd::seq_lib::to_multiset_contains(l, r@[a]);
                    vstd::seq_lib::to_multiset_contains(r@, r@[b]);
                    vstd::seq_lib::to_multiset_contains(l, r@[b]);
                    let p = choose|p: int| 0 <= p < l.len() && l[p] == r@[a];
                    let q = choose|q: int| 0 <= q < l.len() && l[q] == r@[b];
                    if p != q {
                        if p < q {
                            assert(l[p].key_model() != l[q].key_model());
                        } else {
                            assert(l[q].key_model() != l[p].key_model());
                        }
                    }
                    assert(r@[a] == r@[b]);
                }
            }
        }
        r
    }

    /// Makes a country available; a country seen for the first time is checked.
    pub fn add_available(&mut self, country: Country)
        requires
            old(self).wf(),
        ensures
            final(self).wf(),
            final(self).available() == old(self).available().insert(country.key_model()),
            final(self).checks() == if old(self).checks().dom().contains(country.key_model()) {
                old(self).checks()
            } else {
                old(self).checks().insert(country.key_model(), true)
            },
            final(self).spec_no_countries() == old(self).spec_no_countries(),
            final(self).spec_enabled() == old(self).spec_enabled(),
    {
        self.available_countries.insert_if_absent(country.clone(), ());
        self.countries.add(country);
    }

    /// No country is available any more; the checked states stay.
    pub fn clear_available(&mut self)
        requires
            old(self).wf(),
        ensures
            final(self).wf(),
            final(self).available() == Set::<Seq<u32>>::empty(),
            final(self).checks() == old(self).checks(),
            final(self).spec_no_countries() == old(self).spec_no_countries(),
            final(self).spec_enabled() == old(self).spec_enabled(),
    {
        self.available_countries = OrderedMap::new();
    }

    /// Makes each country available in turn.
    pub fn extend_available(&mut self, countries: &[Country])
        requires
            old(self).wf(),
        ensures
            final(self).wf(),
            forall|m: Seq<u32>| #[trigger] final(self).available().contains(m) <==> (old(
                self,
            ).available().contains(m) || exists|i: int|
                0 <= i < countries@.len() && #[trigger] countries@[i].key_model() == m),
            forall|m: Seq<u32>| #[trigger] final(self).checks().dom().contains(m) <==> (old(
                self,
            ).checks().dom().contains(m) || exists|i: int|
                0 <= i < countries@.len() && #[trigger] countries@[i].key_model() == m),
            forall|m: Seq<u32>| #[trigger] final(self).checks().dom().contains(m) ==> final(self).checks()[m]
                == if old(self).checks().dom().contains(m) {
                old(self).checks()[m]
            } else {
                true
            },
            final(self).spec_no_countries() == old(self).spec_no_countries(),
            final(self).spec_enabled() == old(self).spec_enabled(),
    {
        let mut i: usize = 0;
        while i < countries.len()
            invariant
                i <= countries@.len(),
                self.wf(),
                forall|m: Seq<u32>| #[trigger] self.available().contains(m) <==> (old(
                    self,
                ).available().contains(m) || exists|k: int|
                    0 <= k < i && #[trigger] countries@[k].key_model() == m),
                forall|m: Seq<u32>| #[trigger] self.checks().dom().contains(m) <==> (old(
                    self,
                ).checks().dom().contains(m) || exists|k: int|
                    0 <= k < i && #[trigger] countries@[k].key_model() == m),
                forall|m: Seq<u32>| #[trigger] self.checks().dom().contains(m) ==> self.checks()[m]
                    == if old(self).checks().dom().contains(m) {
                    old(self).checks()[m]
                } else {
                    true
                },
                self.spec_no_countries() == old(self).spec_no_countries(),
                self.spec_enabled() == old(self).spec_enabled(),
            decreases countries@.len() - i,
        {
            let ghost m_i = countries@[i as int].key_model();
            self.add_available(countries[i].clone());
            assert forall|m: Seq<u32>| #[trigger] self.available().contains(m) <==> (old(
                self,
            ).available().contains(m) || exists|k: int|
                0 <= k < i + 1 && #[trigger] countries@[k].key_model() == m) by {
                if m == m_i {
                    assert(countries@[i as int].key_model() == m);
                }
            }
            assert forall|m: Seq<u32>| #[trigger] self.checks().dom().contains(m) <==> (old(
                self,
            ).checks().dom().contains(m) || exists|k: int|
                0 <= k < i + 1 && #[trigger] countries@[k].key_model() == m) by {
                if m == m_i {
                    assert(countries@[i as int].key_model() == m);
                }
            }
            i = i + 1;
        }
    }

    /// Sets the state of a country, adding it when unknown.
    pub fn set_checked(&mut self, country: &Country, checked: bool)
        requires
            old(self).wf(),
        ensures
            final(self).wf(),
            final(self).checks() == old(self).checks().insert(country.key_model(), checked),
            final(self).available() == old(self).available(),
            final(self).spec_no_countries() == old(self).spec_no_countries(),
            final(self).spec_enabled() == old(self).spec_enabled(),
    {
        self.countries.insert(country.clone(), checked);
    }

    pub fn is_checked(&self, country: &Country) -> (r: bool)
        requires
            self.wf(),
        ensures
            r == self.spec_is_checked(country.key_model()),
    {
        self.countries.is_checked(country)
    }

    /// Checks `country_to_check` and unchecks every other known country.
    pub fn check_only(&mut self, country_to_check: &Country)
        requires
            old(self).wf(),
        ensures
            final(self).wf(),
            final(self).checks().dom() == old(self).checks().dom(),
            forall|m: Seq<u32>| #[trigger] final(self).checks().dom().contains(m) ==> final(self).checks()[m]
                == (m == country_to_check.key_model()),
            final(self).available() == old(self).available(),
            final(self).spec_no_countries() == old(self).spec_no_countries(),
            final(self).spec_enabled() == old(self).spec_enabled(),
    {
        self.countries.check_only(country_to_check);
    }

    /// Unchecks `excluded_country` and checks every other known country.
    pub fn check_all_excepted(&mut self, excluded_country: &Country)
        requires
            old(self).wf(),
        ensures
            final(self).wf(),
            final(self).checks().dom() == old(self).checks().dom(),
            forall|m: Seq<u32>| #[trigger] final(self).checks().dom().contains(m) ==> final(self).checks()[m]
                == (m != excluded_country.key_model()),
            final(self).available() == old(self).available(),
            final(self).spec_no_countries() == old(self).spec_no_countries(),
            final(self).spec_enabled() == old(self).spec_enabled(),
    {
        self.countries.uncheck_only(excluded_country);
    }

    pub fn accept_no_country(&self) -> (r: bool)
        ensures
            r == self.spec_no_countries(),
    {
        self.no_countries
    }

    pub fn set_accept_no_country(&mut self, accept: bool)
        requires
            old(self).wf(),
        ensures
            final(self).wf(),
            final(self).spec_no_countries() == accept,
            final(self).available() == old(self).available(),
            final(self).checks() == old(self).checks(),
            final(self).spec_enabled() == old(self).spec_enabled(),
    {
        self.no_countries = accept;
    }

    pub fn is_enabled(&self) -> (r: bool)
        ensures
            r == self.spec_enabled(),
    {
        self.enabled
    }

    pub fn set_enabled(&mut self, enabled: bool)
        requires
            old(self).wf(),
        ensures
            final(self).wf(),
            final(self).spec_enabled() == enabled,
            final(self).available() == old(self).available(),
            final(self).checks() == old(self).checks(),
            final(self).spec_no_countries() == old(self).spec_no_countries(),
    {
        self.enabled = enabled;
    }
}

impl Default for CountryFilter {
    /// No country known, servers without a country accepted, disabled.
    fn default() -> (f: CountryFilter)
        ensures
            f.wf(),
            f.available() == Set::<Seq<u32>>::empty(),
            f.checks() == Map::<Seq<u32>, bool>::empty(),
            f.spec_no_countries(),
            !f.spec_enabled(),
    {
        CountryFilter {
            available_countries: OrderedMap::new(),
            countries: FilterDictionary::new(),
            no_countries: true,
            enabled: false,
        }
    }
}

} // verus!
