use vstd::prelude::*;

use crate::names::{compare_names, lemma_name_order, name_lt, NameOrder};
use crate::proxies::{same_proxy, Proxy};

verus! {

/// A proxy as a proxy provider lists it: its name and the proxy itself.
#[derive(Debug, PartialEq, Eq)]
pub struct ProviderProxy {
    pub name: String,
    pub proxy: Proxy,
}

/// One proxy provider (a subscription) and the proxies it offers, in its own order.
#[derive(Debug, PartialEq, Eq)]
pub struct ProxyProvider {
    pub proxies: Vec<ProviderProxy>,
}

impl Clone for ProviderProxy {
    fn clone(&self) -> (r: Self)
        ensures
            r.name == self.name,
            same_proxy(r.proxy, self.proxy),
    {
        ProviderProxy { name: self.name.clone(), proxy: self.proxy.clone() }
    }
}

/// Two providers offer the same proxies in the same order.
pub open spec fn same_provider(a: ProxyProvider, b: ProxyProvider) -> bool {
    &&& a.proxies@.len() == b.proxies@.len()
    &&& forall|i: int|
        0 <= i < a.proxies@.len() ==> (#[trigger] a.proxies@[i]).name == b.proxies@[i].name
            && same_proxy(a.proxies@[i].proxy, b.proxies@[i].proxy)
}

impl Clone for ProxyProvider {
    fn clone(&self) -> (r: Self)
        ensures
            same_provider(r, *self),
    {
        let mut proxies: Vec<ProviderProxy> = Vec::new();
        let mut i: usize = 0;
        while i < self.proxies.len()
            invariant
                i <= self.proxies@.len(),
                proxies@.len() == i,
                forall|j: int|
                    0 <= j < i ==> (#[trigger] proxies@[j]).name == self.proxies@[j].name
                        && same_proxy(proxies@[j].proxy, self.proxies@[j].proxy),
            decreases self.proxies@.len() - i,
        {
            proxies.push(self.proxies[i].clone());
            i = i + 1;
        }
        ProxyProvider { proxies }
    }
}

/// Names strictly increase along the list.
pub open spec fn names_increasing(s: Seq<(String, ProxyProvider)>) -> bool {
    forall|i: int, j: int| 0 <= i < j < s.len() ==> name_lt(s[i].0@, s[j].0@)
}

/// The proxy providers by name, kept in increasing name order so that a walk through them
/// always meets them in the same order.
#[derive(Debug, PartialEq, Eq)]
pub struct ProxyProviders {
    entries: Vec<(String, ProxyProvider)>,
}

/// The proxies of a list of providers, one provider after the other.
pub open spec fn flatten(s: Seq<(String, ProxyProvider)>) -> Seq<ProviderProxy>
    decreases s.len(),
{
    if s.len() == 0 {
        Seq::empty()
    } else {
        flatten(s.drop_last()) + s.last().1.proxies@
    }
}

impl ProxyProviders {
    #[verifier::type_invariant]
    spec fn inv(self) -> bool {
        names_increasing(self.entries@)
    }

    /// The providers in increasing name order.
    pub closed spec fn entry_seq(&self) -> Seq<(String, ProxyProvider)> {
        self.entries@
    }

    /// All proxies of all providers: provider by provider in name order, each provider's
    /// proxies in its own order.
    pub open spec fn all_proxies(&self) -> Seq<ProviderProxy> {
        flatten(self.entry_seq())
    }

    /// No providers.
    pub fn new() -> (r: Self)
        ensures
            r.entry_seq() == Seq::<(String, ProxyProvider)>::empty(),
    {
        ProxyProviders { entries: Vec::new() }
    }

    pub fn len(&self) -> (r: usize)
        ensures
            r == self.entry_seq().len(),
    {
        self.entries.len()
    }

    /// The providers in increasing name order.
    pub fn entries(&self) -> (r: &[(String, ProxyProvider)])
        ensures
            r@ == self.entry_seq(),
            names_increasing(r@),
    {
        proof {
            use_type_invariant(self);
        }
        self.entries.as_slice()
    }

    /// Sets the provider of that name and gives back the one it replaces; the providers
    /// stay in increasing name order.
    pub fn insert(&mut self, name: String, provider: ProxyProvider) -> (r: Option<ProxyProvider>)
        ensures
            names_increasing(final(self).entry_seq()),
            match r {
                Some(p) => exists|i: int|
                    #![trigger old(self).entry_seq()[i]]
                    0 <= i < old(self).entry_seq().len() && old(self).entry_seq()[i].0@ == name@
                        && p == old(self).entry_seq()[i].1 && final(self).entry_seq() == old(
                        self,
                    ).entry_seq().update(i, (old(self).entry_seq()[i].0, provider)),
                None => exists|i: int|
                    #![trigger old(self).entry_seq().insert(i, (name, provider))]
                    0 <= i <= old(self).entry_seq().len() && (forall|j: int|
                        0 <= j < old(self).entry_seq().len() ==> old(self).entry_seq()[j].0@
                            != name@) && final(self).entry_seq() == old(self).entry_seq().insert(
                        i,
                        (name, provider),
                    ),
            },
    {
        proof {
            use_type_invariant(&*self);
        }
        let mut entries: Vec<(String, ProxyProvider)> = Vec::new();
        std::mem::swap(&mut entries, &mut self.entries);
        let ghost old_entries = entries@;
        // find the first entry whose name is not smaller than `name`
        let mut i: usize = 0;
        let mut found = false;
        while i < entries.len()
            invariant_except_break
                !found,
            invariant
                entries@ == old_entries,
                names_increasing(old_entries),
                i <= entries@.len(),
                forall|j: int| 0 <= j < i ==> name_lt(#[trigger] old_entries[j].0@, name@),
            ensures
                found ==> i < entries@.len() && entries@[i as int].0@ == name@,
                !found ==> i == entries@.len() || name_lt(name@, entries@[i as int].0@),
            decreases entries@.len() - i,
        {
            match compare_names(entries[i].0.as_str(), name.as_str()) {
                NameOrder::Less => {
                    i = i + 1;
                },
                NameOrder::Equal => {
                    found = true;
                    break ;
                },
                NameOrder::Greater => {
                    break ;
                },
            }
        }
        if found {
            let (old_name, old_provider) = entries.remove(i);
            entries.insert(i, (old_name, provider));
            proof {
                assert(entries@ =~= old_entries.update(
                    i as int,
                    (old_entries[i as int].0, provider),
                ));
                assert forall|a: int, b: int| 0 <= a < b < entries@.len() implies name_lt(
                    entries@[a].0@,
                    entries@[b].0@,
                ) by {
                    assert(entries@[a].0 == old_entries[a].0);
                    assert(entries@[b].0 == old_entries[b].0);
                }
            }
            self.entries = entries;
            assert(old(self).entry_seq() == old_entries);
            assert(final(self).entry_seq() == self.entries@);
            assert(old(self).entry_seq()[i as int] == old_entries[i as int]);
            assert(0 <= i < old_entries.len() && old_entries[i as int].0@ == name@
                && old_provider == old_entries[i as int].1 && self.entries@ == old_entries.update(
                i as int,
                (old_entries[i as int].0, provider),
            ));
            Some(old_provider)
        } else {
            proof {
                assert forall|j: int| 0 <= j < old_entries.len() implies old_entries[j].0@
                    != name@ by {
                    lemma_name_order(old_entries[j].0@, name@, name@);
                    if j >= i {
                        lemma_name_order(name@, old_entries[i as int].0@, old_entries[j].0@);
                        lemma_name_order(old_entries[j].0@, name@, old_entries[i as int].0@);
                    }
                }
            }
            entries.insert(i, (name, provider));
            proof {
                let s = entries@;
                assert(s =~= old_entries.insert(i as int, s[i as int]));
                assert forall|a: int, b: int| 0 <= a < b < s.len() implies name_lt(
                    s[a].0@,
                    s[b].0@,
                ) by {
                    if b < i {
                        assert(s[a] == old_entries[a] && s[b] == old_entries[b]);
                    } else if b == i {
                        assert(s[a] == old_entries[a]);
                    } else if a == i {
                        assert(s[b] == old_entries[b - 1]);
                        if b - 1 > i {
                            lemma_name_order(
                                name@,
                                old_entries[i as int].0@,
                                old_entries[b - 1].0@,
                            );
                        }
                    } else if a < i {
                        assert(s[a] == old_entries[a] && s[b] == old_entries[b - 1]);
                    } else {
                        assert(s[a] == old_entries[a - 1] && s[b] == old_entries[b - 1]);
                    }
                }
            }
            self.entries = entries;
            assert(old(self).entry_seq() == old_entries);
            assert(self.entries@ == old(self).entry_seq().insert(i as int, (name, provider)));
            None
        }
    }

    /// All proxies of all providers, provider by provider in name order.
    pub fn into_all_proxies(self) -> (r: Vec<ProviderProxy>)
        ensures
            r@ == self.all_proxies(),
    {
        let ProxyProviders { entries } = self;
        let ghost es = entries@;
        let mut r: Vec<ProviderProxy> = Vec::new();
        let mut rest = entries;
        let mut n: usize = 0;
        assert(es.len() == rest.len());
        while rest.len() > 0
            invariant
                es.len() <= usize::MAX,
                n + rest@.len() == es.len(),
                rest@ == es.skip(n as int),
                r@ == flatten(es.take(n as int)),
            decreases rest@.len(),
        {
            let (_, mut provider) = rest.remove(0);
            proof {
                assert(es.take(n + 1).drop_last() =~= es.take(n as int));
                assert(es.take(n + 1).last() == es[n as int]);
                assert(rest@ =~= es.skip(n + 1));
            }
            r.append(&mut provider.proxies);
            n = n + 1;
        }
        assert(es.take(es.len() as int) =~= es);
        r
    }
}

/// Two provider lists that hold the same providers offer the same proxies.
pub proof fn lemma_flatten_same(a: Seq<(String, ProxyProvider)>, b: Seq<(String, ProxyProvider)>)
    requires
        a.len() == b.len(),
        forall|i: int| 0 <= i < a.len() ==> same_provider(#[trigger] a[i].1, b[i].1),
    ensures
        flatten(a).len() == flatten(b).len(),
        forall|i: int|
            0 <= i < flatten(a).len() ==> (#[trigger] flatten(a)[i]).name == flatten(b)[i].name
                && same_proxy(flatten(a)[i].proxy, flatten(b)[i].proxy),
    decreases a.len(),
{
    if a.len() > 0 {
        assert forall|i: int| 0 <= i < a.drop_last().len() implies same_provider(
            #[trigger] a.drop_last()[i].1,
            b.drop_last()[i].1,
        ) by {
            assert(a.drop_last()[i] == a[i] && b.drop_last()[i] == b[i]);
        }
        lemma_flatten_same(a.drop_last(), b.drop_last());
        assert(same_provider(a[a.len() - 1].1, b[b.len() - 1].1));
        let fa = flatten(a.drop_last());
        let fb = flatten(b.drop_last());
        let pa = a.last().1.proxies@;
        let pb = b.last().1.proxies@;
        assert forall|i: int| 0 <= i < flatten(a).len() implies (#[trigger] flatten(a)[i]).name
            == flatten(b)[i].name && same_proxy(flatten(a)[i].proxy, flatten(b)[i].proxy) by {
            if i < fa.len() {
                assert(flatten(a)[i] == fa[i] && flatten(b)[i] == fb[i]);
            } else {
                assert(flatten(a)[i] == pa[i - fa.len()] && flatten(b)[i] == pb[i - fa.len()]);
            }
        }
    }
}

impl Clone for ProxyProviders {
    /// Copies the providers; names and order stay as they are.
    fn clone(&self) -> (r: Self)
        ensures
            r.entry_seq().len() == self.entry_seq().len(),
            forall|i: int|
                0 <= i < self.entry_seq().len() ==> #[trigger] r.entry_seq()[i].0
                    == self.entry_seq()[i].0 && same_provider(r.entry_seq()[i].1, self.entry_seq()[i].1),
            r.all_proxies().len() == self.all_proxies().len(),
            forall|i: int|
                0 <= i < r.all_proxies().len() ==> (#[trigger] r.all_proxies()[i]).name
                    == self.all_proxies()[i].name && same_proxy(
                    r.all_proxies()[i].proxy,
                    self.all_proxies()[i].proxy,
                ),
    {
        proof {
            use_type_invariant(self);
        }
        let mut entries: Vec<(String, ProxyProvider)> = Vec::new();
        let mut i: usize = 0;
        while i < self.entries.len()
            invariant
                i <= self.entries@.len(),
                names_increasing(self.entries@),
                entries@.len() == i,
                forall|j: int|
                    0 <= j < i ==> #[trigger] entries@[j].0 == self.entries@[j].0 && same_provider(
                        entries@[j].1,
                        self.entries@[j].1,
                    ),
            decreases self.entries@.len() - i,
        {
            let name = self.entries[i].0.clone();
            let provider = self.entries[i].1.clone();
            let ghost before = entries@;
            entries.push((name, provider));
            proof {
                assert forall|j: int| 0 <= j < i + 1 implies #[trigger] entries@[j].0
                    == self.entries@[j].0 && same_provider(entries@[j].1, self.entries@[j].1) by {
                    if j < i {
                        assert(entries@[j] == before[j]);
                    }
                }
            }
            i = i + 1;
        }
        let r = ProxyProviders { entries };
        proof {
            assert forall|i: int| 0 <= i < r.entries@.len() implies same_provider(
                #[trigger] r.entries@[i].1,
                self.entries@[i].1,
            ) by {
                assert(r.entries@[i].0 == self.entries@[i].0);
            }
            lemma_flatten_same(r.entries@, self.entries@);
        }
        r
    }
}

impl Default for ProxyProviders {
    fn default() -> (r: Self)
        ensures
            r.entry_seq() == Seq::<(String, ProxyProvider)>::empty(),
    {
        ProxyProviders::new()
    }
}

} // verus!
