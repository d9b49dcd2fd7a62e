use vstd::prelude::*;

use crate::names::same_name;
use crate::providers::{ProviderProxy, ProxyProviders};
use crate::proxy_type::ProxyType;

verus! {

/// One latency measurement of a proxy.
#[derive(Debug, PartialEq, Eq)]
pub struct History {
    /// When the measurement was taken, as the controller wrote it.
    pub time: String,
    pub delay: u64,
}

/// A proxy, a proxy group or a built-in outbound.
#[derive(Debug, PartialEq, Eq)]
pub struct Proxy {
    pub proxy_type: ProxyType,
    pub history: Vec<History>,
    pub udp: Option<bool>,
    /// Only present in proxy groups: the names of the members.
    pub all: Option<Vec<String>>,
    /// Only present in proxy groups: the member in use.
    pub now: Option<String>,
}

impl Clone for History {
    fn clone(&self) -> (r: Self)
        ensures
            r == *self,
    {
        History { time: self.time.clone(), delay: self.delay }
    }
}

/// Two proxies hold the same values.
pub open spec fn same_proxy(a: Proxy, b: Proxy) -> bool {
    &&& a.proxy_type == b.proxy_type
    &&& a.history@ == b.history@
    &&& a.udp == b.udp
    &&& match (a.all, b.all) {
        (Some(x), Some(y)) => x@ == y@,
        (None, None) => true,
        _ => false,
    }
    &&& a.now == b.now
}

/// A copy of a list of names.
pub fn clone_names(v: &Vec<String>) -> (r: Vec<String>)
    ensures
        r@ == v@,
{
    let mut r: Vec<String> = Vec::new();
    let mut i: usize = 0;
    while i < v.len()
        invariant
            i <= v@.len(),
            r@ == v@.take(i as int),
        decreases v@.len() - i,
    {
        r.push(v[i].clone());
        assert(r@ =~= v@.take(i + 1));
        i = i + 1;
    }
    assert(v@.take(v@.len() as int) =~= v@);
    r
}

impl Clone for Proxy {
    fn clone(&self) -> (r: Self)
        ensures
            same_proxy(r, *self),
    {
        let mut history: Vec<History> = Vec::new();
        let mut i: usize = 0;
        while i < self.history.len()
            invariant
                i <= self.history@.len(),
                history@ == self.history@.take(i as int),
            decreases self.history@.len() - i,
        {
            history.push(self.history[i].clone());
            assert(history@ =~= self.history@.take(i + 1));
            i = i + 1;
        }
        assert(self.history@.take(self.history@.len() as int) =~= self.history@);
        let all = match &self.all {
            Some(v) => Some(clone_names(v)),
            None => None,
        };
        let now = match &self.now {
            Some(n) => Some(n.clone()),
            None => None,
        };
        Proxy { proxy_type: self.proxy_type, history, udp: self.udp, all, now }
    }
}

/// The map that an association list stands for; a later entry wins over an earlier one.
pub open spec fn entries_map(s: Seq<(String, Proxy)>) -> Map<Seq<char>, Proxy>
    decreases s.len(),
{
    if s.len() == 0 {
        Map::empty()
    } else {
        entries_map(s.drop_last()).insert(s.last().0@, s.last().1)
    }
}

/// No name occurs twice.
pub open spec fn names_distinct(s: Seq<(String, Proxy)>) -> bool {
    forall|i: int, j: int| 0 <= i < j < s.len() ==> s[i].0@ != s[j].0@
}

/// Whether some entry carries the name `k`.
pub open spec fn has_name(s: Seq<(String, Proxy)>, k: Seq<char>) -> bool {
    exists|i: int| 0 <= i < s.len() && #[trigger] s[i].0@ == k
}

/// What an association list with distinct names maps each name to.
pub proof fn lemma_entries_map(s: Seq<(String, Proxy)>)
    requires
        names_distinct(s),
    ensures
        forall|k: Seq<char>| #[trigger] entries_map(s).contains_key(k) <==> has_name(s, k),
        forall|i: int| 0 <= i < s.len() ==> #[trigger] entries_map(s)[s[i].0@] == s[i].1,
    decreases s.len(),
{
    if s.len() > 0 {
        let t = s.drop_last();
        let last = s.last();
        assert(names_distinct(t)) by {
            assert forall|i: int, j: int| 0 <= i < j < t.len() implies t[i].0@ != t[j].0@ by {
                assert(t[i] == s[i]);
                assert(t[j] == s[j]);
            }
        }
        lemma_entries_map(t);
        assert forall|k: Seq<char>| #[trigger] entries_map(s).contains_key(k) <==> has_name(s, k) by {
            assert(entries_map(s) == entries_map(t).insert(last.0@, last.1));
            if has_name(s, k) {
                let i = choose|i: int| 0 <= i < s.len() && #[trigger] s[i].0@ == k;
                if i < s.len() - 1 {
                    assert(t[i] == s[i]);
                    assert(has_name(t, k));
                }
            }
            if entries_map(t).contains_key(k) {
                assert(has_name(t, k));
                let i = choose|i: int| 0 <= i < t.len() && #[trigger] t[i].0@ == k;
                assert(t[i] == s[i]);
            }
            if k == last.0@ {
                assert(s[s.len() - 1].0@ == k);
            }
        }
        assert forall|i: int| 0 <= i < s.len() implies #[trigger] entries_map(s)[s[i].0@]
            == s[i].1 by {
            assert(entries_map(s) == entries_map(t).insert(last.0@, last.1));
            if i < s.len() - 1 {
                assert(t[i] == s[i]);
                assert(s[i].0@ != s[s.len() - 1].0@);
                assert(entries_map(t)[t[i].0@] == t[i].1);
            }
        }
    }
}

/// No earlier proxy in `s` has the name of `s[i]`.
pub open spec fn first_of_its_name(s: Seq<ProviderProxy>, i: int) -> bool {
    forall|j: int| 0 <= j < i ==> #[trigger] s[j].name@ != s[i].name@
}

/// Some proxy in `s` has the name `k`.
pub open spec fn offers_name(s: Seq<ProviderProxy>, k: Seq<char>) -> bool {
    exists|j: int| 0 <= j < s.len() && #[trigger] s[j].name@ == k
}

/// The entries that merging the provider proxies `flat` into the proxies `known` adds, in
/// order: each provider proxy whose name is neither known nor offered earlier in `flat`.
pub open spec fn added_entries(known: Map<Seq<char>, Proxy>, flat: Seq<ProviderProxy>) -> Seq<
    (String, Proxy),
>
    decreases flat.len(),
{
    if flat.len() == 0 {
        Seq::empty()
    } else {
        let prev = added_entries(known, flat.drop_last());
        let p = flat.last();
        if known.contains_key(p.name@) || has_name(prev, p.name@) {
            prev
        } else {
            prev.push((p.name, p.proxy))
        }
    }
}

/// A name occurs in two lists one after the other exactly when it occurs in one of them.
proof fn lemma_has_name_concat(a: Seq<(String, Proxy)>, b: Seq<(String, Proxy)>, k: Seq<char>)
    ensures
        has_name(a + b, k) <==> has_name(a, k) || has_name(b, k),
{
    let s = a + b;
    if has_name(s, k) {
        let j = choose|j: int| 0 <= j < s.len() && #[trigger] s[j].0@ == k;
        if j < a.len() {
            assert(a[j] == s[j]);
        } else {
            assert(b[j - a.len()] == s[j]);
        }
    }
    if has_name(a, k) {
        let j = choose|j: int| 0 <= j < a.len() && #[trigger] a[j].0@ == k;
        assert(s[j] == a[j]);
    }
    if has_name(b, k) {
        let j = choose|j: int| 0 <= j < b.len() && #[trigger] b[j].0@ == k;
        assert(s[a.len() + j] == b[j]);
    }
}

/// Every added entry is one of the provider proxies, and none has a known name.
pub proof fn lemma_added_from(known: Map<Seq<char>, Proxy>, flat: Seq<ProviderProxy>)
    ensures
        forall|i: int|
            0 <= i < added_entries(known, flat).len() ==> exists|j: int|
                0 <= j < flat.len() && #[trigger] added_entries(known, flat)[i] == (
                    flat[j].name,
                    flat[j].proxy,
                ),
        forall|i: int|
            0 <= i < added_entries(known, flat).len() ==> !known.contains_key(
                (#[trigger] added_entries(known, flat)[i]).0@,
            ),
    decreases flat.len(),
{
    if flat.len() > 0 {
        let t = flat.drop_last();
        lemma_added_from(known, t);
        let prev = added_entries(known, t);
        let cur = added_entries(known, flat);
        assert forall|i: int| 0 <= i < cur.len() implies exists|j: int|
            0 <= j < flat.len() && #[trigger] cur[i] == (flat[j].name, flat[j].proxy) by {
            if i < prev.len() {
                assert(cur[i] == prev[i]);
                let j = choose|j: int| 0 <= j < t.len() && prev[i] == (t[j].name, t[j].proxy);
                assert(t[j] == flat[j]);
            } else {
                assert(cur[i] == (flat[flat.len() - 1].name, flat[flat.len() - 1].proxy));
            }
        }
        assert forall|i: int| 0 <= i < cur.len() implies !known.contains_key(
            (#[trigger] cur[i]).0@,
        ) by {
            if i < prev.len() {
                assert(cur[i] == prev[i]);
            }
        }
    }
}

/// Merging the same provider proxies a second time adds nothing: after a merge every name
/// they offer is known, and provider proxies with those names add no entry.
pub proof fn lemma_merge_again(
    known: Map<Seq<char>, Proxy>,
    flat: Seq<ProviderProxy>,
    again: Seq<ProviderProxy>,
)
    requires
        forall|k: Seq<char>| offers_name(flat, k) ==> #[trigger] known.contains_key(k),
        again.len() == flat.len(),
        forall|i: int| 0 <= i < flat.len() ==> (#[trigger] again[i]).name@ == flat[i].name@,
    ensures
        added_entries(known, again) == Seq::<(String, Proxy)>::empty(),
{
    assert forall|i: int| 0 <= i < again.len() implies known.contains_key(
        #[trigger] again[i].name@,
    ) by {
        assert(flat[i].name@ == again[i].name@);
        assert(offers_name(flat, again[i].name@));
    }
    lemma_nothing_added(known, again);
}

/// Merging provider proxies whose names are all known adds nothing.
pub proof fn lemma_nothing_added(known: Map<Seq<char>, Proxy>, flat: Seq<ProviderProxy>)
    requires
        forall|i: int| 0 <= i < flat.len() ==> known.contains_key(#[trigger] flat[i].name@),
    ensures
        added_entries(known, flat) == Seq::<(String, Proxy)>::empty(),
    decreases flat.len(),
{
    if flat.len() > 0 {
        assert forall|i: int| 0 <= i < flat.drop_last().len() implies known.contains_key(
            #[trigger] flat.drop_last()[i].name@,
        ) by {
            assert(flat.drop_last()[i] == flat[i]);
        }
        lemma_nothing_added(known, flat.drop_last());
        assert(known.contains_key(flat[flat.len() - 1].name@));
    }
}

/// The proxies that the controller knows, by name. No name occurs twice; entries keep the
/// order in which they were added.
#[derive(Debug, PartialEq, Eq)]
pub struct Proxies {
    entries: Vec<(String, Proxy)>,
}

/// Which proxies a listing keeps.
#[derive(Debug, Clone, Copy, PartialEq, Eq, Structural)]
pub enum ProxyKind {
    Normal,
    Group,
    Selector,
    BuiltIn,
}

impl ProxyKind {
    pub open spec fn holds(self, t: ProxyType) -> bool {
        match self {
            ProxyKind::Normal => t.spec_is_normal(),
            ProxyKind::Group => t.spec_is_group(),
            ProxyKind::Selector => t.spec_is_selector(),
            ProxyKind::BuiltIn => t.spec_is_built_in(),
        }
    }

    pub open spec fn entry_pred(self) -> spec_fn((String, Proxy)) -> bool {
        |e: (String, Proxy)| self.holds(e.1.proxy_type)
    }

    fn test(self, t: &ProxyType) -> (r: bool)
        ensures
            r == self.holds(*t),
    {
        match self {
            ProxyKind::Normal => t.is_normal(),
            ProxyKind::Group => t.is_group(),
            ProxyKind::Selector => t.is_selector(),
            ProxyKind::BuiltIn => t.is_built_in(),
        }
    }
}

/// A listing of entries, seen as the entries themselves.
pub open spec fn listed(r: Seq<(&String, &Proxy)>) -> Seq<(String, Proxy)> {
    r.map_values(|p: (&String, &Proxy)| (*p.0, *p.1))
}

impl Clone for Proxies {
    /// Copies the entries; each name is kept as it is.
    fn clone(&self) -> (r: Self)
        ensures
            r.entry_seq().len() == self.entry_seq().len(),
            forall|i: int|
                0 <= i < self.entry_seq().len() ==> #[trigger] r.entry_seq()[i].0
                    == self.entry_seq()[i].0 && same_proxy(r.entry_seq()[i].1, self.entry_seq()[i].1),
    {
        proof {
            use_type_invariant(self);
        }
        let mut entries: Vec<(String, Proxy)> = Vec::new();
        let mut i: usize = 0;
        while i < self.entries.len()
            invariant
                i <= self.entries@.len(),
                names_distinct(self.entries@),
                entries@.len() == i,
                forall|j: int|
                    0 <= j < i ==> #[trigger] entries@[j].0 == self.entries@[j].0 && same_proxy(
                        entries@[j].1,
                        self.entries@[j].1,
                    ),
            decreases self.entries@.len() - i,
        {
            let name = self.entries[i].0.clone();
            let proxy = self.entries[i].1.clone();
            let ghost before = entries@;
            entries.push((name, proxy));
            proof {
                assert forall|j: int| 0 <= j < i + 1 implies #[trigger] entries@[j].0
                    == self.entries@[j].0 && same_proxy(entries@[j].1, self.entries@[j].1) by {
                    if j < i {
                        assert(entries@[j] == before[j]);
                    }
                }
            }
            i = i + 1;
        }
        Proxies { entries }
    }
}

impl Default for Proxies {
    fn default() -> (r: Self)
        ensures
            r.entry_seq() == Seq::<(String, Proxy)>::empty(),
            r@ == Map::<Seq<char>, Proxy>::empty(),
    {
        Proxies::new()
    }
}

impl View for Proxies {
    type V = Map<Seq<char>, Proxy>;

    open spec fn view(&self) -> Map<Seq<char>, Proxy> {
        entries_map(self.entry_seq())
    }
}

impl Proxies {
    #[verifier::type_invariant]
    spec fn inv(self) -> bool {
        names_distinct(self.entries@)
    }

    /// The entries in the order in which they were added.
    pub closed spec fn entry_seq(&self) -> Seq<(String, Proxy)> {
        self.entries@
    }

    pub fn new() -> (r: Self)
        ensures
            r.entry_seq() == Seq::<(String, Proxy)>::empty(),
            r@ == Map::<Seq<char>, Proxy>::empty(),
    {
        Proxies { entries: Vec::new() }
    }

    /// Position of the entry named `name`, if there is one.
    fn position(entries: &Vec<(String, Proxy)>, name: &str) -> (r: Option<usize>)
        ensures
            match r {
                Some(i) => i < entries@.len() && entries@[i as int].0@ == name@,
                None => !has_name(entries@, name@),
            },
    {
        let mut i: usize = 0;
        while i < entries.len()
            invariant
                i <= entries@.len(),
                forall|j: int| 0 <= j < i ==> entries@[j].0@ != name@,
            decreases entries@.len() - i,
        {
            if same_name(entries[i].0.as_str(), name) {
                return Some(i);
            }
            i = i + 1;
        }
        None
    }

    /// Number of proxies.
    pub fn len(&self) -> (r: usize)
        ensures
            r == self.entry_seq().len(),
    {
        self.entries.len()
    }

    pub fn is_empty(&self) -> (r: bool)
        ensures
            r == (self.entry_seq().len() == 0),
    {
        self.entries.len() == 0
    }

    /// All entries, in the order in which they were added.
    pub fn entries(&self) -> (r: &[(String, Proxy)])
        ensures
            r@ == self.entry_seq(),
            names_distinct(r@),
    {
        proof {
            use_type_invariant(self);
        }
        self.entries.as_slice()
    }

    /// Whether a proxy of that name is known.
    pub fn contains_key(&self, name: &str) -> (r: bool)
        ensures
            r == self@.contains_key(name@),
    {
        proof {
            use_type_invariant(self);
            lemma_entries_map(self.entries@);
        }
        Self::position(&self.entries, name).is_some()
    }

    /// The proxy of that name.
    pub fn get(&self, name: &str) -> (r: Option<&Proxy>)
        ensures
            r.is_some() == self@.contains_key(name@),
            r matches Some(p) ==> *p == self@[name@],
    {
        proof {
            use_type_invariant(self);
            lemma_entries_map(self.entries@);
        }
        match Self::position(&self.entries, name) {
            Some(i) => Some(&self.entries[i].1),
            None => None,
        }
    }

    /// Sets the proxy of that name, and gives back the one it replaces. A new name goes
    /// after all others.
    pub fn insert(&mut self, name: String, proxy: Proxy) -> (r: Option<Proxy>)
        ensures
            final(self)@ == old(self)@.insert(name@, proxy),
            r.is_some() == old(self)@.contains_key(name@),
            r matches Some(p) ==> p == old(self)@[name@],
            old(self)@.contains_key(name@) ==> final(self).entry_seq().len() == old(
                self,
            ).entry_seq().len(),
            !old(self)@.contains_key(name@) ==> final(self).entry_seq() == old(
                self,
            ).entry_seq().push((name, proxy)),
    {
        proof {
            use_type_invariant(&*self);
            lemma_entries_map(self.entries@);
        }
        let mut entries: Vec<(String, Proxy)> = Vec::new();
        std::mem::swap(&mut entries, &mut self.entries);
        let ghost old_entries = entries@;
        match Self::position(&entries, name.as_str()) {
            Some(i) => {
                let (old_name, old_proxy) = entries.remove(i);
                entries.insert(i, (old_name, proxy));
                proof {
                    let s = entries@;
                    assert(s =~= old_entries.update(i as int, (old_entries[i as int].0, proxy)));
                    assert(names_distinct(s)) by {
                        assert forall|a: int, b: int| 0 <= a < b < s.len() implies s[a].0@
                            != s[b].0@ by {
                            assert(s[a].0 == old_entries[a].0);
                            assert(s[b].0 == old_entries[b].0);
                        }
                    }
                    lemma_entries_map(s);
                    lemma_entries_map(old_entries);
                    assert(entries_map(s) =~= entries_map(old_entries).insert(name@, proxy)) by {
                        assert forall|k: Seq<char>| #[trigger]
                            entries_map(s).contains_key(k) implies entries_map(s)[k]
                            == entries_map(old_entries).insert(name@, proxy)[k] by {
                            let j = choose|j: int| 0 <= j < s.len() && #[trigger] s[j].0@ == k;
                            assert(old_entries[j].0@ == k);
                        }
                        assert forall|k: Seq<char>|
                            #[trigger] entries_map(old_entries).insert(
                                name@,
                                proxy,
                            ).contains_key(k) implies entries_map(s).contains_key(k) by {
                            if k != name@ {
                                let j = choose|j: int|
                                    0 <= j < old_entries.len() && #[trigger] old_entries[j].0@
                                        == k;
                                assert(s[j].0@ == k);
                            } else {
                                assert(s[i as int].0@ == k);
                            }
                        }
                    }
                }
                self.entries = entries;
                Some(old_proxy)
            },
            None => {
                entries.push((name, proxy));
                proof {
                    let s = entries@;
                    assert(s.drop_last() =~= old_entries);
                    assert(names_distinct(s)) by {
                        assert forall|a: int, b: int| 0 <= a < b < s.len() implies s[a].0@
                            != s[b].0@ by {
                            if b == s.len() - 1 {
                                assert(old_entries[a].0@ == s[a].0@);
                            } else {
                                assert(old_entries[a] == s[a]);
                                assert(old_entries[b] == s[b]);
                            }
                        }
                    }
                }
                self.entries = entries;
                None
            },
        }
    }

    /// Adds the proxies that proxy providers offer, without replacing any proxy that is
    /// already known: a name that is known keeps its proxy, and a name that several
    /// providers offer gets the proxy that comes first, providers taken in name order.
    #[verifier::rlimit(40)]
    pub fn merge_proxy_providers(self, proxy_providers: ProxyProviders) -> (r: Self)
        ensures
            forall|k: Seq<char>|
                #[trigger] r@.contains_key(k) <==> self@.contains_key(k) || offers_name(
                    proxy_providers.all_proxies(),
                    k,
                ),
            forall|k: Seq<char>| #[trigger] self@.contains_key(k) ==> r@[k] == self@[k],
            forall|i: int|
                0 <= i < proxy_providers.all_proxies().len() && !self@.contains_key(
                    proxy_providers.all_proxies()[i].name@,
                ) && first_of_its_name(proxy_providers.all_proxies(), i) ==> r@[#[trigger] proxy_providers.all_proxies()[i].name@]
                    == proxy_providers.all_proxies()[i].proxy,
            r.entry_seq().len() >= self.entry_seq().len(),
            r.entry_seq().take(self.entry_seq().len() as int) == self.entry_seq(),
            proxy_providers.all_proxies().len() == 0 ==> r.entry_seq() == self.entry_seq(),
            r.entry_seq() == self.entry_seq() + added_entries(self@, proxy_providers.all_proxies()),
            names_distinct(r.entry_seq()),
            (forall|i: int|
                0 <= i < proxy_providers.all_proxies().len() ==> self@.contains_key(
                    #[trigger] proxy_providers.all_proxies()[i].name@,
                )) ==> r.entry_seq() == self.entry_seq(),
    {
        proof {
            use_type_invariant(&self);
            lemma_entries_map(self.entries@);
        }
        let ghost top = self@;
        let ghost top_entries = self.entries@;
        let ghost flat = proxy_providers.all_proxies();
        let Proxies { mut entries } = self;
        let mut rest = proxy_providers.into_all_proxies();
        let mut n: usize = 0;
        assert(flat.len() == rest.len());
        while rest.len() > 0
            invariant
                flat.len() <= usize::MAX,
                n + rest@.len() == flat.len(),
                rest@ == flat.skip(n as int),
                names_distinct(entries@),
                entries@.len() >= top_entries.len(),
                entries@.take(top_entries.len() as int) == top_entries,
                flat.len() == 0 ==> entries@ == top_entries,
                entries@ == top_entries + added_entries(top, flat.take(n as int)),
                forall|k: Seq<char>| #[trigger] top.contains_key(k) <==> has_name(top_entries, k),
                top == entries_map(top_entries),
                forall|k: Seq<char>|
                    #[trigger] entries_map(entries@).contains_key(k) <==> top.contains_key(k)
                        || offers_name(flat.take(n as int), k),
                forall|k: Seq<char>|
                    #[trigger] top.contains_key(k) ==> entries_map(entries@)[k] == top[k],
                forall|i: int|
                    0 <= i < n && !top.contains_key(flat[i].name@) && first_of_its_name(flat, i)
                        ==> entries_map(entries@)[#[trigger] flat[i].name@] == flat[i].proxy,
            decreases rest@.len(),
        {
            let pp = rest.remove(0);
            let ghost before = entries@;
            let ghost prev = added_entries(top, flat.take(n as int));
            proof {
                assert(pp == flat[n as int]);
                assert(flat.take(n + 1).drop_last() =~= flat.take(n as int));
                assert(flat.take(n + 1).last() == pp);
                lemma_has_name_concat(top_entries, prev, pp.name@);
                lemma_entries_map(before);
                assert forall|k: Seq<char>|
                    offers_name(flat.take(n + 1), k) <==> offers_name(flat.take(n as int), k)
                        || k == pp.name@ by {
                    if offers_name(flat.take(n + 1), k) {
                        let j = choose|j: int|
                            0 <= j < flat.take(n + 1).len() && #[trigger] flat.take(n + 1)[j].name@
                                == k;
                        if j < n {
                            assert(flat.take(n as int)[j] == flat[j]);
                        }
                    }
                    if offers_name(flat.take(n as int), k) {
                        let j = choose|j: int|
                            0 <= j < flat.take(n as int).len() && #[trigger] flat.take(
                                n as int,
                            )[j].name@ == k;
                        assert(flat.take(n + 1)[j] == flat[j]);
                    }
                    if k == pp.name@ {
                        assert(flat.take(n + 1)[n as int] == pp);
                    }
                }
            }
            match Self::position(&entries, pp.name.as_str()) {
                Some(_) => {
                    proof {
                        assert(added_entries(top, flat.take(n + 1)) == prev);
                        let i = n as int;
                        if !top.contains_key(flat[i].name@) && first_of_its_name(flat, i) {
                            assert(entries_map(before).contains_key(pp.name@));
                            assert(offers_name(flat.take(n as int), pp.name@));
                            let j = choose|j: int|
                                0 <= j < flat.take(n as int).len() && #[trigger] flat.take(
                                    n as int,
                                )[j].name@ == pp.name@;
                            assert(flat.take(n as int)[j] == flat[j]);
                            assert(flat[j].name@ != flat[i].name@);
                        }
                    }
                },
                None => {
                    let ProviderProxy { name, proxy } = pp;
                    entries.push((name, proxy));
                    proof {
                        let s = entries@;
                        assert(s =~= top_entries + added_entries(top, flat.take(n + 1)));
                        assert(s.drop_last() =~= before);
                        assert(entries_map(s) == entries_map(before).insert(name@, proxy));
                        assert(!entries_map(before).contains_key(name@));
                        assert(names_distinct(s)) by {
                            assert forall|a: int, b: int| 0 <= a < b < s.len() implies s[a].0@
                                != s[b].0@ by {
                                if b == s.len() - 1 {
                                    assert(before[a] == s[a]);
                                } else {
                                    assert(before[a] == s[a]);
                                    assert(before[b] == s[b]);
                                }
                            }
                        }
                        assert(s.take(top_entries.len() as int) =~= before.take(
                            top_entries.len() as int,
                        ));
                        assert forall|i: int|
                            0 <= i < n + 1 && !top.contains_key(flat[i].name@) && first_of_its_name(
                                flat,
                                i,
                            ) implies entries_map(s)[#[trigger] flat[i].name@] == flat[i].proxy by {
                            if i < n && flat[i].name@ == name@ {
                                assert(flat.take(n as int)[i] == flat[i]);
                                assert(offers_name(flat.take(n as int), name@));
                            }
                        }
                    }
                },
            }
            n = n + 1;
        }
        assert(flat.take(flat.len() as int) =~= flat);
        proof {
            if forall|i: int| 0 <= i < flat.len() ==> top.contains_key(#[trigger] flat[i].name@) {
                lemma_nothing_added(top, flat);
                assert(entries@ =~= top_entries);
            }
        }
        Proxies { entries }
    }

    /// The entries whose kind `kind` accepts, in order.
    fn entries_of_kind(&self, kind: ProxyKind) -> (r: Vec<(&String, &Proxy)>)
        ensures
            listed(r@) == self.entry_seq().filter(kind.entry_pred()),
    {
        let mut r: Vec<(&String, &Proxy)> = Vec::new();
        let mut i: usize = 0;
        while i < self.entries.len()
            invariant
                i <= self.entries@.len(),
                listed(r@) == self.entries@.take(i as int).filter(kind.entry_pred()),
            decreases self.entries@.len() - i,
        {
            let e = &self.entries[i];
            proof {
                reveal_with_fuel(Seq::filter, 1);
                assert(self.entries@.take(i + 1).drop_last() =~= self.entries@.take(i as int));
            }
            if kind.test(&e.1.proxy_type) {
                r.push((&e.0, &e.1));
                assert(listed(r@) =~= self.entries@.take(i as int).filter(kind.entry_pred()).push(
                    *e,
                ));
            }
            i = i + 1;
        }
        assert(self.entries@.take(self.entries@.len() as int) =~= self.entries@);
        r
    }

    /// The regular proxy servers.
    pub fn normal(&self) -> (r: Vec<(&String, &Proxy)>)
        ensures
            listed(r@) == self.entry_seq().filter(ProxyKind::Normal.entry_pred()),
    {
        self.entries_of_kind(ProxyKind::Normal)
    }

    /// The proxy groups.
    pub fn groups(&self) -> (r: Vec<(&String, &Proxy)>)
        ensures
            listed(r@) == self.entry_seq().filter(ProxyKind::Group.entry_pred()),
    {
        self.entries_of_kind(ProxyKind::Group)
    }

    /// The groups whose member is chosen by hand.
    pub fn selectors(&self) -> (r: Vec<(&String, &Proxy)>)
        ensures
            listed(r@) == self.entry_seq().filter(ProxyKind::Selector.entry_pred()),
    {
        self.entries_of_kind(ProxyKind::Selector)
    }

    /// The built-in outbounds.
    pub fn built_ins(&self) -> (r: Vec<(&String, &Proxy)>)
        ensures
            listed(r@) == self.entry_seq().filter(ProxyKind::BuiltIn.entry_pred()),
    {
        self.entries_of_kind(ProxyKind::BuiltIn)
    }
}

/// Every selector is listed among the groups, and a group is listed neither among the
/// regular proxies nor among the built-ins.
pub proof fn lemma_listings(s: Seq<(String, Proxy)>, e: (String, Proxy))
    ensures
        s.filter(ProxyKind::Selector.entry_pred()).contains(e) ==> s.filter(
            ProxyKind::Group.entry_pred(),
        ).contains(e),
        s.filter(ProxyKind::Group.entry_pred()).contains(e) ==> !s.filter(
            ProxyKind::Normal.entry_pred(),
        ).contains(e) && !s.filter(ProxyKind::BuiltIn.entry_pred()).contains(e),
{
    crate::proxy_type::lemma_kinds_disjoint(e.1.proxy_type);
    if s.filter(ProxyKind::Selector.entry_pred()).contains(e) {
        s.lemma_filter_contains_rev(ProxyKind::Selector.entry_pred(), e);
        let i = choose|i: int| 0 <= i < s.len() && s[i] == e;
        s.lemma_filter_contains(ProxyKind::Group.entry_pred(), i);
    }
    if s.filter(ProxyKind::Normal.entry_pred()).contains(e) {
        s.lemma_filter_contains_rev(ProxyKind::Normal.entry_pred(), e);
    }
    if s.filter(ProxyKind::BuiltIn.entry_pred()).contains(e) {
        s.lemma_filter_contains_rev(ProxyKind::BuiltIn.entry_pred(), e);
    }
    if s.filter(ProxyKind::Group.entry_pred()).contains(e) {
        s.lemma_filter_contains_rev(ProxyKind::Group.entry_pred(), e);
    }
}

/// Each listing holds exactly the entries of its kind: `normal` the regular proxies,
/// `groups` the groups, `selectors` the selectors and `built_ins` the built-in outbounds.
pub proof fn lemma_listing_kinds(s: Seq<(String, Proxy)>, e: (String, Proxy))
    ensures
        s.filter(ProxyKind::Normal.entry_pred()).contains(e) <==> s.contains(e)
            && e.1.proxy_type.spec_is_normal(),
        s.filter(ProxyKind::Group.entry_pred()).contains(e) <==> s.contains(e)
            && e.1.proxy_type.spec_is_group(),
        s.filter(ProxyKind::Selector.entry_pred()).contains(e) <==> s.contains(e)
            && e.1.proxy_type.spec_is_selector(),
        s.filter(ProxyKind::BuiltIn.entry_pred()).contains(e) <==> s.contains(e)
            && e.1.proxy_type.spec_is_built_in(),
{
    let kinds = seq![ProxyKind::Normal, ProxyKind::Group, ProxyKind::Selector, ProxyKind::BuiltIn];
    assert forall|k: int| 0 <= k < 4 implies (s.filter((#[trigger] kinds[k]).entry_pred()).contains(
        e,
    ) <==> s.contains(e) && kinds[k].holds(e.1.proxy_type)) by {
        let p = kinds[k].entry_pred();
        if s.filter(p).contains(e) {
            s.lemma_filter_contains_rev(p, e);
            let j = choose|j: int| 0 <= j < s.filter(p).len() && s.filter(p)[j] == e;
            s.lemma_filter_pred(p, j);
        }
        if s.contains(e) && kinds[k].holds(e.1.proxy_type) {
            let i = choose|i: int| 0 <= i < s.len() && s[i] == e;
            s.lemma_filter_contains(p, i);
        }
    }
    assert(kinds[0] == ProxyKind::Normal);
    assert(kinds[1] == ProxyKind::Group);
    assert(kinds[2] == ProxyKind::Selector);
    assert(kinds[3] == ProxyKind::BuiltIn);
}

} // verus!
