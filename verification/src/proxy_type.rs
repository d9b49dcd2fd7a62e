use vstd::prelude::*;

verus! {

/// The kind of a proxy as Clash reports it.
#[derive(Debug, Clone, Copy, PartialEq, Eq, Structural, PartialOrd, Ord, Hash)]
pub enum ProxyType {
    // Built-in types
    Direct,
    Reject,
    // Proxy groups
    Selector,
    URLTest,
    Fallback,
    LoadBalance,
    // Proxies
    Shadowsocks,
    Vmess,
    ShadowsocksR,
    Http,
    Snell,
    Trojan,
    Socks5,
    // Relay
    Relay,
    // Anything the controller does not know
    Unknown,
}

impl ProxyType {
    /// A group whose member can be chosen by hand.
    pub open spec fn spec_is_selector(self) -> bool {
        self is Selector
    }

    /// A group of proxies: selectors, automatic groups and relays.
    pub open spec fn spec_is_group(self) -> bool {
        ||| self is Selector
        ||| self is URLTest
        ||| self is Fallback
        ||| self is LoadBalance
        ||| self is Relay
    }

    /// One of the two built-in outbounds.
    pub open spec fn spec_is_built_in(self) -> bool {
        self is Direct || self is Reject
    }

    /// A regular proxy server.
    pub open spec fn spec_is_normal(self) -> bool {
        ||| self is Shadowsocks
        ||| self is Vmess
        ||| self is ShadowsocksR
        ||| self is Http
        ||| self is Snell
        ||| self is Trojan
        ||| self is Socks5
    }

    pub fn is_selector(&self) -> (r: bool)
        ensures
            r == self.spec_is_selector(),
    {
        matches!(self, ProxyType::Selector)
    }

    pub fn is_group(&self) -> (r: bool)
        ensures
            r == self.spec_is_group(),
    {
        matches!(
            self,
            ProxyType::Selector | ProxyType::URLTest | ProxyType::Fallback | ProxyType::LoadBalance
                | ProxyType::Relay
        )
    }

    pub fn is_built_in(&self) -> (r: bool)
        ensures
            r == self.spec_is_built_in(),
    {
        matches!(self, ProxyType::Direct | ProxyType::Reject)
    }

    pub fn is_normal(&self) -> (r: bool)
        ensures
            r == self.spec_is_normal(),
    {
        matches!(
            self,
            ProxyType::Shadowsocks | ProxyType::Vmess | ProxyType::ShadowsocksR | ProxyType::Http
                | ProxyType::Snell | ProxyType::Trojan | ProxyType::Socks5
        )
    }
}

/// The kinds never overlap: a proxy is at most one of built-in, group and regular proxy,
/// and every selector is a group.
pub proof fn lemma_kinds_disjoint(t: ProxyType)
    ensures
        !(t.spec_is_built_in() && t.spec_is_group()),
        !(t.spec_is_built_in() && t.spec_is_normal()),
        !(t.spec_is_group() && t.spec_is_normal()),
        t.spec_is_selector() ==> t.spec_is_group(),
        t is Unknown ==> !t.spec_is_built_in() && !t.spec_is_group() && !t.spec_is_normal(),
        !(t is Unknown) ==> t.spec_is_built_in() || t.spec_is_group() || t.spec_is_normal(),
{
}

/// Which kind each proxy type belongs to: the groups are exactly selectors, URL tests,
/// fallbacks, load balancers and relays; the regular proxies exactly Shadowsocks, VMess,
/// ShadowsocksR, HTTP, Snell, Trojan and SOCKS5; the built-ins exactly DIRECT and REJECT.
pub proof fn lemma_kind_of_each_type(t: ProxyType)
    ensures
        t.spec_is_group() <==> (t == ProxyType::Selector || t == ProxyType::URLTest || t
            == ProxyType::Fallback || t == ProxyType::LoadBalance || t == ProxyType::Relay),
        t.spec_is_normal() <==> (t == ProxyType::Shadowsocks || t == ProxyType::Vmess || t
            == ProxyType::ShadowsocksR || t == ProxyType::Http || t == ProxyType::Snell || t
            == ProxyType::Trojan || t == ProxyType::Socks5),
        t.spec_is_built_in() <==> (t == ProxyType::Direct || t == ProxyType::Reject),
        t.spec_is_selector() <==> t == ProxyType::Selector,
{
}

} // verus!
