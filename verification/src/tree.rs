use vstd::prelude::*;

use crate::group_order::{sort_groups, stably_sorted};
use crate::names::same_name;
use crate::proxies::{listed, Proxies, Proxy, ProxyKind};
use crate::proxy_type::ProxyType;

verus! {

/// One member of a proxy group, as the proxy tree shows it.
#[derive(Debug, PartialEq, Eq)]
pub struct ProxyItem {
    pub name: String,
    pub proxy_type: ProxyType,
    pub udp: Option<bool>,
    /// The member in use, where the member is itself a group.
    pub now: Option<String>,
}

/// The item that shows the proxy `proxy` under the name `name`.
pub open spec fn item_of(name: String, proxy: Proxy) -> ProxyItem {
    ProxyItem { name, proxy_type: proxy.proxy_type, udp: proxy.udp, now: proxy.now }
}

impl ProxyItem {
    /// The item that shows `proxy` under `name`.
    pub fn from_proxy(name: &String, proxy: &Proxy) -> (r: Self)
        ensures
            r == item_of(*name, *proxy),
    {
        let now = match &proxy.now {
            Some(n) => Some(n.clone()),
            None => None,
        };
        ProxyItem { name: name.clone(), proxy_type: proxy.proxy_type, udp: proxy.udp, now }
    }
}

/// A proxy group with its members, the member under the cursor and the member in use.
#[derive(Debug, PartialEq, Eq)]
pub struct ProxyGroup {
    pub name: String,
    pub proxy_type: ProxyType,
    /// The highlighted member.
    pub cursor: usize,
    /// The member in use, if it is among the members.
    pub current: Option<usize>,
    pub members: Vec<ProxyItem>,
}

impl ProxyGroup {
    /// A group has members, and its cursor and current member point at one of them.
    pub open spec fn wf(self) -> bool {
        &&& self.members@.len() > 0
        &&& self.cursor < self.members@.len()
        &&& (self.current matches Some(c) ==> c < self.members@.len())
    }
}

impl Clone for ProxyItem {
    fn clone(&self) -> (r: Self)
        ensures
            r == *self,
    {
        let now = match &self.now {
            Some(n) => Some(n.clone()),
            None => None,
        };
        ProxyItem { name: self.name.clone(), proxy_type: self.proxy_type, udp: self.udp, now }
    }
}

/// Two groups hold the same values.
pub open spec fn same_group(a: ProxyGroup, b: ProxyGroup) -> bool {
    &&& a.name == b.name
    &&& a.proxy_type == b.proxy_type
    &&& a.cursor == b.cursor
    &&& a.current == b.current
    &&& a.members@ == b.members@
}

impl Clone for ProxyGroup {
    fn clone(&self) -> (r: Self)
        ensures
            same_group(r, *self),
    {
        let mut members: Vec<ProxyItem> = Vec::new();
        let mut i: usize = 0;
        while i < self.members.len()
            invariant
                i <= self.members@.len(),
                members@ == self.members@.take(i as int),
            decreases self.members@.len() - i,
        {
            members.push(self.members[i].clone());
            assert(members@ =~= self.members@.take(i + 1));
            i = i + 1;
        }
        assert(self.members@.take(self.members@.len() as int) =~= self.members@);
        ProxyGroup {
            name: self.name.clone(),
            proxy_type: self.proxy_type,
            cursor: self.cursor,
            current: self.current,
            members,
        }
    }
}

/// The first position of an item named `n`.
pub open spec fn position_of(s: Seq<ProxyItem>, n: Seq<char>) -> Option<int>
    decreases s.len(),
{
    if s.len() == 0 {
        None
    } else {
        match position_of(s.drop_last(), n) {
            Some(p) => Some(p),
            None => if s.last().name@ == n {
                Some(s.len() - 1)
            } else {
                None
            },
        }
    }
}

/// [`position_of`] finds the first item of that name, or says that there is none.
pub proof fn lemma_position_of(s: Seq<ProxyItem>, n: Seq<char>)
    ensures
        match position_of(s, n) {
            Some(p) => 0 <= p < s.len() && s[p].name@ == n && forall|j: int|
                0 <= j < p ==> s[j].name@ != n,
            None => forall|j: int| 0 <= j < s.len() ==> s[j].name@ != n,
        },
    decreases s.len(),
{
    if s.len() > 0 {
        lemma_position_of(s.drop_last(), n);
        assert forall|j: int| 0 <= j < s.len() - 1 implies s.drop_last()[j] == s[j] by {}
    }
}

/// The members of a group whose member list is `all`: each name that `m` knows, in order.
pub open spec fn members_of(all: Seq<String>, m: Map<Seq<char>, Proxy>) -> Seq<ProxyItem>
    decreases all.len(),
{
    if all.len() == 0 {
        Seq::empty()
    } else {
        let rest = members_of(all.drop_last(), m);
        let x = all.last();
        if m.contains_key(x@) {
            rest.push(item_of(x, m[x@]))
        } else {
            rest
        }
    }
}

/// The member in use among `members`: the first one named like the group's `now`.
pub open spec fn current_of(members: Seq<ProxyItem>, now: Option<String>) -> Option<usize> {
    match now {
        Some(n) => match position_of(members, n@) {
            Some(i) => Some(i as usize),
            None => None,
        },
        None => None,
    }
}

/// `g` is the group that the group proxy `p` named `name` becomes among the proxies `m`.
pub open spec fn group_from(g: ProxyGroup, name: String, p: Proxy, m: Map<Seq<char>, Proxy>) -> bool {
    let members = members_of(p.all.unwrap()@, m);
    &&& g.name == name
    &&& g.proxy_type == p.proxy_type
    &&& g.members@ == members
    &&& g.current == current_of(members, p.now)
    &&& g.cursor == match g.current {
        Some(c) => c,
        None => 0usize,
    }
}

/// The group entries that a proxy tree keeps: those with at least one member that `m` knows.
pub open spec fn shown_groups(groups: Seq<(String, Proxy)>, m: Map<Seq<char>, Proxy>) -> Seq<
    (String, Proxy),
> {
    groups.filter(|e: (String, Proxy)| members_of(e.1.all.unwrap()@, m).len() > 0)
}

/// A key as the list of proxies understands it.
#[derive(Debug, Clone, Copy, PartialEq, Eq, Structural)]
pub enum KeyCode {
    Up,
    Down,
    Right,
    Enter,
    Other,
}

/// A key press on the list, with whether it moves fast.
#[derive(Debug, Clone, Copy, PartialEq, Eq, Structural)]
pub struct ListEvent {
    pub fast: bool,
    pub code: KeyCode,
}

/// What the proxy tree asks the controller to do.
#[derive(Debug, Clone, PartialEq, Eq)]
pub enum Action {
    /// Make `proxy` the member in use of the selector `group`.
    ApplySelection { group: String, proxy: String },
    /// Measure the latency of these proxies.
    TestLatency { proxies: Vec<String> },
}

/// A position in a list, with whether it is held.
#[derive(Debug, Clone, Copy, PartialEq, Eq, Structural, Default)]
pub struct Coord {
    pub x: usize,
    pub y: usize,
    pub hold: bool,
}

/// One entry of the footer line.
#[derive(Debug, PartialEq, Eq)]
pub enum FooterItem {
    Free,
    SpaceToExpand,
    TestGroupHelp,
    TestingGroup,
    Move,
    Select,
    TestNodeHelp,
    TestingNode,
    Sort,
    /// The focused group's name.
    GroupName(String),
    /// Plain text: a member's name.
    Text(String),
}

/// The footer line: items on the left and on the right.
#[derive(Debug, PartialEq, Eq)]
pub struct Footer {
    pub left: Vec<FooterItem>,
    pub right: Vec<FooterItem>,
}

impl Clone for FooterItem {
    fn clone(&self) -> (r: Self)
        ensures
            r == *self,
    {
        match self {
            FooterItem::Free => FooterItem::Free,
            FooterItem::SpaceToExpand => FooterItem::SpaceToExpand,
            FooterItem::TestGroupHelp => FooterItem::TestGroupHelp,
            FooterItem::TestingGroup => FooterItem::TestingGroup,
            FooterItem::Move => FooterItem::Move,
            FooterItem::Select => FooterItem::Select,
            FooterItem::TestNodeHelp => FooterItem::TestNodeHelp,
            FooterItem::TestingNode => FooterItem::TestingNode,
            FooterItem::Sort => FooterItem::Sort,
            FooterItem::GroupName(n) => FooterItem::GroupName(n.clone()),
            FooterItem::Text(t) => FooterItem::Text(t.clone()),
        }
    }
}

/// A copy of a list of footer items.
fn clone_items(v: &Vec<FooterItem>) -> (r: Vec<FooterItem>)
    ensures
        r@ == v@,
{
    let mut r: Vec<FooterItem> = Vec::new();
    let mut i: usize = 0;
    while i < v.len()
        invariant
            i <= v@.len(),
            r@ == v@.take(i as int),
        decreases v@.len() - i,
    {
        r.push(v[i].clone());
        assert(r@ =~= v@.take(i + 1));
        i = i + 1;
    }
    assert(v@.take(v@.len() as int) =~= v@);
    r
}

impl Clone for Footer {
    fn clone(&self) -> (r: Self)
        ensures
            r.left@ == self.left@,
            r.right@ == self.right@,
    {
        Footer { left: clone_items(&self.left), right: clone_items(&self.right) }
    }
}

/// The footer of a tree focused on `g`.
pub open spec fn footer_left(expanded: bool, testing: bool, g: ProxyGroup) -> Seq<FooterItem> {
    if !expanded {
        seq![
            FooterItem::Free,
            FooterItem::SpaceToExpand,
            if testing {
                FooterItem::TestingGroup
            } else {
                FooterItem::TestGroupHelp
            },
            FooterItem::Sort,
        ]
    } else {
        seq![FooterItem::Move] + (if g.proxy_type.spec_is_selector() {
            seq![FooterItem::Select]
        } else {
            Seq::empty()
        }) + seq![
            if testing {
                FooterItem::TestingNode
            } else {
                FooterItem::TestNodeHelp
            },
            FooterItem::Sort,
        ]
    }
}

pub open spec fn footer_right(expanded: bool, g: ProxyGroup) -> Seq<FooterItem> {
    if !expanded {
        seq![FooterItem::GroupName(g.name)] + match g.current {
            Some(now) => seq![FooterItem::Text(g.members@[now as int].name)],
            None => Seq::empty(),
        }
    } else {
        match g.members@[g.cursor as int].now {
            Some(now) => seq![FooterItem::Text(now)],
            None => Seq::empty(),
        }
    }
}

/// Names of the regular proxy servers among `s`, in order.
pub open spec fn normal_names(s: Seq<ProxyItem>) -> Seq<String>
    decreases s.len(),
{
    if s.len() == 0 {
        Seq::empty()
    } else {
        normal_names(s.drop_last()) + if s.last().proxy_type.spec_is_normal() {
            seq![s.last().name]
        } else {
            Seq::empty()
        }
    }
}

/// Where a group's cursor goes on a key press while its members are shown.
pub open spec fn moved_member_cursor(g: ProxyGroup, event: ListEvent) -> usize {
    let step: int = if event.fast {
        3
    } else {
        1
    };
    match event.code {
        KeyCode::Up => if g.cursor > step {
            (g.cursor - step) as usize
        } else {
            0usize
        },
        KeyCode::Down => {
            let left: int = g.members@.len() - (g.cursor + 1);
            (g.cursor + if left < step {
                left
            } else {
                step
            }) as usize
        },
        _ => g.cursor,
    }
}

/// Where the focus goes on a key press while no group is expanded.
pub open spec fn moved_group_cursor(cursor: usize, len: nat, code: KeyCode) -> usize {
    match code {
        KeyCode::Up => if cursor > 0 {
            (cursor - 1) as usize
        } else {
            cursor
        },
        KeyCode::Down => if cursor < len - 1 {
            (cursor + 1) as usize
        } else {
            cursor
        },
        _ => cursor,
    }
}

/// The group `g` with its cursor at `c`.
pub open spec fn with_cursor(g: ProxyGroup, c: usize) -> ProxyGroup {
    ProxyGroup { cursor: c, ..g }
}

/// The first position of a group named `n`.
pub open spec fn group_position(s: Seq<ProxyGroup>, n: Seq<char>) -> Option<int>
    decreases s.len(),
{
    if s.len() == 0 {
        None
    } else {
        match group_position(s.drop_last(), n) {
            Some(p) => Some(p),
            None => if s.last().name@ == n {
                Some(s.len() - 1)
            } else {
                None
            },
        }
    }
}

/// [`group_position`] finds the first group of that name, or says that there is none.
pub proof fn lemma_group_position(s: Seq<ProxyGroup>, n: Seq<char>)
    ensures
        match group_position(s, n) {
            Some(p) => 0 <= p < s.len() && s[p].name@ == n && forall|j: int|
                0 <= j < p ==> s[j].name@ != n,
            None => forall|j: int| 0 <= j < s.len() ==> s[j].name@ != n,
        },
    decreases s.len(),
{
    if s.len() > 0 {
        lemma_group_position(s.drop_last(), n);
        assert forall|j: int| 0 <= j < s.len() - 1 implies s.drop_last()[j] == s[j] by {}
    }
}

/// The cursor that the new group `g` gets when it replaces the groups `olds`: where an old
/// group has the same name, the member that the old cursor was on, if `g` still has it, or
/// else the member in use, or else the first member. A group with a new name keeps its own
/// cursor.
pub open spec fn carried_cursor(olds: Seq<ProxyGroup>, g: ProxyGroup) -> usize {
    match group_position(olds, g.name@) {
        Some(k) => {
            let og = olds[k];
            let by_name = if og.cursor < og.members@.len() {
                position_of(g.members@, og.members@[og.cursor as int].name@)
            } else {
                None
            };
            match by_name {
                Some(p) => p as usize,
                None => match g.current {
                    Some(c) => c,
                    None => 0usize,
                },
            }
        },
        None => g.cursor,
    }
}

/// The list of proxy groups, with the focused group, whether its members are shown, and
/// whether a latency test runs.
#[derive(Debug, PartialEq)]
pub struct ProxyTree {
    groups: Vec<ProxyGroup>,
    expanded: bool,
    cursor: usize,
    testing: bool,
    footer: Footer,
}

impl ProxyTree {
    #[verifier::type_invariant]
    spec fn inv(self) -> bool {
        forall|i: int| 0 <= i < self.groups@.len() ==> (#[trigger] self.groups@[i]).wf()
    }

    pub closed spec fn group_seq(&self) -> Seq<ProxyGroup> {
        self.groups@
    }

    pub closed spec fn expanded_spec(&self) -> bool {
        self.expanded
    }

    pub closed spec fn cursor_spec(&self) -> usize {
        self.cursor
    }

    pub closed spec fn testing_spec(&self) -> bool {
        self.testing
    }

    pub closed spec fn footer_spec(&self) -> Footer {
        self.footer
    }

    /// The footer after a refresh: that of the focused group, or the old one when no group
    /// is focused.
    pub open spec fn refreshed_footer(&self) -> (Seq<FooterItem>, Seq<FooterItem>) {
        if self.cursor_spec() < self.group_seq().len() {
            let g = self.group_seq()[self.cursor_spec() as int];
            (
                footer_left(self.expanded_spec(), self.testing_spec(), g),
                footer_right(self.expanded_spec(), g),
            )
        } else {
            (self.footer_spec().left@, self.footer_spec().right@)
        }
    }

    /// Whether the footer is what a refresh makes of `before`: that of the focused group, or
    /// `before` itself when no group is focused.
    pub open spec fn footer_refreshed(&self, before: Footer) -> bool {
        if self.cursor_spec() < self.group_seq().len() {
            self.footer_fresh()
        } else {
            self.footer_spec() == before
        }
    }

    /// Whether the footer is what a refresh makes of it for the focused group.
    pub open spec fn footer_fresh(&self) -> bool {
        (self.footer_spec().left@, self.footer_spec().right@) == self.refreshed_footer()
    }

    fn footer_for(expanded: bool, testing: bool, g: &ProxyGroup) -> (r: Footer)
        requires
            g.wf(),
        ensures
            r.left@ == footer_left(expanded, testing, *g),
            r.right@ == footer_right(expanded, *g),
    {
        let mut left: Vec<FooterItem> = Vec::new();
        let mut right: Vec<FooterItem> = Vec::new();
        if !expanded {
            left.push(FooterItem::Free);
            left.push(FooterItem::SpaceToExpand);
            left.push(
                if testing {
                    FooterItem::TestingGroup
                } else {
                    FooterItem::TestGroupHelp
                },
            );
            left.push(FooterItem::Sort);
            right.push(FooterItem::GroupName(g.name.clone()));
            if let Some(now) = g.current {
                right.push(FooterItem::Text(g.members[now].name.clone()));
            }
            assert(left@ =~= footer_left(expanded, testing, *g));
            assert(right@ =~= footer_right(expanded, *g));
        } else {
            left.push(FooterItem::Move);
            if g.proxy_type.is_selector() {
                left.push(FooterItem::Select);
            }
            left.push(
                if testing {
                    FooterItem::TestingNode
                } else {
                    FooterItem::TestNodeHelp
                },
            );
            left.push(FooterItem::Sort);
            if let Some(now) = &g.members[g.cursor].now {
                right.push(FooterItem::Text(now.clone()));
            }
            assert(left@ =~= footer_left(expanded, testing, *g));
            assert(right@ =~= footer_right(expanded, *g));
        }
        Footer { left, right }
    }

    /// Refreshes the footer for the focused group; with no focused group the footer stays.
    pub fn update_footer(&mut self) -> (r: &mut Self)
        ensures
            *final(self) == *final(r),
            r.group_seq() == old(self).group_seq(),
            r.expanded_spec() == old(self).expanded_spec(),
            r.cursor_spec() == old(self).cursor_spec(),
            r.testing_spec() == old(self).testing_spec(),
            (r.footer_spec().left@, r.footer_spec().right@) == old(self).refreshed_footer(),
            r.footer_refreshed(old(self).footer_spec()),
    {
        proof {
            use_type_invariant(&*self);
        }
        if self.cursor < self.groups.len() {
            let footer = Self::footer_for(self.expanded, self.testing, &self.groups[self.cursor]);
            self.footer = footer;
        }
        self
    }

    /// The first member named `name`.
    fn find_member(members: &Vec<ProxyItem>, name: &str) -> (r: Option<usize>)
        ensures
            match r {
                Some(i) => position_of(members@, name@) == Some(i as int),
                None => position_of(members@, name@) is None,
            },
    {
        proof {
            lemma_position_of(members@, name@);
        }
        let mut i: usize = 0;
        while i < members.len()
            invariant
                i <= members@.len(),
                forall|j: int| 0 <= j < i ==> members@[j].name@ != name@,
                match position_of(members@, name@) {
                    Some(p) => 0 <= p < members@.len() && members@[p].name@ == name@ && forall|j: int|
                        0 <= j < p ==> members@[j].name@ != name@,
                    None => forall|j: int| 0 <= j < members@.len() ==> members@[j].name@ != name@,
                },
            decreases members@.len() - i,
        {
            if same_name(members[i].name.as_str(), name) {
                return Some(i);
            }
            i = i + 1;
        }
        None
    }

    /// The members of a group whose member list is `all`: each name that `proxies` knows.
    fn members_from(all: &Vec<String>, proxies: &Proxies) -> (r: Vec<ProxyItem>)
        ensures
            r@ == members_of(all@, proxies@),
    {
        let mut members: Vec<ProxyItem> = Vec::new();
        let mut t: usize = 0;
        while t < all.len()
            invariant
                t <= all@.len(),
                members@ == members_of(all@.take(t as int), proxies@),
            decreases all@.len() - t,
        {
            let x = &all[t];
            proof {
                assert(all@.take(t + 1).drop_last() =~= all@.take(t as int));
                assert(all@.take(t + 1).last() == all@[t as int]);
            }
            match proxies.get(x.as_str()) {
                Some(p) => {
                    members.push(ProxyItem::from_proxy(x, p));
                },
                None => {},
            }
            t = t + 1;
        }
        assert(all@.take(all@.len() as int) =~= all@);
        members
    }

    /// The tree that shows the proxy groups of `val`: one group per group proxy, in order,
    /// with the members that `val` knows, leaving out groups with no such member. Each
    /// group's cursor starts on the member in use, or on the first member.
    pub fn from_proxies(val: Proxies) -> (r: Self)
        requires
            forall|i: int|
                0 <= i < val.entry_seq().len() && (#[trigger] val.entry_seq()[i]).1.proxy_type.spec_is_group()
                    ==> val.entry_seq()[i].1.all is Some,
        ensures
            r.group_seq().len() == shown_groups(
                val.entry_seq().filter(ProxyKind::Group.entry_pred()),
                val@,
            ).len(),
            forall|j: int|
                0 <= j < r.group_seq().len() ==> group_from(
                    #[trigger] r.group_seq()[j],
                    shown_groups(val.entry_seq().filter(ProxyKind::Group.entry_pred()), val@)[j].0,
                    shown_groups(val.entry_seq().filter(ProxyKind::Group.entry_pred()), val@)[j].1,
                    val@,
                ),
            !r.expanded_spec(),
            r.cursor_spec() == 0,
            !r.testing_spec(),
            r.footer_spec().left@ == Seq::<FooterItem>::empty(),
            r.footer_spec().right@ == Seq::<FooterItem>::empty(),
    {
        let ghost m = val@;
        let list = val.groups();
        let ghost gl = listed(list@);
        let ghost shown_pred = |e: (String, Proxy)| members_of(e.1.all.unwrap()@, m).len() > 0;
        let mut groups: Vec<ProxyGroup> = Vec::new();
        let mut k: usize = 0;
        while k < list.len()
            invariant
                k <= list@.len(),
                gl == listed(list@),
                gl == val.entry_seq().filter(ProxyKind::Group.entry_pred()),
                m == val@,
                forall|i: int|
                    0 <= i < val.entry_seq().len() && (#[trigger] val.entry_seq()[i]).1.proxy_type.spec_is_group()
                        ==> val.entry_seq()[i].1.all is Some,
                groups@.len() == shown_groups(gl.take(k as int), m).len(),
                forall|j: int|
                    0 <= j < groups@.len() ==> group_from(
                        #[trigger] groups@[j],
                        shown_groups(gl.take(k as int), m)[j].0,
                        shown_groups(gl.take(k as int), m)[j].1,
                        m,
                    ),
                forall|j: int| 0 <= j < groups@.len() ==> (#[trigger] groups@[j]).wf(),
            decreases list@.len() - k,
        {
            let (name, group) = list[k];
            proof {
                reveal_with_fuel(Seq::filter, 1);
                assert(gl.take(k + 1).drop_last() =~= gl.take(k as int));
                assert(gl.take(k + 1).last() == gl[k as int]);
                assert(gl[k as int] == (*name, *group));
                val.entry_seq().lemma_filter_pred(ProxyKind::Group.entry_pred(), k as int);
                val.entry_seq().lemma_filter_contains_rev(ProxyKind::Group.entry_pred(), gl[k as int]);
                let i = choose|i: int| 0 <= i < val.entry_seq().len() && val.entry_seq()[i] == gl[k as int];
                assert(val.entry_seq()[i].1.proxy_type.spec_is_group());
            }
            let all = match &group.all {
                Some(a) => a,
                None => {
                    proof {
                        assert(false);
                    }
                    k = k + 1;
                    continue ;
                },
            };
            let members = Self::members_from(all, &val);
            if members.len() == 0 {
                proof {
                    assert(shown_groups(gl.take(k + 1), m) =~= shown_groups(gl.take(k as int), m));
                }
                k = k + 1;
                continue ;
            }
            let current = match &group.now {
                Some(n) => Self::find_member(&members, n.as_str()),
                None => None,
            };
            proof {
                lemma_position_of(members@, group.now.unwrap()@);
            }
            let cursor = match current {
                Some(c) => c,
                None => 0,
            };
            let g = ProxyGroup {
                name: name.clone(),
                proxy_type: group.proxy_type,
                cursor,
                current,
                members,
            };
            groups.push(g);
            proof {
                let sh = shown_groups(gl.take(k as int), m);
                let sh1 = shown_groups(gl.take(k + 1), m);
                assert(sh1 =~= sh.push((*name, *group)));
                assert forall|j: int| 0 <= j < groups@.len() implies group_from(
                    #[trigger] groups@[j],
                    sh1[j].0,
                    sh1[j].1,
                    m,
                ) by {
                    if j < groups@.len() - 1 {
                        assert(sh1[j] == sh[j]);
                    }
                }
            }
            k = k + 1;
        }
        assert(gl.take(list@.len() as int) =~= gl);
        ProxyTree {
            groups,
            expanded: false,
            cursor: 0,
            testing: false,
            footer: Footer { left: Vec::new(), right: Vec::new() },
        }
    }

    /// Marks a latency test as running and refreshes the footer.
    pub fn start_testing(&mut self) -> (r: &mut Self)
        ensures
            *final(self) == *final(r),
            r.testing_spec(),
            r.group_seq() == old(self).group_seq(),
            r.expanded_spec() == old(self).expanded_spec(),
            r.cursor_spec() == old(self).cursor_spec(),
            r.footer_refreshed(old(self).footer_spec()),
    {
        proof {
            use_type_invariant(&*self);
        }
        self.testing = true;
        self.update_footer();
        self
    }

    /// Marks the latency test as finished and refreshes the footer.
    pub fn end_testing(&mut self) -> (r: &mut Self)
        ensures
            *final(self) == *final(r),
            !r.testing_spec(),
            r.group_seq() == old(self).group_seq(),
            r.expanded_spec() == old(self).expanded_spec(),
            r.cursor_spec() == old(self).cursor_spec(),
            r.footer_refreshed(old(self).footer_spec()),
    {
        proof {
            use_type_invariant(&*self);
        }
        self.testing = false;
        self.update_footer();
        self
    }

    /// Shows or hides the members of the focused group and refreshes the footer.
    pub fn toggle(&mut self) -> (r: &mut Self)
        ensures
            *final(self) == *final(r),
            r.expanded_spec() == !old(self).expanded_spec(),
            r.group_seq() == old(self).group_seq(),
            r.testing_spec() == old(self).testing_spec(),
            r.cursor_spec() == old(self).cursor_spec(),
            r.footer_refreshed(old(self).footer_spec()),
    {
        proof {
            use_type_invariant(&*self);
        }
        self.expanded = !self.expanded;
        self.update_footer();
        self
    }

    /// Hides the members of the focused group and refreshes the footer.
    pub fn end(&mut self) -> (r: &mut Self)
        ensures
            *final(self) == *final(r),
            !r.expanded_spec(),
            r.group_seq() == old(self).group_seq(),
            r.testing_spec() == old(self).testing_spec(),
            r.cursor_spec() == old(self).cursor_spec(),
            r.footer_refreshed(old(self).footer_spec()),
    {
        proof {
            use_type_invariant(&*self);
        }
        self.expanded = false;
        self.update_footer();
        self
    }

    /// Shows the members of the focused group; the footer stays as it is.
    pub fn hold(&mut self) -> (r: &mut Self)
        ensures
            *final(self) == *final(r),
            r.expanded_spec(),
            r.group_seq() == old(self).group_seq(),
            r.testing_spec() == old(self).testing_spec(),
            r.cursor_spec() == old(self).cursor_spec(),
            r.footer_spec() == old(self).footer_spec(),
    {
        proof {
            use_type_invariant(&*self);
        }
        self.expanded = true;
        self
    }

    /// The proxies that a manual latency test measures: with the focused group expanded, the
    /// highlighted member if it is a regular proxy; otherwise every regular proxy of the
    /// focused group. Nothing when no group is focused.
    pub fn manual_latency_test_targets(&self) -> (r: Vec<String>)
        ensures
            self.cursor_spec() >= self.group_seq().len() ==> r@ == Seq::<String>::empty(),
            self.cursor_spec() < self.group_seq().len() ==> {
                let g = self.group_seq()[self.cursor_spec() as int];
                if self.expanded_spec() {
                    if g.cursor < g.members@.len()
                        && g.members@[g.cursor as int].proxy_type.spec_is_normal() {
                        r@ == seq![g.members@[g.cursor as int].name]
                    } else {
                        r@ == Seq::<String>::empty()
                    }
                } else {
                    r@ == normal_names(g.members@)
                }
            },
    {
        let mut r: Vec<String> = Vec::new();
        if self.cursor >= self.groups.len() {
            return r;
        }
        let group = &self.groups[self.cursor];
        if self.expanded {
            if group.cursor < group.members.len() {
                let m = &group.members[group.cursor];
                if m.proxy_type.is_normal() {
                    r.push(m.name.clone());
                    assert(r@ =~= seq![m.name]);
                }
            }
            return r;
        }
        let mut i: usize = 0;
        while i < group.members.len()
            invariant
                i <= group.members@.len(),
                r@ == normal_names(group.members@.take(i as int)),
            decreases group.members@.len() - i,
        {
            let m = &group.members[i];
            proof {
                assert(group.members@.take(i + 1).drop_last() =~= group.members@.take(i as int));
                assert(group.members@.take(i + 1).last() == group.members@[i as int]);
            }
            if m.proxy_type.is_normal() {
                r.push(m.name.clone());
            }
            assert(r@ =~= normal_names(group.members@.take(i + 1)));
            i = i + 1;
        }
        assert(group.members@.take(group.members@.len() as int) =~= group.members@);
        r
    }

    /// Reacts to a key press. With the focused group expanded, Up and Down move the member
    /// cursor (three at a time when fast) and Right or Enter on a selector asks to use the
    /// highlighted member; otherwise Up and Down move the focus and Enter expands the group.
    pub fn handle(&mut self, event: ListEvent) -> (r: Option<Action>)
        requires
            old(self).expanded_spec() ==> old(self).cursor_spec() < old(self).group_seq().len(),
            !old(self).expanded_spec() && event.code == KeyCode::Down ==> old(
                self,
            ).group_seq().len() > 0,
        ensures
            ({
                let g = old(self).group_seq()[old(self).cursor_spec() as int];
                old(self).expanded_spec() && (event.code == KeyCode::Right || event.code
                    == KeyCode::Enter) && g.proxy_type.spec_is_selector() ==> {
                    &&& r == Some(
                        Action::ApplySelection {
                            group: g.name,
                            proxy: g.members@[g.cursor as int].name,
                        },
                    )
                    &&& *final(self) == *old(self)
                }
            }),
            ({
                let g = old(self).group_seq()[old(self).cursor_spec() as int];
                old(self).expanded_spec() && !((event.code == KeyCode::Right || event.code
                    == KeyCode::Enter) && g.proxy_type.spec_is_selector()) ==> {
                    &&& r is None
                    &&& final(self).group_seq() == old(self).group_seq().update(
                        old(self).cursor_spec() as int,
                        with_cursor(g, moved_member_cursor(g, event)),
                    )
                    &&& final(self).expanded_spec()
                    &&& final(self).cursor_spec() == old(self).cursor_spec()
                    &&& final(self).testing_spec() == old(self).testing_spec()
                    &&& final(self).footer_refreshed(old(self).footer_spec())
                }
            }),
            !old(self).expanded_spec() ==> {
                &&& r is None
                &&& final(self).group_seq() == old(self).group_seq()
                &&& final(self).expanded_spec() == (event.code == KeyCode::Enter)
                &&& final(self).cursor_spec() == moved_group_cursor(
                    old(self).cursor_spec(),
                    old(self).group_seq().len(),
                    event.code,
                )
                &&& final(self).testing_spec() == old(self).testing_spec()
                &&& final(self).footer_refreshed(old(self).footer_spec())
            },
    {
        proof {
            use_type_invariant(&*self);
        }
        if self.expanded {
            let step: usize = if event.fast {
                3
            } else {
                1
            };
            let i = self.cursor;
            match event.code {
                KeyCode::Right | KeyCode::Enter => {
                    let group = &self.groups[i];
                    if group.proxy_type.is_selector() {
                        let current = group.members[group.cursor].name.clone();
                        return Some(
                            Action::ApplySelection { group: group.name.clone(), proxy: current },
                        );
                    }
                },
                KeyCode::Up | KeyCode::Down => {
                    let ghost g0 = self.groups@[i as int];
                    let mut groups: Vec<ProxyGroup> = Vec::new();
                    std::mem::swap(&mut groups, &mut self.groups);
                    let mut group = groups.remove(i);
                    if matches!(event.code, KeyCode::Up) {
                        if group.cursor > 0 {
                            group.cursor = group.cursor.saturating_sub(step);
                        }
                    } else {
                        let left = group.members.len().saturating_sub(group.cursor + 1);
                        group.cursor = group.cursor + if left < step {
                            left
                        } else {
                            step
                        };
                    }
                    groups.insert(i, group);
                    proof {
                        assert(groups@ =~= old(self).group_seq().update(
                            i as int,
                            with_cursor(g0, moved_member_cursor(g0, event)),
                        ));
                        assert forall|j: int| 0 <= j < groups@.len() implies (
                        #[trigger] groups@[j]).wf() by {
                            if j != i {
                                assert(groups@[j] == old(self).group_seq()[j]);
                            }
                        }
                    }
                    self.groups = groups;
                },
                _ => {},
            }
        } else {
            match event.code {
                KeyCode::Up => {
                    if self.cursor > 0 {
                        self.cursor = self.cursor - 1;
                    }
                },
                KeyCode::Down => {
                    if self.cursor < self.groups.len() - 1 {
                        self.cursor = self.cursor + 1;
                    }
                },
                KeyCode::Enter => {
                    self.expanded = true;
                },
                _ => {},
            }
        }
        self.update_footer();
        None
    }

    /// The first group named `name`.
    fn find_group(groups: &Vec<ProxyGroup>, name: &str) -> (r: Option<usize>)
        ensures
            match r {
                Some(i) => group_position(groups@, name@) == Some(i as int),
                None => group_position(groups@, name@) is None,
            },
    {
        proof {
            lemma_group_position(groups@, name@);
        }
        let mut i: usize = 0;
        while i < groups.len()
            invariant
                i <= groups@.len(),
                forall|j: int| 0 <= j < i ==> groups@[j].name@ != name@,
                match group_position(groups@, name@) {
                    Some(p) => 0 <= p < groups@.len() && groups@[p].name@ == name@ && forall|j: int|
                        0 <= j < p ==> groups@[j].name@ != name@,
                    None => forall|j: int| 0 <= j < groups@.len() ==> groups@[j].name@ != name@,
                },
            decreases groups@.len() - i,
        {
            if same_name(groups[i].name.as_str(), name) {
                return Some(i);
            }
            i = i + 1;
        }
        None
    }

    /// Takes the groups of `new_tree`, keeping in each group that was already shown the
    /// member under the cursor (see [`carried_cursor`]); the focus, the expansion and the
    /// test mark stay, and the footer is refreshed.
    pub fn replace_with(&mut self, new_tree: ProxyTree) -> (r: &mut Self)
        ensures
            *final(self) == *final(r),
            r.group_seq().len() == new_tree.group_seq().len(),
            forall|i: int|
                0 <= i < new_tree.group_seq().len() ==> #[trigger] r.group_seq()[i] == with_cursor(
                    new_tree.group_seq()[i],
                    carried_cursor(old(self).group_seq(), new_tree.group_seq()[i]),
                ),
            r.expanded_spec() == old(self).expanded_spec(),
            r.cursor_spec() == old(self).cursor_spec(),
            r.testing_spec() == old(self).testing_spec(),
            r.footer_refreshed(old(self).footer_spec()),
    {
        proof {
            use_type_invariant(&*self);
            use_type_invariant(&new_tree);
        }
        let ghost olds = self.groups@;
        let ghost news = new_tree.groups@;
        let ProxyTree { groups: mut groups, .. } = new_tree;
        let mut i: usize = 0;
        while i < groups.len()
            invariant
                olds == self.groups@,
                forall|j: int| 0 <= j < olds.len() ==> (#[trigger] olds[j]).wf(),
                forall|j: int| 0 <= j < news.len() ==> (#[trigger] news[j]).wf(),
                groups@.len() == news.len(),
                i <= groups@.len(),
                forall|j: int|
                    0 <= j < i ==> #[trigger] groups@[j] == with_cursor(
                        news[j],
                        carried_cursor(olds, news[j]),
                    ),
                forall|j: int| i <= j < groups@.len() ==> #[trigger] groups@[j] == news[j],
                forall|j: int| 0 <= j < groups@.len() ==> (#[trigger] groups@[j]).wf(),
            decreases groups@.len() - i,
        {
            let ghost g = news[i as int];
            proof {
                lemma_group_position(olds, g.name@);
            }
            if let Some(k) = Self::find_group(&self.groups, groups[i].name.as_str()) {
                let old_group = &self.groups[k];
                let by_name = if old_group.cursor < old_group.members.len() {
                    Self::find_member(
                        &groups[i].members,
                        old_group.members[old_group.cursor].name.as_str(),
                    )
                } else {
                    None
                };
                let c = match by_name {
                    Some(p) => p,
                    None => match groups[i].current {
                        Some(c) => c,
                        None => 0,
                    },
                };
                proof {
                    lemma_position_of(g.members@, old_group.members@[old_group.cursor as int].name@);
                }
                let mut group = groups.remove(i);
                group.cursor = c;
                groups.insert(i, group);
            }
            proof {
                assert(groups@[i as int] == with_cursor(g, carried_cursor(olds, g)));
            }
            i = i + 1;
        }
        self.groups = groups;
        self.update_footer();
        self
    }

    /// Orders the groups by how often they were used (see [`crate::group_order::group_le`]):
    /// frequent groups first, then the others by name; groups that compare equal keep their
    /// order. The focus position, the expansion, the test mark and the footer stay as they
    /// are.
    pub fn sort_groups_with_frequency(&mut self, freq: &[(String, usize)]) -> (r: &mut Self)
        ensures
            *final(self) == *final(r),
            exists|perm: Seq<int>| stably_sorted(freq@, old(self).group_seq(), r.group_seq(), perm),
            r.expanded_spec() == old(self).expanded_spec(),
            r.cursor_spec() == old(self).cursor_spec(),
            r.testing_spec() == old(self).testing_spec(),
            r.footer_spec() == old(self).footer_spec(),
    {
        proof {
            use_type_invariant(&*self);
        }
        let ghost olds = self.groups@;
        let mut groups: Vec<ProxyGroup> = Vec::new();
        std::mem::swap(&mut groups, &mut self.groups);
        let sorted = sort_groups(groups, freq);
        let ghost perm = choose|perm: Seq<int>| stably_sorted(freq@, olds, sorted@, perm);
        proof {
            assert forall|j: int| 0 <= j < sorted@.len() implies (#[trigger] sorted@[j]).wf() by {
                assert(sorted@[j] == olds[perm[j]]);
            }
        }
        self.groups = sorted;
        assert(stably_sorted(freq@, old(self).group_seq(), self.group_seq(), perm));
        self
    }

    /// The tree has no scroll position of its own: always the origin.
    pub fn current_pos(&self) -> (r: Coord)
        ensures
            r == (Coord { x: 0, y: 0, hold: false }),
    {
        Coord { x: 0, y: 0, hold: false }
    }

    /// The tree is never scrolled: always the origin.
    pub fn offset(&self) -> (r: Coord)
        ensures
            r == (Coord { x: 0, y: 0, hold: false }),
    {
        Coord { x: 0, y: 0, hold: false }
    }

    /// The position of the focused group.
    pub fn cursor(&self) -> (r: usize)
        ensures
            r == self.cursor_spec(),
    {
        self.cursor
    }

    /// Whether a latency test runs.
    pub fn is_testing(&self) -> (r: bool)
        ensures
            r == self.testing_spec(),
    {
        self.testing
    }

    /// Whether the focused group shows its members.
    pub fn is_expanded(&self) -> (r: bool)
        ensures
            r == self.expanded_spec(),
    {
        self.expanded
    }

    /// The groups, in order.
    pub fn groups(&self) -> (r: &[ProxyGroup])
        ensures
            r@ == self.group_seq(),
            forall|i: int| 0 <= i < r@.len() ==> (#[trigger] r@[i]).wf(),
    {
        proof {
            use_type_invariant(self);
        }
        self.groups.as_slice()
    }

    /// The footer line.
    pub fn footer(&self) -> (r: &Footer)
        ensures
            *r == self.footer_spec(),
    {
        &self.footer
    }

    /// The focused group.
    pub fn current_group(&self) -> (r: &ProxyGroup)
        requires
            self.cursor_spec() < self.group_seq().len(),
        ensures
            *r == self.group_seq()[self.cursor_spec() as int],
    {
        &self.groups[self.cursor]
    }

    /// Number of groups.
    pub fn len(&self) -> (r: usize)
        ensures
            r == self.group_seq().len(),
    {
        self.groups.len()
    }

    pub fn is_empty(&self) -> (r: bool)
        ensures
            r == (self.group_seq().len() == 0),
    {
        self.groups.len() == 0
    }
}

impl Clone for ProxyTree {
    /// A copy with the same groups, focus, expansion, test mark and footer.
    fn clone(&self) -> (r: Self)
        ensures
            r.group_seq().len() == self.group_seq().len(),
            forall|i: int|
                0 <= i < self.group_seq().len() ==> same_group(
                    #[trigger] r.group_seq()[i],
                    self.group_seq()[i],
                ),
            r.expanded_spec() == self.expanded_spec(),
            r.cursor_spec() == self.cursor_spec(),
            r.testing_spec() == self.testing_spec(),
            r.footer_spec().left@ == self.footer_spec().left@,
            r.footer_spec().right@ == self.footer_spec().right@,
    {
        proof {
            use_type_invariant(self);
        }
        let mut groups: Vec<ProxyGroup> = Vec::new();
        let mut i: usize = 0;
        while i < self.groups.len()
            invariant
                i <= self.groups@.len(),
                groups@.len() == i,
                forall|j: int| 0 <= j < self.groups@.len() ==> (#[trigger] self.groups@[j]).wf(),
                forall|j: int| 0 <= j < i ==> same_group(#[trigger] groups@[j], self.groups@[j]),
                forall|j: int| 0 <= j < i ==> (#[trigger] groups@[j]).wf(),
            decreases self.groups@.len() - i,
        {
            let g = self.groups[i].clone();
            let ghost before = groups@;
            groups.push(g);
            proof {
                assert forall|j: int| 0 <= j < i + 1 implies same_group(
                    #[trigger] groups@[j],
                    self.groups@[j],
                ) && groups@[j].wf() by {
                    if j < i {
                        assert(groups@[j] == before[j]);
                    }
                }
            }
            i = i + 1;
        }
        ProxyTree {
            groups,
            expanded: self.expanded,
            cursor: self.cursor,
            testing: self.testing,
            footer: self.footer.clone(),
        }
    }
}

impl Default for ProxyTree {
    /// No groups, nothing expanded, no test running, an empty footer.
    fn default() -> (r: Self)
        ensures
            r.group_seq() == Seq::<ProxyGroup>::empty(),
            !r.expanded_spec(),
            r.cursor_spec() == 0,
            !r.testing_spec(),
            r.footer_spec().left@ == Seq::<FooterItem>::empty(),
            r.footer_spec().right@ == Seq::<FooterItem>::empty(),
    {
        ProxyTree {
            groups: Vec::new(),
            expanded: false,
            cursor: 0,
            testing: false,
            footer: Footer { left: Vec::new(), right: Vec::new() },
        }
    }
}

/// A group's members are proxies that the map knows, shown under their own names, and no
/// more than the group lists.
pub proof fn lemma_members_known(all: Seq<String>, m: Map<Seq<char>, Proxy>)
    ensures
        members_of(all, m).len() <= all.len(),
        forall|i: int|
            0 <= i < members_of(all, m).len() ==> m.contains_key(
                (#[trigger] members_of(all, m)[i]).name@,
            ) && members_of(all, m)[i] == item_of(
                members_of(all, m)[i].name,
                m[members_of(all, m)[i].name@],
            ),
    decreases all.len(),
{
    if all.len() > 0 {
        lemma_members_known(all.drop_last(), m);
        let rest = members_of(all.drop_last(), m);
        assert forall|i: int| 0 <= i < members_of(all, m).len() implies m.contains_key(
            (#[trigger] members_of(all, m)[i]).name@,
        ) && members_of(all, m)[i] == item_of(
            members_of(all, m)[i].name,
            m[members_of(all, m)[i].name@],
        ) by {
            if i < rest.len() {
                assert(members_of(all, m)[i] == rest[i]);
            }
        }
    }
}

/// The cursor that a refreshed group gets points at one of its members, and, where the
/// member that was highlighted before is still there, at that member.
pub proof fn lemma_carried_cursor(olds: Seq<ProxyGroup>, g: ProxyGroup)
    requires
        g.wf(),
        forall|j: int| 0 <= j < olds.len() ==> (#[trigger] olds[j]).wf(),
    ensures
        carried_cursor(olds, g) < g.members@.len(),
        match group_position(olds, g.name@) {
            Some(k) => {
                let name = olds[k].members@[olds[k].cursor as int].name@;
                (exists|i: int| 0 <= i < g.members@.len() && #[trigger] g.members@[i].name@ == name)
                    ==> g.members@[carried_cursor(olds, g) as int].name@ == name
            },
            None => true,
        },
{
    lemma_group_position(olds, g.name@);
    assert(g.members@.len() == g.members.len());
    if let Some(k) = group_position(olds, g.name@) {
        let name = olds[k].members@[olds[k].cursor as int].name@;
        lemma_position_of(g.members@, name);
        assert(olds[k].wf());
        if exists|i: int| 0 <= i < g.members@.len() && #[trigger] g.members@[i].name@ == name {
            let i = choose|i: int| 0 <= i < g.members@.len() && #[trigger] g.members@[i].name@ == name;
            assert(g.members@[i].name@ == name);
            assert(position_of(g.members@, name) is Some);
            let p = position_of(g.members@, name).unwrap();
            assert(carried_cursor(olds, g) == p as usize);
        }
    }
}

/// Starting a latency test and then ending it gives back the tree, footer included, when the
/// footer was up to date before: `mid` stands for the tree after `start_testing` and `fin`
/// for it after `end_testing`, as their contracts describe them.
pub proof fn lemma_testing_round_trip(t: ProxyTree, mid: ProxyTree, fin: ProxyTree)
    requires
        !t.testing_spec(),
        t.cursor_spec() < t.group_seq().len() ==> t.footer_fresh(),
        mid.testing_spec(),
        mid.group_seq() == t.group_seq(),
        mid.expanded_spec() == t.expanded_spec(),
        mid.cursor_spec() == t.cursor_spec(),
        mid.footer_refreshed(t.footer_spec()),
        !fin.testing_spec(),
        fin.group_seq() == mid.group_seq(),
        fin.expanded_spec() == mid.expanded_spec(),
        fin.cursor_spec() == mid.cursor_spec(),
        fin.footer_refreshed(mid.footer_spec()),
    ensures
        fin.group_seq() == t.group_seq(),
        fin.expanded_spec() == t.expanded_spec(),
        fin.cursor_spec() == t.cursor_spec(),
        fin.testing_spec() == t.testing_spec(),
        fin.footer_spec().left@ == t.footer_spec().left@,
        fin.footer_spec().right@ == t.footer_spec().right@,
{
}

/// A group's members are exactly the names of its member list that the proxies know, in
/// the list's order and whatever their kind, each shown as the proxy of that name; so every
/// known name of the list is among the members.
pub proof fn lemma_members_are_the_known_names(all: Seq<String>, m: Map<Seq<char>, Proxy>)
    ensures
        members_of(all, m) == all.filter(|x: String| m.contains_key(x@)).map_values(
            |x: String| item_of(x, m[x@]),
        ),
        members_of(all, m).len() == all.filter(|x: String| m.contains_key(x@)).len(),
        forall|i: int|
            0 <= i < all.len() && m.contains_key((#[trigger] all[i])@) ==> exists|j: int|
                0 <= j < members_of(all, m).len() && members_of(all, m)[j].name == all[i],
    decreases all.len(),
{
    let known = |x: String| m.contains_key(x@);
    let shown = |x: String| item_of(x, m[x@]);
    if all.len() > 0 {
        let d = all.drop_last();
        let x = all.last();
        lemma_members_are_the_known_names(d, m);
        assert(members_of(d, m) == d.filter(known).map_values(shown));
        reveal(Seq::filter);
        assert(all.filter(known) == if known(x) {
            d.filter(known).push(x)
        } else {
            d.filter(known)
        });
        if known(x) {
            d.filter(known).lemma_push_map_commute(shown, x);
            assert(members_of(all, m) == members_of(d, m).push(shown(x)));
        } else {
            assert(members_of(all, m) == members_of(d, m));
        }
    } else {
        assert(members_of(all, m) =~= all.filter(known).map_values(shown));
    }
    assert forall|i: int| 0 <= i < all.len() && m.contains_key((#[trigger] all[i])@) implies exists|j: int|
        0 <= j < members_of(all, m).len() && members_of(all, m)[j].name == all[i] by {
        all.lemma_filter_contains(known, i);
        let f = all.filter(known);
        let j = choose|j: int| 0 <= j < f.len() && f[j] == all[i];
        assert(members_of(all, m)[j] == shown(f[j]));
    }
}

/// A group is shown exactly when at least one name of its member list is a proxy that the
/// map knows.
pub proof fn lemma_shown_iff_a_member_is_known(all: Seq<String>, m: Map<Seq<char>, Proxy>)
    ensures
        members_of(all, m).len() > 0 <==> exists|i: int|
            0 <= i < all.len() && m.contains_key((#[trigger] all[i])@),
{
    lemma_members_are_the_known_names(all, m);
    lemma_members_known(all, m);
    if members_of(all, m).len() > 0 {
        assert(members_of(all, m)[0] == all.filter(|x: String| m.contains_key(x@)).map_values(
            |x: String| item_of(x, m[x@]),
        )[0]);
        let f = all.filter(|x: String| m.contains_key(x@));
        all.lemma_filter_pred(|x: String| m.contains_key(x@), 0);
        assert(f.contains(f[0]));
        all.lemma_filter_contains_rev(|x: String| m.contains_key(x@), f[0]);
        let i = choose|i: int| 0 <= i < all.len() && all[i] == f[0];
        assert(m.contains_key(all[i]@));
    }
}

/// The tree keeps a group entry exactly when one name of its member list is a proxy that the
/// map knows.
pub proof fn lemma_shown_groups(groups: Seq<(String, Proxy)>, m: Map<Seq<char>, Proxy>, e: (String, Proxy))
    ensures
        shown_groups(groups, m).contains(e) <==> groups.contains(e) && exists|i: int|
            0 <= i < e.1.all.unwrap()@.len() && m.contains_key((#[trigger] e.1.all.unwrap()@[i])@),
{
    let p = |e: (String, Proxy)| members_of(e.1.all.unwrap()@, m).len() > 0;
    lemma_shown_iff_a_member_is_known(e.1.all.unwrap()@, m);
    if groups.filter(p).contains(e) {
        groups.lemma_filter_contains_rev(p, e);
        let j = choose|j: int| 0 <= j < groups.filter(p).len() && groups.filter(p)[j] == e;
        groups.lemma_filter_pred(p, j);
    }
    if groups.contains(e) && p(e) {
        let i = choose|i: int| 0 <= i < groups.len() && groups[i] == e;
        groups.lemma_filter_contains(p, i);
    }
}

/// The member in use of a group is the first member named like the group's `now`, and there
/// is none when the group names none or no member has that name.
pub proof fn lemma_current_member(members: Seq<ProxyItem>, now: Option<String>)
    requires
        members.len() <= usize::MAX,
    ensures
        match current_of(members, now) {
            Some(c) => {
                &&& now is Some
                &&& c < members.len()
                &&& members[c as int].name@ == now.unwrap()@
                &&& forall|j: int| 0 <= j < c ==> (#[trigger] members[j]).name@ != now.unwrap()@
            },
            None => now is None || forall|j: int|
                0 <= j < members.len() ==> (#[trigger] members[j]).name@ != now.unwrap()@,
        },
{
    if let Some(n) = now {
        lemma_position_of(members, n@);
    }
}

/// A group built from a group proxy has the proxy's name and kind, the known names of its
/// member list as members, and its member in use and cursor on the first member named like
/// the proxy's `now`; where no member has that name, no member is in use and the cursor
/// starts on the first member.
pub proof fn lemma_built_group(g: ProxyGroup, name: String, p: Proxy, m: Map<Seq<char>, Proxy>)
    requires
        p.all is Some,
        group_from(g, name, p, m),
    ensures
        g.name == name,
        g.proxy_type == p.proxy_type,
        g.members@ == p.all.unwrap()@.filter(|x: String| m.contains_key(x@)).map_values(
            |x: String| item_of(x, m[x@]),
        ),
        (p.now matches Some(n) && exists|i: int|
            0 <= i < g.members@.len() && (#[trigger] g.members@[i]).name@ == n@) ==> {
            &&& g.current == Some(g.cursor)
            &&& g.cursor < g.members@.len()
            &&& g.members@[g.cursor as int].name@ == p.now.unwrap()@
            &&& forall|j: int|
                0 <= j < g.cursor ==> (#[trigger] g.members@[j]).name@ != p.now.unwrap()@
        },
        !(p.now matches Some(n) && exists|i: int|
            0 <= i < g.members@.len() && (#[trigger] g.members@[i]).name@ == n@) ==> {
            &&& g.current is None
            &&& g.cursor == 0
        },
{
    lemma_members_are_the_known_names(p.all.unwrap()@, m);
    assert(g.members@.len() == g.members.len());
    lemma_current_member(g.members@, p.now);
    if let Some(n) = p.now {
        if exists|i: int| 0 <= i < g.members@.len() && (#[trigger] g.members@[i]).name@ == n@ {
            let i = choose|i: int| 0 <= i < g.members@.len() && (#[trigger] g.members@[i]).name@ == n@;
            assert(g.members@[i].name@ == n@);
        }
    }
}

/// Where a refreshed group had a namesake before (the first group of that name) and the
/// member that was highlighted there is gone, the cursor goes to the member in use, or to
/// the first member when none is in use; where that member is still there, the cursor goes
/// to its first occurrence.
pub proof fn lemma_refreshed_cursor(olds: Seq<ProxyGroup>, g: ProxyGroup, k: int)
    requires
        g.wf(),
        forall|j: int| 0 <= j < olds.len() ==> (#[trigger] olds[j]).wf(),
        0 <= k < olds.len(),
        olds[k].name@ == g.name@,
        forall|j: int| 0 <= j < k ==> (#[trigger] olds[j]).name@ != g.name@,
    ensures
        ({
            let name = olds[k].members@[olds[k].cursor as int].name@;
            &&& (forall|i: int| 0 <= i < g.members@.len() ==> (#[trigger] g.members@[i]).name@ != name)
                ==> carried_cursor(olds, g) == match g.current {
                Some(c) => c,
                None => 0usize,
            }
            &&& (exists|i: int| 0 <= i < g.members@.len() && (#[trigger] g.members@[i]).name@ == name)
                ==> {
                &&& g.members@[carried_cursor(olds, g) as int].name@ == name
                &&& forall|j: int|
                    0 <= j < carried_cursor(olds, g) ==> (#[trigger] g.members@[j]).name@ != name
            }
        }),
{
    lemma_group_position(olds, g.name@);
    assert(olds[k].wf());
    let gp = group_position(olds, g.name@);
    assert(gp == Some(k)) by {
        match gp {
            Some(p) => {
                if p < k {
                    assert(olds[p].name@ != g.name@);
                } else if p > k {
                    assert(olds[k].name@ != g.name@);
                }
            },
            None => {
                assert(olds[k].name@ != g.name@);
            },
        }
    }
    let name = olds[k].members@[olds[k].cursor as int].name@;
    lemma_position_of(g.members@, name);
    assert(olds[k].cursor < olds[k].members@.len());
    assert(g.members@.len() == g.members.len());
    if exists|i: int| 0 <= i < g.members@.len() && (#[trigger] g.members@[i]).name@ == name {
        let i = choose|i: int| 0 <= i < g.members@.len() && (#[trigger] g.members@[i]).name@ == name;
        assert(g.members@[i].name@ == name);
        assert(position_of(g.members@, name) is Some);
        let p = position_of(g.members@, name).unwrap();
        assert(carried_cursor(olds, g) == p as usize);
    } else {
        match position_of(g.members@, name) {
            Some(p) => {
                assert(g.members@[p].name@ == name);
            },
            None => {},
        }
        assert(position_of(g.members@, name) is None);
    }
}

/// A refreshed group that had no namesake before keeps its own cursor.
pub proof fn lemma_new_group_cursor(olds: Seq<ProxyGroup>, g: ProxyGroup)
    requires
        forall|j: int| 0 <= j < olds.len() ==> (#[trigger] olds[j]).name@ != g.name@,
    ensures
        carried_cursor(olds, g) == g.cursor,
{
    lemma_group_position(olds, g.name@);
}

/// With a group's members shown, Down moves the cursor by the step (three when fast, else
/// one) but not past the last member, Up moves it back by the step but not before the
/// first, and any other key leaves it.
pub proof fn lemma_member_cursor_moves(g: ProxyGroup, event: ListEvent)
    requires
        g.wf(),
    ensures
        ({
            let step: int = if event.fast {
                3
            } else {
                1
            };
            let last: int = g.members@.len() - 1;
            let moved = moved_member_cursor(g, event) as int;
            &&& event.code == KeyCode::Down ==> moved == if g.cursor + step <= last {
                g.cursor + step
            } else {
                last
            }
            &&& event.code == KeyCode::Up ==> moved == if g.cursor >= step {
                g.cursor - step
            } else {
                0
            }
            &&& event.code != KeyCode::Down && event.code != KeyCode::Up ==> moved == g.cursor
            &&& 0 <= moved <= last
        }),
{
    assert(g.members@.len() == g.members.len());
}

/// With no group expanded, Up moves the focus to the previous group and Down to the next,
/// each staying put at the end of the list; any other key leaves the focus.
pub proof fn lemma_group_cursor_moves(cursor: usize, len: nat, code: KeyCode)
    requires
        cursor < len <= usize::MAX,
    ensures
        code == KeyCode::Up ==> moved_group_cursor(cursor, len, code) == if cursor == 0 {
            0
        } else {
            cursor - 1
        },
        code == KeyCode::Down ==> moved_group_cursor(cursor, len, code) == if cursor + 1 == len {
            cursor as int
        } else {
            cursor + 1
        },
        code != KeyCode::Up && code != KeyCode::Down ==> moved_group_cursor(cursor, len, code)
            == cursor,
        moved_group_cursor(cursor, len, code) < len,
{
}

/// Whether a member of `s` that is a regular proxy is named `n`.
pub open spec fn has_regular_member(s: Seq<ProxyItem>, n: String) -> bool {
    exists|j: int| 0 <= j < s.len() && s[j].name == n && s[j].proxy_type.spec_is_normal()
}

/// The names that a test of a whole group measures are exactly the names of its members
/// that are regular proxies, in member order: groups, built-ins and unknown kinds are left
/// out.
pub proof fn lemma_normal_names_are_regular(s: Seq<ProxyItem>)
    ensures
        normal_names(s) == s.filter(|it: ProxyItem| it.proxy_type.spec_is_normal()).map_values(
            |it: ProxyItem| it.name,
        ),
        forall|i: int|
            0 <= i < normal_names(s).len() ==> has_regular_member(s, #[trigger] normal_names(s)[i]),
    decreases s.len(),
{
    let regular = |it: ProxyItem| it.proxy_type.spec_is_normal();
    let name = |it: ProxyItem| it.name;
    if s.len() > 0 {
        let d = s.drop_last();
        let x = s.last();
        lemma_normal_names_are_regular(d);
        assert(normal_names(d) == d.filter(regular).map_values(name));
        reveal(Seq::filter);
        assert(s.filter(regular) == if regular(x) {
            d.filter(regular).push(x)
        } else {
            d.filter(regular)
        });
        if regular(x) {
            d.filter(regular).lemma_push_map_commute(name, x);
            assert(normal_names(s) =~= normal_names(d).push(name(x)));
        } else {
            assert(normal_names(s) =~= normal_names(d));
        }
    } else {
        assert(normal_names(s) =~= s.filter(regular).map_values(name));
    }
    let f = s.filter(regular);
    assert forall|i: int| 0 <= i < normal_names(s).len() implies has_regular_member(
        s,
        #[trigger] normal_names(s)[i],
    ) by {
        assert(normal_names(s)[i] == f[i].name);
        s.lemma_filter_pred(regular, i);
        assert(f.contains(f[i]));
        s.lemma_filter_contains_rev(regular, f[i]);
        assert(s.contains(f[i]));
        let j = choose|j: int| 0 <= j < s.len() && s[j] == f[i];
        assert(s[j].name == normal_names(s)[i]);
    }
}

/// The footer tells the state apart: the expand hint only with the members hidden and the
/// move hint only with them shown; "Testing" in place of the test hint exactly while a test
/// runs; the select hint exactly on an expanded selector; the sort hint always. On the right
/// it names the focused group and its member in use, or, with the members shown, the member
/// in use of the highlighted member.
pub proof fn lemma_footer_shows_state(expanded: bool, testing: bool, g: ProxyGroup)
    requires
        g.wf(),
    ensures
        ({
            let left = footer_left(expanded, testing, g);
            let right = footer_right(expanded, g);
            &&& left.contains(FooterItem::SpaceToExpand) <==> !expanded
            &&& left.contains(FooterItem::Move) <==> expanded
            &&& left.contains(FooterItem::TestingGroup) <==> !expanded && testing
            &&& left.contains(FooterItem::TestGroupHelp) <==> !expanded && !testing
            &&& left.contains(FooterItem::TestingNode) <==> expanded && testing
            &&& left.contains(FooterItem::TestNodeHelp) <==> expanded && !testing
            &&& left.contains(FooterItem::Select) <==> expanded && g.proxy_type.spec_is_selector()
            &&& left.contains(FooterItem::Sort)
            &&& !expanded ==> {
                &&& right[0] == FooterItem::GroupName(g.name)
                &&& right.len() == if g.current is Some {
                    2int
                } else {
                    1int
                }
                &&& (g.current matches Some(c) ==> right[1] == FooterItem::Text(
                    g.members@[c as int].name,
                ))
            }
            &&& expanded ==> {
                &&& right.len() == if g.members@[g.cursor as int].now is Some {
                    1int
                } else {
                    0int
                }
                &&& (g.members@[g.cursor as int].now matches Some(n) ==> right[0]
                    == FooterItem::Text(n))
            }
        }),
{
    let left = footer_left(expanded, testing, g);
    if !expanded {
        assert(left[0] == FooterItem::Free);
        assert(left[1] == FooterItem::SpaceToExpand);
        assert(left[3] == FooterItem::Sort);
        assert(left.len() == 4);
    } else {
        let sel = g.proxy_type.spec_is_selector();
        let n: int = if sel {
            4
        } else {
            3
        };
        assert(left.len() == n);
        assert(left[0] == FooterItem::Move);
        assert(left[n - 1] == FooterItem::Sort);
        if sel {
            assert(left[1] == FooterItem::Select);
        }
        assert(left[n - 2] == if testing {
            FooterItem::TestingNode
        } else {
            FooterItem::TestNodeHelp
        });
    }
    assert(left.contains(FooterItem::Sort));
}

} // verus!
