use vstd::prelude::*;
use crate::protocol::{IpProtocol, get_protocol, protocol_number};
use vstd::seq_lib::seq_to_set_is_finite;
use vstd::set_lib::lemma_len_subset;

verus! {

/// Longest prefix length of an IPv4 key.
pub const MAX_PREFIX_LEN: u32 = 32;

/// Capacity of the kernel's LPM trie of rules.
pub const FIREWALL_RULES_MAX_ENTRIES: usize = 1024;

/// Capacity of the kernel's set of prefix lengths.
pub const FIREWALL_CIDRS_MAX_ENTRIES: usize = 32;

/// An IPv4 address in host order: the first octet is the most significant.
pub open spec fn ipv4_value(ip: [u8; 4]) -> u32 {
    (ip[0] as int * 0x1000000 + ip[1] as int * 0x10000 + ip[2] as int * 0x100 + ip[3] as int) as u32
}

/// `addr` lies in the network `net/prefix_len`: their first `prefix_len`
/// bits agree. Only lengths up to 32 describe a network.
pub open spec fn covers(net: u32, prefix_len: u32, addr: u32) -> bool {
    prefix_len == 0 || (prefix_len <= 32 && (net >> ((32 - prefix_len) as u32)) == (addr >> ((
    32 - prefix_len) as u32)))
}

/// Host-order value of four octets in network order.
pub fn ipv4_to_u32(ip: [u8; 4]) -> (r: u32)
    ensures
        r == ipv4_value(ip),
{
    (ip[0] as u32) * 0x1000000 + (ip[1] as u32) * 0x10000 + (ip[2] as u32) * 0x100 + (ip[3] as u32)
}

/// Whether `addr` lies in the network `net/prefix_len`.
pub fn prefix_covers(net: u32, prefix_len: u32, addr: u32) -> (r: bool)
    ensures
        r == covers(net, prefix_len, addr),
{
    if prefix_len == 0 {
        true
    } else if prefix_len > 32 {
        false
    } else {
        let shift = 32 - prefix_len;
        (net >> shift) == (addr >> shift)
    }
}

/// Key of the LPM trie: a prefix length and an address in host order.
#[derive(Clone, Copy, Debug, PartialEq, Eq, Structural)]
pub struct LpmKey {
    pub prefix_len: u32,
    pub addr: u32,
}

/// Two keys name the same trie node: equal lengths, and the same leading bits.
pub open spec fn same_key(a: LpmKey, b: LpmKey) -> bool {
    a.prefix_len == b.prefix_len && covers(a.addr, a.prefix_len, b.addr)
}

/// The value stored in the trie: a rule without its address and length.
/// `protocol` is the protocol number that packets are compared with.
#[derive(Clone, Copy, Debug, PartialEq, Eq, Structural)]
pub struct Rule {
    pub from_port: Option<u16>,
    pub to_port: Option<u16>,
    pub status: bool,
    pub protocol: u8,
}

/// One node of the trie.
#[derive(Clone, Copy, Debug, PartialEq, Eq, Structural)]
pub struct LpmEntry {
    pub key: LpmKey,
    pub rule: Rule,
}

/// A rule as the control plane serves it to the firewall daemon.
#[derive(Clone, Copy, Debug)]
pub struct FirewallRuleData {
    pub ip: [u8; 4],
    pub protocol: IpProtocol,
    pub cidr: u16,
    pub from_port: Option<u16>,
    pub to_port: Option<u16>,
    pub status: bool,
}

/// The trie node that a served rule becomes.
pub open spec fn entry_of(r: FirewallRuleData) -> LpmEntry {
    LpmEntry {
        key: LpmKey { prefix_len: r.cidr as u32, addr: ipv4_value(r.ip) },
        rule: Rule {
            from_port: r.from_port,
            to_port: r.to_port,
            status: r.status,
            protocol: protocol_number(r.protocol),
        },
    }
}

/// The trie node that a served rule becomes.
pub fn rule_entry(r: &FirewallRuleData) -> (e: LpmEntry)
    ensures
        e == entry_of(*r),
{
    LpmEntry {
        key: LpmKey { prefix_len: r.cidr as u32, addr: ipv4_to_u32(r.ip) },
        rule: Rule {
            from_port: r.from_port,
            to_port: r.to_port,
            status: r.status,
            protocol: get_protocol(r.protocol),
        },
    }
}

/// What the two kernel maps of the firewall hold: the trie's nodes and the
/// set of prefix lengths, each in the order in which it was filled.
pub struct RuleTableView {
    pub entries: Seq<LpmEntry>,
    pub cidrs: Seq<u16>,
}

/// First node from index `i` on whose key is `k`, or -1.
pub open spec fn key_index(entries: Seq<LpmEntry>, k: LpmKey, i: int) -> int
    decreases entries.len() - i,
{
    if i < 0 || i >= entries.len() {
        -1
    } else if same_key(entries[i].key, k) {
        i
    } else {
        key_index(entries, k, i + 1)
    }
}

/// The trie after an update with `e`: a key of more than 32 bits is refused,
/// a node with the same key is replaced, a new key is added while there is
/// room and refused when the trie is full.
pub open spec fn trie_insert(entries: Seq<LpmEntry>, e: LpmEntry) -> Seq<LpmEntry> {
    if e.key.prefix_len > MAX_PREFIX_LEN {
        entries
    } else if key_index(entries, e.key, 0) >= 0 {
        entries.update(key_index(entries, e.key, 0), e)
    } else if entries.len() < FIREWALL_RULES_MAX_ENTRIES {
        entries.push(e)
    } else {
        entries
    }
}

/// The set of prefix lengths after adding `c`: present keys stay, a new key
/// is added while there is room.
pub open spec fn cidr_insert(cidrs: Seq<u16>, c: u16) -> Seq<u16> {
    if cidrs.contains(c) {
        cidrs
    } else if cidrs.len() < FIREWALL_CIDRS_MAX_ENTRIES {
        cidrs.push(c)
    } else {
        cidrs
    }
}

/// The trie after inserting the nodes of `rules` in order.
pub open spec fn insert_rules(entries: Seq<LpmEntry>, rules: Seq<FirewallRuleData>) -> Seq<
    LpmEntry,
>
    decreases rules.len(),
{
    if rules.len() == 0 {
        entries
    } else {
        trie_insert(insert_rules(entries, rules.drop_last()), entry_of(rules.last()))
    }
}

/// The set of prefix lengths after adding the lengths of `rules` in order.
pub open spec fn insert_cidrs(cidrs: Seq<u16>, rules: Seq<FirewallRuleData>) -> Seq<u16>
    decreases rules.len(),
{
    if rules.len() == 0 {
        cidrs
    } else {
        cidr_insert(insert_cidrs(cidrs, rules.drop_last()), rules.last().cidr)
    }
}

/// First node from index `i` on with key length exactly `len` that covers `addr`.
pub open spec fn exact_match(entries: Seq<LpmEntry>, len: u32, addr: u32, i: int) -> Option<
    LpmEntry,
>
    decreases entries.len() - i,
{
    if i < 0 || i >= entries.len() {
        None
    } else if entries[i].key.prefix_len == len && covers(entries[i].key.addr, len, addr) {
        Some(entries[i])
    } else {
        exact_match(entries, len, addr, i + 1)
    }
}

/// A trie lookup with the key `(max_len, addr)`: the node covering `addr`
/// with the longest prefix not above `max_len`.
pub open spec fn probe(entries: Seq<LpmEntry>, max_len: nat, addr: u32) -> Option<LpmEntry>
    decreases max_len,
{
    match exact_match(entries, max_len as u32, addr, 0) {
        Some(e) => Some(e),
        None => if max_len == 0 {
            None
        } else {
            probe(entries, (max_len - 1) as nat, addr)
        },
    }
}

/// The classifier's scan from length `len` down to 0: the first length in
/// the set of prefix lengths whose probe hits gives the rule.
pub open spec fn scan(t: RuleTableView, len: nat, addr: u32) -> Option<LpmEntry>
    decreases len,
{
    if t.cidrs.contains(len as u16) && probe(t.entries, len, addr) is Some {
        probe(t.entries, len, addr)
    } else if len == 0 {
        None
    } else {
        scan(t, (len - 1) as nat, addr)
    }
}

impl RuleTableView {
    /// The node that decides for a packet from `addr`, if any.
    pub open spec fn matched(self, addr: u32) -> Option<LpmEntry> {
        scan(self, MAX_PREFIX_LEN as nat, addr)
    }

    /// The kernel maps' own invariants: keys are unique and of at most 32
    /// bits, and neither map is over its capacity.
    pub open spec fn wf(self) -> bool {
        &&& self.entries.len() <= FIREWALL_RULES_MAX_ENTRIES
        &&& self.cidrs.len() <= FIREWALL_CIDRS_MAX_ENTRIES
        &&& self.cidrs.no_duplicates()
        &&& forall|i: int|
            0 <= i < self.entries.len() ==> #[trigger] self.entries[i].key.prefix_len
                <= MAX_PREFIX_LEN
        &&& forall|i: int, j: int|
            0 <= i < self.entries.len() && 0 <= j < self.entries.len() && i != j ==> !same_key(
                #[trigger] self.entries[i].key,
                #[trigger] self.entries[j].key,
            )
    }
}

/// The firewall's kernel state: the LPM trie of rules and the set of prefix
/// lengths that the classifier probes.
pub struct RuleTable {
    entries: Vec<LpmEntry>,
    cidrs: Vec<u16>,
}

impl View for RuleTable {
    type V = RuleTableView;

    closed spec fn view(&self) -> RuleTableView {
        RuleTableView { entries: self.entries@, cidrs: self.cidrs@ }
    }
}


proof fn lemma_key_index(entries: Seq<LpmEntry>, k: LpmKey, i: int)
    requires
        0 <= i <= entries.len(),
    ensures
        key_index(entries, k, i) == -1 ==> forall|j: int|
            i <= j < entries.len() ==> !same_key(#[trigger] entries[j].key, k),
        key_index(entries, k, i) != -1 ==> i <= key_index(entries, k, i) < entries.len()
            && same_key(entries[key_index(entries, k, i)].key, k),
    decreases entries.len() - i,
{
    if i < entries.len() {
        lemma_key_index(entries, k, i + 1);
    }
}

/// The reconciled state: the trie holds exactly the served rules, the set of
/// prefix lengths has gained theirs.
pub open spec fn reconciled(t: RuleTableView, rules: Seq<FirewallRuleData>) -> RuleTableView {
    RuleTableView {
        entries: insert_rules(Seq::<LpmEntry>::empty(), rules),
        cidrs: insert_cidrs(t.cidrs, rules),
    }
}

impl RuleTable {
    /// Both maps empty.
    pub fn new() -> (t: RuleTable)
        ensures
            t@.entries == Seq::<LpmEntry>::empty(),
            t@.cidrs == Seq::<u16>::empty(),
            t@.wf(),
    {
        RuleTable { entries: Vec::new(), cidrs: Vec::new() }
    }

    /// The trie's nodes.
    pub fn entries(&self) -> (r: Vec<LpmEntry>)
        ensures
            r@ == self@.entries,
    {
        self.entries.clone()
    }

    /// The prefix lengths.
    pub fn cidrs(&self) -> (r: Vec<u16>)
        ensures
            r@ == self@.cidrs,
    {
        self.cidrs.clone()
    }

    /// Whether `c` is in the set of prefix lengths.
    pub fn has_cidr(&self, c: u16) -> (r: bool)
        ensures
            r == self@.cidrs.contains(c),
    {
        let mut i: usize = 0;
        while i < self.cidrs.len()
            invariant
                0 <= i <= self.cidrs@.len(),
                forall|j: int| 0 <= j < i ==> self.cidrs@[j] != c,
            decreases self.cidrs@.len() - i,
        {
            if self.cidrs[i] == c {
                return true;
            }
            i = i + 1;
        }
        false
    }

    /// The node with key length exactly `len` covering `addr`.
    fn find_exact(&self, len: u32, addr: u32) -> (r: Option<LpmEntry>)
        ensures
            r == exact_match(self@.entries, len, addr, 0),
    {
        let mut i: usize = 0;
        while i < self.entries.len()
            invariant
                0 <= i <= self.entries@.len(),
                exact_match(self@.entries, len, addr, 0) == exact_match(
                    self@.entries,
                    len,
                    addr,
                    i as int,
                ),
            decreases self.entries@.len() - i,
        {
            let e = self.entries[i];
            if e.key.prefix_len == len && prefix_covers(e.key.addr, len, addr) {
                return Some(e);
            }
            i = i + 1;
        }
        None
    }

    /// A trie lookup with the key `(max_len, addr)`.
    pub fn probe(&self, max_len: u32, addr: u32) -> (r: Option<LpmEntry>)
        ensures
            r == probe(self@.entries, max_len as nat, addr),
    {
        let mut l: u32 = max_len;
        loop
            invariant
                l <= max_len,
                probe(self@.entries, max_len as nat, addr) == probe(self@.entries, l as nat, addr),
            decreases l,
        {
            if let Some(e) = self.find_exact(l, addr) {
                return Some(e);
            }
            if l == 0 {
                return None;
            }
            l = l - 1;
        }
    }

    /// The rule that decides for a packet from `addr`: lengths from 32 down
    /// to 0 are probed if they are in the set of prefix lengths, and the
    /// first hit is taken.
    pub fn lookup(&self, addr: u32) -> (r: Option<LpmEntry>)
        ensures
            r == self@.matched(addr),
    {
        let mut l: u16 = 32;
        loop
            invariant
                l <= 32,
                self@.matched(addr) == scan(self@, l as nat, addr),
            decreases l,
        {
            if self.has_cidr(l) {
                if let Some(e) = self.probe(l as u32, addr) {
                    return Some(e);
                }
            }
            if l == 0 {
                return None;
            }
            l = l - 1;
        }
    }
    /// Index of the node whose key is `k`, if any.
    fn key_position(&self, k: LpmKey) -> (r: Option<usize>)
        ensures
            match r {
                Some(i) => key_index(self@.entries, k, 0) == i as int,
                None => key_index(self@.entries, k, 0) == -1,
            },
    {
        let mut i: usize = 0;
        while i < self.entries.len()
            invariant
                0 <= i <= self.entries@.len(),
                key_index(self@.entries, k, 0) == key_index(self@.entries, k, i as int),
            decreases self.entries@.len() - i,
        {
            let e = self.entries[i];
            if e.key.prefix_len == k.prefix_len && prefix_covers(e.key.addr, e.key.prefix_len, k.addr) {
                return Some(i);
            }
            i = i + 1;
        }
        None
    }

    /// Kernel update of the trie with `e`; false where the kernel refuses it
    /// (a key longer than 32 bits, or a new key in a full trie).
    pub fn insert(&mut self, e: LpmEntry) -> (ok: bool)
        requires
            old(self)@.wf(),
        ensures
            final(self)@.entries == trie_insert(old(self)@.entries, e),
            final(self)@.cidrs == old(self)@.cidrs,
            final(self)@.wf(),
            ok == (e.key.prefix_len <= MAX_PREFIX_LEN && (key_index(old(self)@.entries, e.key, 0)
                >= 0 || old(self)@.entries.len() < FIREWALL_RULES_MAX_ENTRIES)),
    {
        if e.key.prefix_len > MAX_PREFIX_LEN {
            return false;
        }
        proof {
            lemma_key_index(self@.entries, e.key, 0);
        }
        match self.key_position(e.key) {
            Some(i) => {
                self.entries.set(i, e);
                true
            },
            None => {
                if self.entries.len() < FIREWALL_RULES_MAX_ENTRIES {
                    self.entries.push(e);
                    true
                } else {
                    false
                }
            },
        }
    }

    /// Adds `c` to the set of prefix lengths; false where the set is full
    /// and lacks it.
    pub fn add_cidr(&mut self, c: u16) -> (ok: bool)
        requires
            old(self)@.wf(),
        ensures
            final(self)@.cidrs == cidr_insert(old(self)@.cidrs, c),
            final(self)@.entries == old(self)@.entries,
            final(self)@.wf(),
            ok == final(self)@.cidrs.contains(c),
    {
        if self.has_cidr(c) {
            return true;
        }
        if self.cidrs.len() < FIREWALL_CIDRS_MAX_ENTRIES {
            self.cidrs.push(c);
            assert(self@.cidrs.last() == c);
            true
        } else {
            false
        }
    }

    /// Empties the trie.
    pub fn clear_rules(&mut self)
        requires
            old(self)@.wf(),
        ensures
            final(self)@.entries == Seq::<LpmEntry>::empty(),
            final(self)@.cidrs == old(self)@.cidrs,
            final(self)@.wf(),
    {
        self.entries = Vec::new();
    }
}

/// Replaces the trie's contents by the served rules, inserted in order.
/// Refused inserts are skipped, as the kernel skips them.
pub fn configure_firewall_rules(table: &mut RuleTable, data: &Vec<FirewallRuleData>)
    requires
        old(table)@.wf(),
    ensures
        final(table)@.entries == insert_rules(Seq::<LpmEntry>::empty(), data@),
        final(table)@.cidrs == old(table)@.cidrs,
        final(table)@.wf(),
{
    table.clear_rules();
    let mut i: usize = 0;
    while i < data.len()
        invariant
            0 <= i <= data@.len(),
            table@.wf(),
            table@.cidrs == old(table)@.cidrs,
            table@.entries == insert_rules(Seq::<LpmEntry>::empty(), data@.subrange(0, i as int)),
        decreases data@.len() - i,
    {
        let e = rule_entry(&data[i]);
        let _ = table.insert(e);
        proof {
            assert(data@.subrange(0, i + 1).drop_last() =~= data@.subrange(0, i as int));
        }
        i = i + 1;
    }
    assert(data@.subrange(0, data@.len() as int) =~= data@);
}

/// Adds the prefix length of every served rule to the set, in order.
pub fn configure_firewall_cidrs(table: &mut RuleTable, data: &Vec<FirewallRuleData>)
    requires
        old(table)@.wf(),
    ensures
        final(table)@.cidrs == insert_cidrs(old(table)@.cidrs, data@),
        final(table)@.entries == old(table)@.entries,
        final(table)@.wf(),
{
    let mut i: usize = 0;
    while i < data.len()
        invariant
            0 <= i <= data@.len(),
            table@.wf(),
            table@.entries == old(table)@.entries,
            table@.cidrs == insert_cidrs(old(table)@.cidrs, data@.subrange(0, i as int)),
        decreases data@.len() - i,
    {
        let _ = table.add_cidr(data[i].cidr);
        proof {
            assert(data@.subrange(0, i + 1).drop_last() =~= data@.subrange(0, i as int));
        }
        i = i + 1;
    }
    assert(data@.subrange(0, data@.len() as int) =~= data@);
}

/// One reconciler tick on the outcome of fetching the ruleset: on success
/// the trie is rebuilt from it and its prefix lengths are added; on failure
/// nothing changes and the error is handed back.
pub fn reconcile(table: &mut RuleTable, fetched: &Result<Vec<FirewallRuleData>, String>) -> (r:
    Result<(), String>)
    requires
        old(table)@.wf(),
    ensures
        final(table)@.wf(),
        match fetched {
            Ok(data) => r is Ok && final(table)@ == reconciled(old(table)@, data@),
            Err(e) => final(table)@ == old(table)@ && (r matches Err(m) && m@ == e@),
        },
{
    match fetched {
        Ok(data) => {
            configure_firewall_rules(table, data);
            configure_firewall_cidrs(table, data);
            Ok(())
        },
        Err(e) => Err(e.clone()),
    }
}

} // verus!

verus! {

/// The prefix lengths that a ruleset names.
pub open spec fn rule_cidrs(rules: Seq<FirewallRuleData>) -> Set<u16> {
    rules.map_values(|r: FirewallRuleData| r.cidr).to_set()
}

proof fn lemma_insert_cidrs_keeps(c: Seq<u16>, rules: Seq<FirewallRuleData>)
    ensures
        insert_cidrs(c, rules).len() >= c.len(),
        forall|v: u16| c.contains(v) ==> insert_cidrs(c, rules).contains(v),
        forall|k: int|
            0 <= k < rules.len() ==> insert_cidrs(c, rules).contains(#[trigger] rules[k].cidr)
                || insert_cidrs(c, rules).len() >= FIREWALL_CIDRS_MAX_ENTRIES,
    decreases rules.len(),
{
    if rules.len() > 0 {
        let r0 = rules.drop_last();
        lemma_insert_cidrs_keeps(c, r0);
        let c0 = insert_cidrs(c, r0);
        let x = rules.last().cidr;
        if !c0.contains(x) && c0.len() < FIREWALL_CIDRS_MAX_ENTRIES {
            assert(c0.push(x).last() == x);
            assert forall|v: u16| c0.contains(v) implies #[trigger] c0.push(x).contains(v) by {
                let j = choose|j: int| 0 <= j < c0.len() && c0[j] == v;
                assert(c0.push(x)[j] == v);
            }
        }
        assert forall|k: int| 0 <= k < rules.len() implies insert_cidrs(c, rules).contains(
            #[trigger] rules[k].cidr,
        ) || insert_cidrs(c, rules).len() >= FIREWALL_CIDRS_MAX_ENTRIES by {
            if k < rules.len() - 1 {
                assert(r0[k] == rules[k]);
            }
        }
    }
}

proof fn lemma_insert_cidrs_stable(cc: Seq<u16>, c: Seq<u16>, rules: Seq<FirewallRuleData>)
    requires
        cc == insert_cidrs(c, rules),
    ensures
        insert_cidrs(cc, rules) == cc,
    decreases rules.len(),
{
    lemma_insert_cidrs_keeps(c, rules);
    if rules.len() > 0 {
        let r0 = rules.drop_last();
        lemma_insert_cidrs_keeps(c, r0);
        let c0 = insert_cidrs(c, r0);
        let x = rules.last().cidr;
        assert(rules[rules.len() - 1].cidr == x);
        assert forall|k: int| 0 <= k < r0.len() implies cc.contains(#[trigger] r0[k].cidr)
            || cc.len() >= FIREWALL_CIDRS_MAX_ENTRIES by {
            assert(r0[k] == rules[k]);
        }
        lemma_insert_cidrs_stable_prefix(cc, r0);
    }
}

proof fn lemma_insert_cidrs_stable_prefix(cc: Seq<u16>, rules: Seq<FirewallRuleData>)
    requires
        forall|k: int|
            0 <= k < rules.len() ==> cc.contains(#[trigger] rules[k].cidr) || cc.len()
                >= FIREWALL_CIDRS_MAX_ENTRIES,
    ensures
        insert_cidrs(cc, rules) == cc,
    decreases rules.len(),
{
    if rules.len() > 0 {
        let r0 = rules.drop_last();
        assert forall|k: int| 0 <= k < r0.len() implies cc.contains(#[trigger] r0[k].cidr)
            || cc.len() >= FIREWALL_CIDRS_MAX_ENTRIES by {
            assert(r0[k] == rules[k]);
        }
        lemma_insert_cidrs_stable_prefix(cc, r0);
        assert(rules[rules.len() - 1] == rules.last());
    }
}

/// Reconciling twice with an unchanged ruleset leaves the kernel maps as
/// one reconcile left them.
pub proof fn lemma_reconcile_idempotent(t: RuleTableView, rules: Seq<FirewallRuleData>)
    ensures
        reconciled(reconciled(t, rules), rules) == reconciled(t, rules),
{
    lemma_insert_cidrs_stable(insert_cidrs(t.cidrs, rules), t.cidrs, rules);
}

proof fn lemma_insert_cidrs_set(c: Seq<u16>, rules: Seq<FirewallRuleData>)
    requires
        c.no_duplicates(),
        (c.to_set() + rule_cidrs(rules)).len() <= FIREWALL_CIDRS_MAX_ENTRIES,
    ensures
        insert_cidrs(c, rules).no_duplicates(),
        insert_cidrs(c, rules).to_set() == c.to_set() + rule_cidrs(rules),
    decreases rules.len(),
{
    let f = |r: FirewallRuleData| r.cidr;
    if rules.len() == 0 {
        assert(rules.map_values(f) =~= Seq::<u16>::empty());
        assert(rule_cidrs(rules) =~= Set::<u16>::empty());
        assert(c.to_set() + rule_cidrs(rules) =~= c.to_set());
    } else {
        let r0 = rules.drop_last();
        let x = rules.last().cidr;
        assert(rules.map_values(f) =~= r0.map_values(f).push(x));
        r0.map_values(f).lemma_push_to_set_commute(x);
        let u0 = c.to_set() + rule_cidrs(r0);
        let u = c.to_set() + rule_cidrs(rules);
        assert(u =~= u0.insert(x));
        seq_to_set_is_finite(c);
        seq_to_set_is_finite(r0.map_values(f));
        lemma_len_subset(u0, u);
        lemma_insert_cidrs_set(c, r0);
        let c0 = insert_cidrs(c, r0);
        if c0.contains(x) {
            assert(u0.contains(x));
            assert(u =~= u0);
        } else {
            assert(!c0.to_set().contains(x));
            c0.unique_seq_to_set();
            assert(c0.len() < FIREWALL_CIDRS_MAX_ENTRIES);
            c0.lemma_push_to_set_commute(x);
            assert(c0.push(x).no_duplicates()) by {
                assert forall|i: int, j: int|
                    0 <= i < c0.push(x).len() && 0 <= j < c0.push(x).len() && i != j implies #[trigger] c0.push(
                    x,
                )[i] != #[trigger] c0.push(x)[j] by {
                    if i < c0.len() && j < c0.len() {
                    } else if i < c0.len() {
                        assert(c0.contains(c0[i]));
                    } else {
                        assert(c0.contains(c0[j]));
                    }
                }
            }
        }
    }
}

/// After a reconcile, the set of prefix lengths holds exactly the lengths it
/// held before and every length that the ruleset names, so each rule's
/// length is probed. This needs room for them all: the kernel set holds at
/// most 32 lengths.
pub proof fn lemma_reconcile_covers_cidrs(t: RuleTableView, rules: Seq<FirewallRuleData>)
    requires
        t.wf(),
        (t.cidrs.to_set() + rule_cidrs(rules)).len() <= FIREWALL_CIDRS_MAX_ENTRIES,
    ensures
        reconciled(t, rules).cidrs.to_set() == t.cidrs.to_set() + rule_cidrs(rules),
        forall|i: int| 0 <= i < rules.len() ==> reconciled(t, rules).cidrs.contains(#[trigger] rules[i].cidr),
{
    lemma_insert_cidrs_set(t.cidrs, rules);
    let f = |r: FirewallRuleData| r.cidr;
    assert forall|i: int| 0 <= i < rules.len() implies reconciled(t, rules).cidrs.contains(
        #[trigger] rules[i].cidr,
    ) by {
        assert(rules.map_values(f)[i] == rules[i].cidr);
        assert(rules.map_values(f).contains(rules[i].cidr));
        assert(rule_cidrs(rules).contains(rules[i].cidr));
        assert(reconciled(t, rules).cidrs.to_set().contains(rules[i].cidr));
    }
}

} // verus!

verus! {

proof fn lemma_exact_match(entries: Seq<LpmEntry>, len: u32, addr: u32, i: int)
    requires
        0 <= i,
    ensures
        exact_match(entries, len, addr, i) matches Some(e) ==> exists|k: int|
            i <= k < entries.len() && entries[k] == e && e.key.prefix_len == len && covers(
                e.key.addr,
                len,
                addr,
            ),
        exact_match(entries, len, addr, i) is None ==> forall|k: int|
            i <= k < entries.len() && #[trigger] entries[k].key.prefix_len == len ==> !covers(
                entries[k].key.addr,
                len,
                addr,
            ),
    decreases entries.len() - i,
{
    if i < entries.len() {
        lemma_exact_match(entries, len, addr, i + 1);
    }
}

proof fn lemma_probe(entries: Seq<LpmEntry>, max_len: nat, addr: u32)
    requires
        max_len <= MAX_PREFIX_LEN,
    ensures
        probe(entries, max_len, addr) matches Some(e) ==> exists|k: int|
            0 <= k < entries.len() && entries[k] == e && e.key.prefix_len <= max_len && covers(
                e.key.addr,
                e.key.prefix_len,
                addr,
            ),
        probe(entries, max_len, addr) matches Some(e) ==> forall|k: int|
            0 <= k < entries.len() && #[trigger] entries[k].key.prefix_len <= max_len && covers(
                entries[k].key.addr,
                entries[k].key.prefix_len,
                addr,
            ) ==> entries[k].key.prefix_len <= e.key.prefix_len,
        probe(entries, max_len, addr) is None ==> forall|k: int|
            0 <= k < entries.len() && #[trigger] entries[k].key.prefix_len <= max_len ==> !covers(
                entries[k].key.addr,
                entries[k].key.prefix_len,
                addr,
            ),
    decreases max_len,
{
    lemma_exact_match(entries, max_len as u32, addr, 0);
    if max_len > 0 {
        lemma_probe(entries, (max_len - 1) as nat, addr);
    }
}

proof fn lemma_scan(t: RuleTableView, len: nat, addr: u32, k: int)
    requires
        len <= 32,
        0 <= k < t.entries.len(),
        t.entries[k].key.prefix_len <= len,
        covers(t.entries[k].key.addr, t.entries[k].key.prefix_len, addr),
        t.cidrs.contains(t.entries[k].key.prefix_len as u16),
    ensures
        scan(t, len, addr) matches Some(e) && e.key.prefix_len >= t.entries[k].key.prefix_len
            && exists|m: int|
            0 <= m < t.entries.len() && t.entries[m] == e && covers(
                e.key.addr,
                e.key.prefix_len,
                addr,
            ),
    decreases len,
{
    lemma_probe(t.entries, len, addr);
    if t.cidrs.contains(len as u16) && probe(t.entries, len, addr) is Some {
    } else {
        assert(len != t.entries[k].key.prefix_len);
        lemma_scan(t, (len - 1) as nat, addr, k);
    }
}

/// Longest prefix wins: where two nodes cover an address and the longer one's
/// length is in the set of prefix lengths, the shorter one is not selected,
/// the selected one is at least as long, and it is the longer one itself when
/// no node covering the address is longer still.
pub proof fn lemma_longest_prefix_wins(t: RuleTableView, addr: u32, i: int, j: int)
    requires
        t.wf(),
        0 <= i < t.entries.len(),
        0 <= j < t.entries.len(),
        covers(t.entries[i].key.addr, t.entries[i].key.prefix_len, addr),
        covers(t.entries[j].key.addr, t.entries[j].key.prefix_len, addr),
        t.entries[i].key.prefix_len > t.entries[j].key.prefix_len,
        t.cidrs.contains(t.entries[i].key.prefix_len as u16),
    ensures
        t.matched(addr) matches Some(e) && e.key.prefix_len >= t.entries[i].key.prefix_len,
        t.matched(addr) != Some(t.entries[j]),
        (forall|k: int|
            0 <= k < t.entries.len() && covers(
                t.entries[k].key.addr,
                #[trigger] t.entries[k].key.prefix_len,
                addr,
            ) ==> t.entries[k].key.prefix_len <= t.entries[i].key.prefix_len) ==> t.matched(addr)
            == Some(t.entries[i]),
{
    lemma_scan(t, 32, addr, i);
    let e = t.matched(addr).unwrap();
    let m = choose|m: int|
        0 <= m < t.entries.len() && t.entries[m] == e && covers(e.key.addr, e.key.prefix_len, addr);
    if forall|k: int|
        0 <= k < t.entries.len() && covers(
            t.entries[k].key.addr,
            #[trigger] t.entries[k].key.prefix_len,
            addr,
        ) ==> t.entries[k].key.prefix_len <= t.entries[i].key.prefix_len {
        assert(e.key.prefix_len == t.entries[i].key.prefix_len);
        assert(same_key(t.entries[m].key, t.entries[i].key));
    }
}

} // verus!

verus! {

/// The node selected for an address is a node of the trie that covers it.
pub proof fn lemma_matched_covers(t: RuleTableView, addr: u32)
    ensures
        t.matched(addr) matches Some(e) ==> exists|m: int|
            0 <= m < t.entries.len() && t.entries[m] == e && covers(
                e.key.addr,
                e.key.prefix_len,
                addr,
            ),
{
    lemma_scan_found(t, MAX_PREFIX_LEN as nat, addr);
}

proof fn lemma_scan_found(t: RuleTableView, len: nat, addr: u32)
    requires
        len <= MAX_PREFIX_LEN,
    ensures
        scan(t, len, addr) matches Some(e) ==> exists|m: int|
            0 <= m < t.entries.len() && t.entries[m] == e && covers(
                e.key.addr,
                e.key.prefix_len,
                addr,
            ),
    decreases len,
{
    lemma_probe(t.entries, len, addr);
    if len > 0 {
        lemma_scan_found(t, (len - 1) as nat, addr);
    }
}

} // verus!

verus! {

/// Every node that a reconcile installs is the node of one of the served rules.
pub proof fn lemma_insert_rules_origin(rules: Seq<FirewallRuleData>)
    ensures
        forall|k: int|
            0 <= k < insert_rules(Seq::<LpmEntry>::empty(), rules).len() ==> exists|m: int|
                0 <= m < rules.len() && #[trigger] insert_rules(Seq::<LpmEntry>::empty(), rules)[k]
                    == entry_of(rules[m]),
    decreases rules.len(),
{
    if rules.len() > 0 {
        let r0 = rules.drop_last();
        lemma_insert_rules_origin(r0);
        let s0 = insert_rules(Seq::<LpmEntry>::empty(), r0);
        let e = entry_of(rules.last());
        let s = insert_rules(Seq::<LpmEntry>::empty(), rules);
        lemma_key_index(s0, e.key, 0);
        assert forall|k: int| 0 <= k < s.len() implies exists|m: int|
            0 <= m < rules.len() && #[trigger] s[k] == entry_of(rules[m]) by {
            if s[k] == e {
                assert(rules[rules.len() - 1] == rules.last());
            } else {
                assert(k < s0.len() && s[k] == s0[k]);
                let m = choose|m: int| 0 <= m < r0.len() && s0[k] == entry_of(r0[m]);
                assert(r0[m] == rules[m]);
            }
        }
    }
}

proof fn lemma_trie_insert_wf(entries: Seq<LpmEntry>, cidrs: Seq<u16>, e: LpmEntry)
    requires
        (RuleTableView { entries, cidrs }).wf(),
    ensures
        (RuleTableView { entries: trie_insert(entries, e), cidrs }).wf(),
{
    lemma_key_index(entries, e.key, 0);
}

proof fn lemma_insert_rules_wf(cidrs: Seq<u16>, rules: Seq<FirewallRuleData>)
    requires
        (RuleTableView { entries: Seq::<LpmEntry>::empty(), cidrs }).wf(),
    ensures
        (RuleTableView { entries: insert_rules(Seq::<LpmEntry>::empty(), rules), cidrs }).wf(),
    decreases rules.len(),
{
    if rules.len() > 0 {
        lemma_insert_rules_wf(cidrs, rules.drop_last());
        lemma_trie_insert_wf(
            insert_rules(Seq::<LpmEntry>::empty(), rules.drop_last()),
            cidrs,
            entry_of(rules.last()),
        );
    }
}

/// Longest prefix wins over a reconciled ruleset: after a reconcile that
/// leaves room for every prefix length the ruleset names, where two of the
/// installed nodes cover an address, the shorter one is not selected, the
/// selected one is at least as long as the longer one, and it is the longer
/// one itself when no installed node covering the address is longer still.
pub proof fn lemma_reconciled_longest_prefix_wins(
    t: RuleTableView,
    rules: Seq<FirewallRuleData>,
    addr: u32,
    i: int,
    j: int,
)
    requires
        t.wf(),
        (t.cidrs.to_set() + rule_cidrs(rules)).len() <= FIREWALL_CIDRS_MAX_ENTRIES,
        0 <= i < reconciled(t, rules).entries.len(),
        0 <= j < reconciled(t, rules).entries.len(),
        covers(
            reconciled(t, rules).entries[i].key.addr,
            reconciled(t, rules).entries[i].key.prefix_len,
            addr,
        ),
        covers(
            reconciled(t, rules).entries[j].key.addr,
            reconciled(t, rules).entries[j].key.prefix_len,
            addr,
        ),
        reconciled(t, rules).entries[i].key.prefix_len > reconciled(
            t,
            rules,
        ).entries[j].key.prefix_len,
    ensures
        reconciled(t, rules).matched(addr) matches Some(e) && e.key.prefix_len >= reconciled(
            t,
            rules,
        ).entries[i].key.prefix_len,
        reconciled(t, rules).matched(addr) != Some(reconciled(t, rules).entries[j]),
        (forall|k: int|
            0 <= k < reconciled(t, rules).entries.len() && covers(
                reconciled(t, rules).entries[k].key.addr,
                #[trigger] reconciled(t, rules).entries[k].key.prefix_len,
                addr,
            ) ==> reconciled(t, rules).entries[k].key.prefix_len <= reconciled(
                t,
                rules,
            ).entries[i].key.prefix_len) ==> reconciled(t, rules).matched(addr) == Some(
            reconciled(t, rules).entries[i],
        ),
{
    let r = reconciled(t, rules);
    lemma_reconcile_covers_cidrs(t, rules);
    lemma_insert_cidrs_set(t.cidrs, rules);
    r.cidrs.unique_seq_to_set();
    let u = t.cidrs.to_set() + rule_cidrs(rules);
    let c0 = RuleTableView { entries: Seq::<LpmEntry>::empty(), cidrs: r.cidrs };
    assert(c0.wf());
    lemma_insert_rules_wf(r.cidrs, rules);
    assert(r == RuleTableView { entries: insert_rules(Seq::<LpmEntry>::empty(), rules), cidrs: r.cidrs });
    lemma_insert_rules_origin(rules);
    let m = choose|m: int| 0 <= m < rules.len() && r.entries[i] == entry_of(rules[m]);
    assert(r.cidrs.contains(rules[m].cidr));
    assert(r.entries[i].key.prefix_len as u16 == rules[m].cidr);
    lemma_longest_prefix_wins(r, addr, i, j);
}

} // verus!
