//! Network diagnosis.
//!
//! Telling someone to check the firewall does not help: traffic can die while
//! the firewall's own rules are correct, because a third tool wrote a table of
//! its own. Diagnosis therefore names the rule.

use vstd::prelude::*;
use vstd::string::*;

verus! {

/// A foreign rule that hijacks traffic, with its table.
#[derive(Debug)]
pub struct HijackRule {
    pub table: String,
    pub rule: String,
    pub why: String,
}

/// A rule as plain text.
#[verifier::ext_equal]
pub struct HijackView {
    pub table: Seq<char>,
    pub rule: Seq<char>,
    pub why: Seq<char>,
}

impl View for HijackRule {
    type V = HijackView;

    open spec fn view(&self) -> HijackView {
        HijackView { table: self.table@, rule: self.rule@, why: self.why@ }
    }
}

/// Rules as plain text.
pub open spec fn rules_of(v: Seq<HijackRule>) -> Seq<HijackView> {
    v.map_values(|r: HijackRule| r@)
}

/// The state of the network.
#[derive(Debug)]
pub struct NetDiagnosis {
    pub bridge_up: bool,
    pub bridge_addr: Option<String>,
    pub dnsmasq_running: bool,
    pub ip_forward: bool,
    pub waydroid_nat: bool,
    pub lease_present: bool,
    pub active_firewall: String,
    /// Foreign rules that hijack the bridge's traffic.
    pub hijack_rules: Vec<HijackRule>,
    pub problems: Vec<String>,
}

pub open spec fn hijack_reason() -> Seq<char> {
    "DNS queries are redirected to another resolver; an external packet aimed at a loopback address is refused (ECONNREFUSED)"@
}

/// The table that a line opens, if it opens one.
pub open spec fn table_opened(line: Seq<char>) -> Option<Seq<char>> {
    match crate::text::stripped(crate::words::trimmed(line), "table "@) {
        Some(rest) => Some(crate::text::without_endings(rest, " {"@)),
        None => None,
    }
}

/// The table that the first `n` lines lead into.
pub open spec fn table_after(l: Seq<Seq<char>>, n: int) -> Seq<char>
    decreases n,
{
    if n <= 0 {
        Seq::empty()
    } else {
        match table_opened(l[n - 1]) {
            Some(t) => t,
            None => table_after(l, n - 1),
        }
    }
}

/// The container's own tables are legitimate.
pub open spec fn own_table(t: Seq<char>) -> bool {
    crate::text::closes_with(t, " lxc"@) || crate::text::closes_with(t, "liwdiag"@)
}

/// A rule that sends name lookups elsewhere.
pub open spec fn redirects_dns(t: Seq<char>) -> bool {
    crate::text::occurs(t, "dport 53"@) && crate::text::occurs(t, "dnat to"@)
}

/// The foreign rules in the first `n` lines.
pub open spec fn hijacks(l: Seq<Seq<char>>, n: int) -> Seq<HijackView>
    decreases n,
{
    if n <= 0 {
        Seq::empty()
    } else {
        let table = table_after(l, n);
        let t = crate::words::trimmed(l[n - 1]);
        if !own_table(table) && redirects_dns(t) {
            hijacks(l, n - 1).push(HijackView { table, rule: t, why: hijack_reason() })
        } else {
            hijacks(l, n - 1)
        }
    }
}

/// Finds foreign rules that could hijack the container's traffic.
///
/// Several base chains run on the same hook, and if one drops or redirects a
/// packet no accept from the others can override it.
pub fn find_hijacks(ruleset: &str) -> (r: Vec<HijackRule>)
    ensures
        rules_of(r@) == hijacks(
            crate::words::lines_of(ruleset@),
            crate::words::lines_of(ruleset@).len() as int,
        ),
{
    let l: Vec<String> = crate::words::lines(ruleset);
    let ghost ls = crate::words::lines_of(ruleset@);
    let mut found: Vec<HijackRule> = Vec::new();
    let mut table: String = String::new();
    let mut i: usize = 0;
    assert(rules_of(found@) =~= Seq::<HijackView>::empty());
    assert(table@ =~= Seq::<char>::empty());
    proof {
        reveal_strlit(" {");
    }
    while i < l.len()
        invariant
            i <= l@.len(),
            ls == crate::text::texts(l@),
            " {"@.len() > 0,
            table@ == table_after(ls, i as int),
            rules_of(found@) == hijacks(ls, i as int),
        decreases l@.len() - i,
    {
        assert(ls[i as int] == l@[i as int]@);
        let t: String = crate::words::trim(l[i].as_str());
        if let Some(rest) = crate::text::strip_prefix(t.as_str(), "table ") {
            table = crate::text::trim_endings(rest.as_str(), " {");
        }
        assert(table@ == table_after(ls, i + 1));
        if !crate::text::ends_with(table.as_str(), " lxc") && !crate::text::ends_with(
            table.as_str(),
            "liwdiag",
        ) && crate::text::contains(t.as_str(), "dport 53") && crate::text::contains(
            t.as_str(),
            "dnat to",
        ) {
            let ghost before = rules_of(found@);
            let rule = HijackRule {
                table: table.clone(),
                rule: t,
                why:
                    "DNS queries are redirected to another resolver; an external packet aimed at a loopback address is refused (ECONNREFUSED)".to_owned(),
            };
            found.push(rule);
            assert(rules_of(found@) =~= before.push(rule@));
        }
        i = i + 1;
    }
    found
}

// ---------------------------------------------------------------- diagnosis

/// The firewall services looked for, in order.
pub open spec fn firewalls() -> Seq<Seq<char>> {
    seq!["ufw"@, "firewalld"@, "nftables"@, "iptables"@]
}

/// The first firewall that is active.
pub open spec fn firewall_from(active: Seq<bool>, i: int) -> Seq<char>
    decreases 4 - i,
{
    if i >= 4 {
        "none"@
    } else if active[i] {
        firewalls()[i]
    } else {
        firewall_from(active, i + 1)
    }
}

/// The first firewall that is active; `ufw`, `firewalld`, `nftables` and
/// `iptables` tell which services are.
pub fn active_firewall(ufw: bool, firewalld: bool, nftables: bool, iptables: bool) -> (r: String)
    ensures
        r@ == firewall_from(seq![ufw, firewalld, nftables, iptables], 0),
{
    reveal_with_fuel(firewall_from, 5);
    if ufw {
        "ufw".to_owned()
    } else if firewalld {
        "firewalld".to_owned()
    } else if nftables {
        "nftables".to_owned()
    } else if iptables {
        "iptables".to_owned()
    } else {
        "none".to_owned()
    }
}

/// What was looked at.
#[derive(Debug)]
pub struct Probe {
    /// The bridge's addresses, as the tool lists them.
    pub addresses: String,
    pub dnsmasq_running: bool,
    /// The kernel's forwarding switch, if it can be read.
    pub forwarding: Option<String>,
    /// The lease file is there and not empty.
    pub lease_present: bool,
    pub firewall: String,
    pub ruleset: String,
}

/// One problem, if there is one.
pub open spec fn problem(there: bool, text: Seq<char>) -> Seq<Seq<char>> {
    if there {
        seq![text]
    } else {
        Seq::empty()
    }
}

/// What a hijacking rule is called among the problems.
pub open spec fn hijack_problem(h: HijackView) -> Seq<char> {
    "a rule in table '"@ + h.table + "' hijacks DNS: "@ + h.rule
}

/// The problems of a network, in order.
pub open spec fn problems(
    bridge_up: bool,
    dnsmasq: bool,
    forward: bool,
    masquerade: bool,
    lease: bool,
    h: Seq<HijackView>,
) -> Seq<Seq<char>> {
    problem(!bridge_up, "no waydroid0 bridge"@) + problem(!dnsmasq, "dnsmasq is not running"@)
        + problem(!forward, "ip_forward is off"@) + problem(!masquerade, "no NAT/masquerade rule"@)
        + problem(!lease, "no DHCP lease — the container got no IP"@) + h.map_values(
        |x: HijackView| hijack_problem(x),
    )
}

/// The fourth word, which is where the tool puts the address.
pub open spec fn fourth_word(s: Seq<char>) -> Option<Seq<char>> {
    let w = crate::words::words_of(s);
    if w.len() > 3 {
        Some(w[3])
    } else {
        None
    }
}

/// The switch says on.
pub open spec fn switched_on(s: Option<Seq<char>>) -> bool {
    match s {
        Some(t) => crate::words::trimmed(t) == "1"@,
        None => false,
    }
}

/// Puts together what was looked at.
pub fn diagnose(p: &Probe) -> (r: NetDiagnosis)
    ensures
        r.bridge_up == (crate::words::trimmed(p.addresses@).len() > 0),
        crate::text::some_text(r.bridge_addr) == fourth_word(p.addresses@),
        r.dnsmasq_running == p.dnsmasq_running,
        r.ip_forward == switched_on(crate::text::some_text(p.forwarding)),
        r.waydroid_nat == crate::text::occurs(p.ruleset@, "masquerade"@),
        r.lease_present == p.lease_present,
        r.active_firewall@ == p.firewall@,
        rules_of(r.hijack_rules@) == hijacks(
            crate::words::lines_of(p.ruleset@),
            crate::words::lines_of(p.ruleset@).len() as int,
        ),
        crate::text::texts(r.problems@) == problems(
            r.bridge_up,
            r.dnsmasq_running,
            r.ip_forward,
            r.waydroid_nat,
            r.lease_present,
            rules_of(r.hijack_rules@),
        ),
{
    let addr: String = crate::words::trim(p.addresses.as_str());
    let bridge_up: bool = addr.as_str().unicode_len() > 0;
    let w: Vec<String> = crate::words::words(p.addresses.as_str());
    let bridge_addr: Option<String> = if w.len() > 3 {
        assert(crate::text::texts(w@)[3] == w@[3]@);
        Some(w[3].clone())
    } else {
        None
    };
    let ip_forward: bool = match &p.forwarding {
        Some(s) => {
            let t: String = crate::words::trim(s.as_str());
            crate::text::same(t.as_str(), "1")
        },
        None => false,
    };
    let waydroid_nat: bool = crate::text::contains(p.ruleset.as_str(), "masquerade");
    let hijack_rules: Vec<HijackRule> = find_hijacks(p.ruleset.as_str());
    let ghost h = rules_of(hijack_rules@);
    let mut out: Vec<String> = crate::say::page();
    if !bridge_up {
        crate::say::say(&mut out, "no waydroid0 bridge");
    }
    if !p.dnsmasq_running {
        crate::say::say(&mut out, "dnsmasq is not running");
    }
    if !ip_forward {
        crate::say::say(&mut out, "ip_forward is off");
    }
    if !waydroid_nat {
        crate::say::say(&mut out, "no NAT/masquerade rule");
    }
    if !p.lease_present {
        crate::say::say(&mut out, "no DHCP lease — the container got no IP");
    }
    let ghost head = crate::text::texts(out@);
    let ghost all = h.map_values(|x: HijackView| hijack_problem(x));
    assert(head =~= problem(!bridge_up, "no waydroid0 bridge"@) + problem(
        !p.dnsmasq_running,
        "dnsmasq is not running"@,
    ) + problem(!ip_forward, "ip_forward is off"@) + problem(
        !waydroid_nat,
        "no NAT/masquerade rule"@,
    ) + problem(!p.lease_present, "no DHCP lease — the container got no IP"@));
    let mut i: usize = 0;
    assert(head + all.take(0) =~= head);
    while i < hijack_rules.len()
        invariant
            i <= hijack_rules@.len(),
            h == rules_of(hijack_rules@),
            all == h.map_values(|x: HijackView| hijack_problem(x)),
            crate::text::texts(out@) == head + all.take(i as int),
        decreases hijack_rules@.len() - i,
    {
        let x: &HijackRule = &hijack_rules[i];
        assert(h[i as int] == x@);
        crate::say::put(
            &mut out,
            crate::say::cat4(
                "a rule in table '",
                x.table.as_str(),
                "' hijacks DNS: ",
                x.rule.as_str(),
            ),
        );
        assert(head + all.take(i + 1) =~= (head + all.take(i as int)).push(all[i as int]));
        i = i + 1;
    }
    assert(all.take(i as int) =~= all);
    NetDiagnosis {
        bridge_up,
        bridge_addr,
        dnsmasq_running: p.dnsmasq_running,
        ip_forward,
        waydroid_nat,
        lease_present: p.lease_present,
        active_firewall: p.firewall.clone(),
        hijack_rules,
        problems: out,
    }
}

// ---------------------------------------------------------------- repair

/// The rules that a repair adds, as the arguments of the tool.
pub open spec fn repair_rules() -> Seq<Seq<Seq<char>>> {
    seq![
        seq![
            "allow"@,
            "in"@,
            "on"@,
            "waydroid0"@,
            "to"@,
            "any"@,
            "port"@,
            "67"@,
            "proto"@,
            "udp"@,
            "comment"@,
            "liwinux dhcp"@,
        ],
        seq![
            "allow"@,
            "in"@,
            "on"@,
            "waydroid0"@,
            "to"@,
            "any"@,
            "port"@,
            "53"@,
            "comment"@,
            "liwinux dns"@,
        ],
        seq!["route"@, "allow"@, "in"@, "on"@, "waydroid0"@, "comment"@, "liwinux outbound"@],
    ]
}

/// The rules among the first `n` that were added, as reported.
pub open spec fn added_rules(ok: Seq<bool>, n: int) -> Seq<Seq<char>>
    decreases n,
{
    if n <= 0 {
        Seq::empty()
    } else if ok[n - 1] {
        added_rules(ok, n - 1).push(
            "ufw "@ + crate::words::joined(repair_rules()[n - 1], " "@),
        )
    } else {
        added_rules(ok, n - 1)
    }
}

/// The tables of hijacking rules.
pub open spec fn tables(h: Seq<HijackView>) -> Seq<Seq<char>> {
    h.map_values(|x: HijackView| x.table)
}

/// What a repair reports: the rules it added, the foreign rules it did not
/// touch, or that there was nothing to do.
pub open spec fn repair_lines(firewall: Seq<char>, h: Seq<HijackView>, ok: Seq<bool>) -> Seq<
    Seq<char>,
> {
    let added: Seq<Seq<char>> = if firewall == "ufw"@ {
        added_rules(ok, 3)
    } else {
        Seq::empty()
    };
    let foreign: Seq<Seq<char>> = if h.len() > 0 {
        seq![
            "WARNING: "@ + crate::text::decimal(h.len())
                + " foreign rules hijack DNS; they were NOT TOUCHED. We do not silently change another tool's configuration. Tables: "@
                + crate::words::joined(tables(h), ", "@),
        ]
    } else {
        Seq::empty()
    };
    let done = added + foreign;
    if done.len() == 0 {
        seq!["nothing to do"@]
    } else {
        done
    }
}

/// Whether a repair has rules to add. It only ever adds; it removes nothing and
/// leaves foreign tables alone.
pub fn adds_rules(firewall: &str) -> (r: bool)
    ensures
        r == (firewall@ == "ufw"@),
{
    crate::text::same(firewall, "ufw")
}

/// A rule that a repair adds, as the arguments of the tool.
pub fn rule_to_add(i: usize) -> (r: Vec<String>)
    requires
        i < 3,
    ensures
        crate::text::texts(r@) == repair_rules()[i as int],
{
    let mut out: Vec<String> = crate::say::page();
    if i == 2 {
        crate::say::say(&mut out, "route");
    }
    crate::say::say(&mut out, "allow");
    crate::say::say(&mut out, "in");
    crate::say::say(&mut out, "on");
    crate::say::say(&mut out, "waydroid0");
    if i < 2 {
        crate::say::say(&mut out, "to");
        crate::say::say(&mut out, "any");
        crate::say::say(&mut out, "port");
    }
    if i == 0 {
        crate::say::say(&mut out, "67");
        crate::say::say(&mut out, "proto");
        crate::say::say(&mut out, "udp");
    } else if i == 1 {
        crate::say::say(&mut out, "53");
    }
    crate::say::say(&mut out, "comment");
    crate::say::say(
        &mut out,
        if i == 0 {
            "liwinux dhcp"
        } else if i == 1 {
            "liwinux dns"
        } else {
            "liwinux outbound"
        },
    );
    assert(crate::text::texts(out@) =~= repair_rules()[i as int]);
    out
}

/// What a repair reports. `ok` says which rules the tool accepted; it is not
/// looked at unless there were rules to add. Whole rules are written out: a
/// truncated report hides what was done.
pub fn net_repair(d: &NetDiagnosis, ok: &Vec<bool>) -> (r: String)
    requires
        d.active_firewall@ == "ufw"@ ==> ok@.len() == 3,
    ensures
        r@ == crate::words::joined(
            repair_lines(d.active_firewall@, rules_of(d.hijack_rules@), ok@),
            "\n"@,
        ),
{
    let ghost h = rules_of(d.hijack_rules@);
    let mut out: Vec<String> = crate::say::page();
    if adds_rules(d.active_firewall.as_str()) {
        let mut i: usize = 0;
        while i < 3
            invariant
                i <= 3,
                ok@.len() == 3,
                crate::text::texts(out@) == added_rules(ok@, i as int),
            decreases 3 - i,
        {
            if ok[i] {
                let args: Vec<String> = rule_to_add(i);
                let rule: String = crate::words::join(&args, " ");
                crate::say::put(&mut out, crate::say::cat2("ufw ", rule.as_str()));
            }
            i = i + 1;
        }
    }
    let ghost added = crate::text::texts(out@);
    if d.hijack_rules.len() > 0 {
        let mut names: Vec<String> = crate::say::page();
        let mut i: usize = 0;
        assert(crate::text::texts(names@) =~= tables(h).take(0));
        while i < d.hijack_rules.len()
            invariant
                i <= d.hijack_rules@.len(),
                h == rules_of(d.hijack_rules@),
                crate::text::texts(names@) == tables(h).take(i as int),
            decreases d.hijack_rules@.len() - i,
        {
            assert(h[i as int] == d.hijack_rules@[i as int]@);
            crate::say::put(&mut names, d.hijack_rules[i].table.clone());
            assert(tables(h).take(i + 1) =~= tables(h).take(i as int).push(h[i as int].table));
            i = i + 1;
        }
        assert(tables(h).take(i as int) =~= tables(h));
        let list: String = crate::words::join(&names, ", ");
        let n: String = crate::say::count(d.hijack_rules.len() as u64);
        crate::say::put(
            &mut out,
            crate::say::cat4(
                "WARNING: ",
                n.as_str(),
                " foreign rules hijack DNS; they were NOT TOUCHED. We do not silently change another tool's configuration. Tables: ",
                list.as_str(),
            ),
        );
    }
    assert(out@.len() == crate::text::texts(out@).len());
    if out.len() == 0 {
        crate::say::say(&mut out, "nothing to do");
    }
    assert(crate::text::texts(out@) =~= repair_lines(d.active_firewall@, h, ok@));
    crate::words::join(&out, "\n")
}

// ---------------------------------------------------------------- laws

/// No rule of the container's own tables is ever called foreign, and every rule
/// reported redirects name lookups.
pub proof fn law_own_rules_are_not_hijacks(l: Seq<Seq<char>>, n: int, i: int)
    requires
        0 <= n <= l.len(),
        0 <= i < hijacks(l, n).len(),
    ensures
        !own_table(hijacks(l, n)[i].table),
        redirects_dns(hijacks(l, n)[i].rule),
    decreases n,
{
    if n > 0 {
        let before = hijacks(l, n - 1);
        if i < before.len() {
            law_own_rules_are_not_hijacks(l, n - 1, i);
        }
    }
}

/// A rule set that redirects no name lookups has no foreign rules.
pub proof fn law_a_clean_ruleset_reports_nothing(l: Seq<Seq<char>>, n: int)
    requires
        0 <= n <= l.len(),
        forall|i: int| 0 <= i < l.len() ==> !redirects_dns(crate::words::trimmed(#[trigger] l[i])),
    ensures
        hijacks(l, n) == Seq::<HijackView>::empty(),
    decreases n,
{
    if n > 0 {
        law_a_clean_ruleset_reports_nothing(l, n - 1);
        assert(!redirects_dns(crate::words::trimmed(l[n - 1])));
    }
}

/// The table a rule stands in is the one opened last before it.
pub proof fn law_a_rule_stands_in_the_last_table(l: Seq<Seq<char>>, n: int)
    requires
        0 <= n <= l.len(),
    ensures
        (exists|k: int|
            0 <= k < n && table_opened(#[trigger] l[k]) == Some(table_after(l, n)) && forall|j: int|
                k < j < n ==> table_opened(#[trigger] l[j]) is None) || (table_after(l, n).len() == 0
            && forall|j: int| 0 <= j < n ==> table_opened(#[trigger] l[j]) is None),
    decreases n,
{
    if n > 0 {
        if table_opened(l[n - 1]) is None {
            law_a_rule_stands_in_the_last_table(l, n - 1);
            if exists|k: int|
                0 <= k < n - 1 && table_opened(#[trigger] l[k]) == Some(table_after(l, n - 1))
                    && forall|j: int| k < j < n - 1 ==> table_opened(#[trigger] l[j]) is None {
                let k = choose|k: int|
                    0 <= k < n - 1 && table_opened(#[trigger] l[k]) == Some(table_after(l, n - 1))
                        && forall|j: int| k < j < n - 1 ==> table_opened(#[trigger] l[j]) is None;
                assert(table_opened(l[k]) == Some(table_after(l, n)));
            }
        } else {
            assert(table_opened(l[n - 1]) == Some(table_after(l, n)));
        }
    }
}

/// Every rule of a foreign table that redirects name lookups is reported, with its
/// table and its words, and nothing else is.
pub proof fn law_every_foreign_redirect_is_reported(l: Seq<Seq<char>>)
    ensures
        ({
            let h = hijacks(l, l.len() as int);
            &&& forall|k: int|
                0 <= k < l.len() && !own_table(table_after(l, k + 1)) && redirects_dns(
                    crate::words::trimmed(#[trigger] l[k]),
                ) ==> exists|i: int|
                    0 <= i < h.len() && (#[trigger] h[i]).table == table_after(l, k + 1) && h[i].rule
                        == crate::words::trimmed(l[k])
            &&& forall|i: int|
                0 <= i < h.len() ==> exists|k: int|
                    0 <= k < l.len() && (#[trigger] h[i]).table == table_after(l, k + 1) && h[i].rule
                        == crate::words::trimmed(#[trigger] l[k]) && !own_table(h[i].table)
                        && redirects_dns(h[i].rule)
            &&& h.len() <= l.len()
        }),
{
    lemma_hijacks(l, l.len() as int);
}

proof fn lemma_hijacks(l: Seq<Seq<char>>, n: int)
    requires
        0 <= n <= l.len(),
    ensures
        ({
            let h = hijacks(l, n);
            &&& forall|k: int|
                0 <= k < n && !own_table(table_after(l, k + 1)) && redirects_dns(
                    crate::words::trimmed(#[trigger] l[k]),
                ) ==> exists|i: int|
                    0 <= i < h.len() && (#[trigger] h[i]).table == table_after(l, k + 1) && h[i].rule
                        == crate::words::trimmed(l[k])
            &&& forall|i: int|
                0 <= i < h.len() ==> exists|k: int|
                    0 <= k < n && (#[trigger] h[i]).table == table_after(l, k + 1) && h[i].rule
                        == crate::words::trimmed(#[trigger] l[k]) && !own_table(h[i].table)
                        && redirects_dns(h[i].rule)
            &&& h.len() <= n
        }),
    decreases n,
{
    if n > 0 {
        lemma_hijacks(l, n - 1);
        let before = hijacks(l, n - 1);
        let h = hijacks(l, n);
        assert forall|k: int|
            0 <= k < n && !own_table(table_after(l, k + 1)) && redirects_dns(
                crate::words::trimmed(#[trigger] l[k]),
            ) implies exists|i: int|
            0 <= i < h.len() && (#[trigger] h[i]).table == table_after(l, k + 1) && h[i].rule
                == crate::words::trimmed(l[k]) by {
            if k < n - 1 {
                let i = choose|i: int|
                    0 <= i < before.len() && (#[trigger] before[i]).table == table_after(l, k + 1)
                        && before[i].rule == crate::words::trimmed(l[k]);
                assert(h[i] == before[i]);
            } else {
                assert(h.last().table == table_after(l, n));
                assert(h[h.len() - 1].rule == crate::words::trimmed(l[k]));
            }
        }
        assert forall|i: int| 0 <= i < h.len() implies exists|k: int|
            0 <= k < n && (#[trigger] h[i]).table == table_after(l, k + 1) && h[i].rule
                == crate::words::trimmed(#[trigger] l[k]) && !own_table(h[i].table) && redirects_dns(
                h[i].rule,
            ) by {
            if i < before.len() {
                assert(h[i] == before[i]);
                let k = choose|k: int|
                    0 <= k < n - 1 && before[i].table == table_after(l, k + 1) && before[i].rule
                        == crate::words::trimmed(#[trigger] l[k]) && !own_table(before[i].table)
                        && redirects_dns(before[i].rule);
                assert(h[i].rule == crate::words::trimmed(l[k]));
            } else {
                assert(h[i].rule == crate::words::trimmed(l[n - 1]));
            }
        }
    }
}

/// The firewall in force is the first of the four that is active.
pub proof fn law_the_first_active_firewall_counts(a: bool, b: bool, c: bool, d: bool)
    ensures
        ({
            let f = firewall_from(seq![a, b, c, d], 0);
            &&& a ==> f == "ufw"@
            &&& !a && b ==> f == "firewalld"@
            &&& !a && !b && c ==> f == "nftables"@
            &&& !a && !b && !c && d ==> f == "iptables"@
            &&& !a && !b && !c && !d ==> f == "none"@
        }),
{
    reveal_with_fuel(firewall_from, 6);
    let s = seq![a, b, c, d];
    assert(s[0] == a && s[1] == b && s[2] == c && s[3] == d);
    let n = firewalls();
    assert(n[0] == "ufw"@ && n[1] == "firewalld"@ && n[2] == "nftables"@ && n[3] == "iptables"@);
}

/// Each thing that is missing is one problem, and so is each foreign rule; a
/// network with all of them and no foreign rule has none.
pub proof fn law_every_lack_is_a_problem(
    bridge_up: bool,
    dnsmasq: bool,
    forward: bool,
    masquerade: bool,
    lease: bool,
    h: Seq<HijackView>,
)
    ensures
        ({
            let p = problems(bridge_up, dnsmasq, forward, masquerade, lease, h);
            let lacks = (if bridge_up { 0int } else { 1 }) + (if dnsmasq { 0int } else { 1 }) + (
            if forward { 0int } else { 1 }) + (if masquerade { 0int } else { 1 }) + (if lease {
                0int
            } else {
                1
            });
            &&& p.len() == lacks + h.len()
            &&& forall|k: int|
                0 <= k < h.len() ==> #[trigger] p[lacks + k] == hijack_problem(h[k])
            &&& !bridge_up ==> p[0] == "no waydroid0 bridge"@
            &&& bridge_up && !dnsmasq ==> p[0] == "dnsmasq is not running"@
            &&& bridge_up && dnsmasq && !forward ==> p[0] == "ip_forward is off"@
            &&& bridge_up && dnsmasq && forward && !masquerade ==> p[0] == "no NAT/masquerade rule"@
            &&& !lease ==> p[lacks - 1] == "no DHCP lease — the container got no IP"@
        }),
{
}

/// A problem with a foreign rule names its table and its words.
pub proof fn law_a_foreign_rule_is_named(h: HijackView)
    ensures
        crate::text::occurs(hijack_problem(h), h.table),
        crate::text::occurs(hijack_problem(h), h.rule),
{
    let a = "a rule in table '"@;
    let b = "' hijacks DNS: "@;
    crate::text::lemma_occurs_between(a, h.table, b + h.rule);
    assert(a + h.table + (b + h.rule) =~= hijack_problem(h));
    crate::text::lemma_occurs_behind(a + h.table + b, h.rule);
}

/// Only rules that were added are told, and only where the firewall is the one that
/// takes them; foreign rules are told and left alone.
pub proof fn law_a_repair_tells_what_it_did(firewall: Seq<char>, h: Seq<HijackView>, ok: Seq<bool>)
    requires
        ok.len() == 3,
    ensures
        ({
            let r = repair_lines(firewall, h, ok);
            let done = (if ok[0] { 1int } else { 0 }) + (if ok[1] { 1int } else { 0 }) + (if ok[2] {
                1int
            } else {
                0
            });
            let added = if firewall == "ufw"@ {
                done
            } else {
                0
            };
            &&& added == 0 && h.len() == 0 ==> r == seq!["nothing to do"@]
            &&& added > 0 || h.len() > 0 ==> r.len() == added + (if h.len() > 0 {
                1int
            } else {
                0
            })
            &&& firewall == "ufw"@ && ok[0] ==> r[0] == "ufw "@ + crate::words::joined(
                repair_rules()[0],
                " "@,
            )
            &&& h.len() > 0 ==> crate::text::occurs(
                r.last(),
                crate::words::joined(tables(h), ", "@),
            )
        }),
{
    reveal_with_fuel(added_rules, 5);
    let a = "WARNING: "@ + crate::text::decimal(h.len())
        + " foreign rules hijack DNS; they were NOT TOUCHED. We do not silently change another tool's configuration. Tables: "@;
    crate::text::lemma_occurs_behind(a, crate::words::joined(tables(h), ", "@));
    assert(added_rules(ok, 0).len() == 0);
    assert(added_rules(ok, 1).len() == if ok[0] {
        1nat
    } else {
        0
    });
}

} // verus!
