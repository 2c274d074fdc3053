//! The grouped report: one line per source address, ports by count.

use vstd::prelude::*;
use crate::address::{IpAddress, rank, address_precedes, same_address, lemma_rank_injective};
use crate::collector::{PortTally, keys_unique, sum_counts};
use crate::protect::Protector;
use crate::text::{decimal, write_decimal, write_bytes};

verus! {

/// A destination port and the number of attempts to it.
#[derive(Clone, Copy, Debug, PartialEq, Eq, Structural)]
pub struct PortCount {
    pub port: u16,
    pub count: u64,
}

/// The attempts from one source address: its total, and its ports in order.
#[derive(Debug)]
pub struct GroupReport {
    pub source: IpAddress,
    pub total: u64,
    pub ports: Vec<PortCount>,
}

/// Port entries go by descending count, then by ascending port.
pub open spec fn port_precedes(x: PortCount, y: PortCount) -> bool {
    x.count > y.count || (x.count == y.count && x.port < y.port)
}

/// Groups go by descending total, then by address order.
pub open spec fn group_precedes(x: GroupReport, y: GroupReport) -> bool {
    x.total > y.total || (x.total == y.total && rank(x.source) < rank(y.source))
}

/// The sum of the counts of port entries.
pub open spec fn port_sum(ps: Seq<PortCount>) -> nat
    decreases ps.len(),
{
    if ps.len() == 0 {
        0
    } else {
        port_sum(ps.drop_last()) + ps.last().count as nat
    }
}

/// `ps` holds exactly the tallies of `s` for `source`, strictly in port order.
pub open spec fn ports_match(s: Seq<PortTally>, source: IpAddress, ps: Seq<PortCount>) -> bool {
    &&& forall|x: PortCount| #[trigger] ps.contains(x) <==> s.contains(
        PortTally { source, port: x.port, count: x.count },
    )
    &&& forall|j: int, k: int| #![trigger ps[j], ps[k]] 0 <= j < k < ps.len() ==> port_precedes(ps[j], ps[k])
}

/// A group of a report on `s`: its ports are those of its source, and its
/// total is their sum.
pub open spec fn group_matches(s: Seq<PortTally>, g: GroupReport) -> bool {
    &&& ports_match(s, g.source, g.ports@)
    &&& g.ports@.len() > 0
    &&& g.total == port_sum(g.ports@)
}

/// The source addresses of a sequence of groups.
pub open spec fn report_sources(gs: Seq<GroupReport>) -> Seq<IpAddress> {
    gs.map_values(|g: GroupReport| g.source)
}

/// `gs` is the report on the tallies `s`: one group per source address that
/// occurs in `s`, each matching it, in group order.
pub open spec fn is_report(s: Seq<PortTally>, gs: Seq<GroupReport>) -> bool {
    &&& forall|k: int| 0 <= k < gs.len() ==> group_matches(s, #[trigger] gs[k])
    &&& report_sources(gs).no_duplicates()
    &&& forall|i: int| 0 <= i < s.len() ==> report_sources(gs).contains(#[trigger] s[i].source)
    &&& forall|j: int, k: int| #![trigger gs[j], gs[k]] 0 <= j < k < gs.len() ==> !group_precedes(gs[k], gs[j])
}

proof fn lemma_insert_contains<T>(s: Seq<T>, pos: int, x: T)
    requires
        0 <= pos <= s.len(),
    ensures
        forall|y: T| #[trigger] s.insert(pos, x).contains(y) <==> (s.contains(y) || y == x),
{
    let r = s.insert(pos, x);
    assert(r[pos] == x);
    assert forall|y: T| #[trigger] r.contains(y) <==> (s.contains(y) || y == x) by {
        if r.contains(y) {
            let j = choose|j: int| 0 <= j < r.len() && r[j] == y;
            if j < pos {
                assert(s[j] == y);
            } else if j > pos {
                assert(s[j - 1] == y);
            }
        }
        if s.contains(y) {
            let j = choose|j: int| 0 <= j < s.len() && s[j] == y;
            if j < pos {
                assert(r[j] == y);
            } else {
                assert(r[j + 1] == y);
            }
        }
    }
}

proof fn lemma_port_sum_insert(ps: Seq<PortCount>, pos: int, x: PortCount)
    requires
        0 <= pos <= ps.len(),
    ensures
        port_sum(ps.insert(pos, x)) == port_sum(ps) + x.count,
    decreases ps.len(),
{
    let r = ps.insert(pos, x);
    if pos == ps.len() {
        assert(r.drop_last() =~= ps);
    } else {
        assert(r.drop_last() =~= ps.drop_last().insert(pos, x));
        lemma_port_sum_insert(ps.drop_last(), pos, x);
    }
}

proof fn lemma_sum_take(s: Seq<PortTally>, i: int)
    requires
        0 <= i < s.len(),
    ensures
        sum_counts(s.take(i + 1)) == sum_counts(s.take(i)) + s[i].count,
        sum_counts(s.take(i + 1)) <= sum_counts(s),
    decreases s.len(),
{
    assert(s.take(i + 1).drop_last() =~= s.take(i));
    lemma_sum_prefix(s, i + 1);
}

proof fn lemma_sum_prefix(s: Seq<PortTally>, n: int)
    requires
        0 <= n <= s.len(),
    ensures
        sum_counts(s.take(n)) <= sum_counts(s),
    decreases s.len(),
{
    if n < s.len() {
        assert(s.drop_last().take(n) =~= s.take(n));
        lemma_sum_prefix(s.drop_last(), n);
    } else {
        assert(s.take(n) =~= s);
    }
}

/// The port entries of `source` in the tallies `s`, in port order, and their
/// sum.
fn ports_of(s: &Vec<PortTally>, source: &IpAddress) -> (r: (Vec<PortCount>, u64))
    requires
        keys_unique(s@),
        sum_counts(s@) <= u64::MAX,
    ensures
        ports_match(s@, *source, r.0@),
        r.1 == port_sum(r.0@),
{
    let mut ps: Vec<PortCount> = Vec::new();
    let mut total: u64 = 0;
    let mut i: usize = 0;
    while i < s.len()
        invariant
            i <= s@.len(),
            keys_unique(s@),
            sum_counts(s@) <= u64::MAX,
            forall|x: PortCount| #[trigger] ps@.contains(x) <==> s@.take(i as int).contains(
                PortTally { source: *source, port: x.port, count: x.count },
            ),
            forall|j: int, k: int| #![trigger ps@[j], ps@[k]] 0 <= j < k < ps@.len() ==> port_precedes(ps@[j], ps@[k]),
            total == port_sum(ps@),
            port_sum(ps@) <= sum_counts(s@.take(i as int)),
        decreases s@.len() - i,
    {
        let t = s[i];
        proof {
            lemma_sum_take(s@, i as int);
            assert(s@.take(i as int + 1) =~= s@.take(i as int).push(t));
        }
        if same_address(&t.source, source) {
            let x = PortCount { port: t.port, count: t.count };
            proof {
                assert forall|y: PortCount| #[trigger] ps@.contains(y) implies y.port != x.port by {
                    let w = PortTally { source: *source, port: y.port, count: y.count };
                    assert(s@.take(i as int).contains(w));
                    let j = choose|j: int| 0 <= j < i && s@.take(i as int)[j] == w;
                    assert(s@[j] == w);
                    assert(s@[i as int] == t);
                }
            }
            let mut pos: usize = 0;
            while pos < ps.len() && !(x.count > ps[pos].count || (x.count == ps[pos].count && x.port < ps[pos].port))
                invariant
                    pos <= ps@.len(),
                    forall|j: int| 0 <= j < pos ==> !port_precedes(x, #[trigger] ps@[j]),
                decreases ps@.len() - pos,
            {
                pos = pos + 1;
            }
            let ghost old_ps = ps@;
            ps.insert(pos, x);
            total = total + t.count;
            proof {
                lemma_insert_contains(old_ps, pos as int, x);
                lemma_insert_contains(s@.take(i as int), i as int, t);
                lemma_port_sum_insert(old_ps, pos as int, x);
                assert(s@.take(i as int).insert(i as int, t) =~= s@.take(i as int + 1));
                assert forall|y: PortCount| #[trigger] ps@.contains(y) <==> s@.take(i as int + 1).contains(
                    PortTally { source: *source, port: y.port, count: y.count },
                ) by {
                    if y == x {
                        assert(PortTally { source: *source, port: y.port, count: y.count } == t);
                    }
                    if (PortTally { source: *source, port: y.port, count: y.count }) == t {
                        assert(y == x);
                    }
                }
                assert forall|j: int, k: int| #![trigger ps@[j], ps@[k]] 0 <= j < k < ps@.len() implies port_precedes(
                    ps@[j],
                    ps@[k],
                ) by {
                    if k < pos {
                    } else if k == pos {
                        assert(old_ps.contains(ps@[j]));
                        assert(!port_precedes(x, old_ps[j]));
                    } else if j < pos {
                        assert(old_ps[j] == ps@[j] && old_ps[k - 1] == ps@[k]);
                    } else if j == pos {
                        assert(port_precedes(x, old_ps[pos as int]));
                        if pos < k - 1 {
                            assert(port_precedes(old_ps[pos as int], old_ps[k - 1]));
                        }
                    } else {
                        assert(old_ps[j - 1] == ps@[j] && old_ps[k - 1] == ps@[k]);
                    }
                }
            }
        } else {
            proof {
                lemma_insert_contains(s@.take(i as int), i as int, t);
                assert(s@.take(i as int).insert(i as int, t) =~= s@.take(i as int + 1));
            }
        }
        i = i + 1;
    }
    assert(s@.take(i as int) =~= s@);
    (ps, total)
}

/// The source addresses of `s`, each once, in order of first arrival.
fn distinct_sources(s: &Vec<PortTally>) -> (r: Vec<IpAddress>)
    ensures
        r@.no_duplicates(),
        forall|a: IpAddress| #[trigger] r@.contains(a) <==> exists|i: int| 0 <= i < s@.len() && s@[i].source == a,
{
    let mut r: Vec<IpAddress> = Vec::new();
    let mut i: usize = 0;
    while i < s.len()
        invariant
            i <= s@.len(),
            r@.no_duplicates(),
            forall|a: IpAddress| #[trigger] r@.contains(a) <==> exists|j: int| 0 <= j < i && s@[j].source == a,
        decreases s@.len() - i,
    {
        let a = s[i].source;
        let mut k: usize = 0;
        let mut seen = false;
        while k < r.len() && !seen
            invariant
                k <= r@.len(),
                seen ==> r@.contains(a),
                !seen ==> forall|j: int| 0 <= j < k ==> r@[j] != a,
            decreases r@.len() - k, if seen { 0int } else { 1int },
        {
            if same_address(&r[k], &a) {
                seen = true;
            } else {
                k = k + 1;
            }
        }
        let ghost old_r = r@;
        if !seen {
            r.push(a);
            proof {
                assert(old_r.insert(old_r.len() as int, a) =~= r@);
                lemma_insert_contains(old_r, old_r.len() as int, a);
            }
        }
        proof {
            assert forall|b: IpAddress| #[trigger] r@.contains(b) <==> exists|j: int| 0 <= j < i + 1 && s@[j].source == b by {
                if exists|j: int| 0 <= j < i + 1 && s@[j].source == b {
                    let j = choose|j: int| 0 <= j < i + 1 && s@[j].source == b;
                    if j < i {
                        assert(old_r.contains(b));
                    }
                }
                if b == a {
                    assert(s@[i as int].source == b);
                }
            }
        }
        i = i + 1;
    }
    r
}

/// Groups the tallies `s` by source address, orders each group's ports by
/// descending count then ascending port, and orders the groups by
/// descending total then address.
pub fn group_tallies(s: &Vec<PortTally>) -> (r: Vec<GroupReport>)
    requires
        keys_unique(s@),
        sum_counts(s@) <= u64::MAX,
    ensures
        is_report(s@, r@),
{
    let sources = distinct_sources(s);
    let mut gs: Vec<GroupReport> = Vec::new();
    let mut k: usize = 0;
    while k < sources.len()
        invariant
            k <= sources@.len(),
            keys_unique(s@),
            sum_counts(s@) <= u64::MAX,
            sources@.no_duplicates(),
            forall|a: IpAddress| #[trigger] sources@.contains(a) <==> exists|i: int| 0 <= i < s@.len() && s@[i].source == a,
            forall|g: int| 0 <= g < gs@.len() ==> group_matches(s@, #[trigger] gs@[g]),
            report_sources(gs@).no_duplicates(),
            forall|a: IpAddress| #[trigger] report_sources(gs@).contains(a) <==> sources@.take(k as int).contains(a),
            forall|j: int, l: int| #![trigger gs@[j], gs@[l]] 0 <= j < l < gs@.len() ==> !group_precedes(gs@[l], gs@[j]),
        decreases sources@.len() - k,
    {
        let a = sources[k];
        let (ports, total) = ports_of(s, &a);
        proof {
            assert(sources@.contains(a));
            let i = choose|i: int| 0 <= i < s@.len() && s@[i].source == a;
            assert(s@[i] == (PortTally { source: a, port: s@[i].port, count: s@[i].count }));
            assert(s@.contains(s@[i]));
            assert(ports@.contains(PortCount { port: s@[i].port, count: s@[i].count }));
        }
        let g = GroupReport { source: a, total, ports };
        let mut pos: usize = 0;
        while pos < gs.len() && !(g.total > gs[pos].total || (g.total == gs[pos].total && address_precedes(&g.source, &gs[pos].source)))
            invariant
                pos <= gs@.len(),
                forall|j: int| 0 <= j < pos ==> !group_precedes(g, #[trigger] gs@[j]),
            decreases gs@.len() - pos,
        {
            pos = pos + 1;
        }
        let ghost old_gs = gs@;
        gs.insert(pos, g);
        proof {
            let ghost old_src = report_sources(old_gs);
            assert(report_sources(gs@) =~= old_src.insert(pos as int, a));
            lemma_insert_contains(old_src, pos as int, a);
            assert(sources@.take(k as int + 1) =~= sources@.take(k as int).insert(k as int, a));
            lemma_insert_contains(sources@.take(k as int), k as int, a);
            assert(!sources@.take(k as int).contains(a)) by {
                if sources@.take(k as int).contains(a) {
                    let j = choose|j: int| 0 <= j < k && sources@.take(k as int)[j] == a;
                    assert(sources@[j] == sources@[k as int]);
                }
            }
            assert(report_sources(gs@).no_duplicates()) by {
                assert forall|x: int, y: int| 0 <= x < y < report_sources(gs@).len() implies report_sources(gs@)[x] != report_sources(gs@)[y] by {
                    if x == pos {
                        assert(old_src.contains(report_sources(gs@)[y]));
                    } else if y == pos {
                        assert(old_src.contains(report_sources(gs@)[x]));
                    } else {
                        let ox = if x < pos { x } else { x - 1 };
                        let oy = if y < pos { y } else { y - 1 };
                        assert(old_src[ox] != old_src[oy]);
                    }
                }
            }
            assert forall|g2: int| 0 <= g2 < gs@.len() implies group_matches(s@, #[trigger] gs@[g2]) by {
                if g2 < pos {
                    assert(gs@[g2] == old_gs[g2]);
                } else if g2 > pos {
                    assert(gs@[g2] == old_gs[g2 - 1]);
                }
            }
            assert forall|j: int, l: int| #![trigger gs@[j], gs@[l]] 0 <= j < l < gs@.len() implies !group_precedes(gs@[l], gs@[j]) by {
                if l < pos {
                } else if l == pos {
                    assert(!group_precedes(g, old_gs[j]));
                } else if j < pos {
                    assert(old_gs[j] == gs@[j] && old_gs[l - 1] == gs@[l]);
                } else if j == pos {
                    assert(group_precedes(g, old_gs[pos as int]));
                    if pos < l - 1 {
                        assert(!group_precedes(old_gs[l - 1], old_gs[pos as int]));
                    }
                } else {
                    assert(old_gs[j - 1] == gs@[j] && old_gs[l - 1] == gs@[l]);
                }
            }
        }
        k = k + 1;
    }
    proof {
        assert(sources@.take(k as int) =~= sources@);
        assert forall|i: int| 0 <= i < s@.len() implies report_sources(gs@).contains(#[trigger] s@[i].source) by {
            assert(sources@.contains(s@[i].source));
        }
    }
    gs
}

/// The text of one port entry: `port:count`.
pub open spec fn port_entry_text(x: PortCount) -> Seq<u8> {
    decimal(x.port as nat) + seq![58u8] + decimal(x.count as nat)
}

/// The port entries of a group, separated by single spaces.
pub open spec fn ports_text(ps: Seq<PortCount>) -> Seq<u8>
    decreases ps.len(),
{
    if ps.len() == 0 {
        Seq::empty()
    } else if ps.len() == 1 {
        port_entry_text(ps[0])
    } else {
        ports_text(ps.drop_last()) + seq![32u8] + port_entry_text(ps.last())
    }
}

/// The line of a group: `label:total port:count port:count ...` and a newline.
pub open spec fn line_text(label: Seq<u8>, g: GroupReport) -> Seq<u8> {
    label + seq![58u8] + decimal(g.total as nat) + seq![32u8] + ports_text(g.ports@) + seq![10u8]
}

/// The lines of a report, each group labelled by `p`.
pub open spec fn report_text(p: Protector, gs: Seq<GroupReport>) -> Seq<u8>
    decreases gs.len(),
{
    if gs.len() == 0 {
        Seq::empty()
    } else {
        report_text(p, gs.drop_last()) + line_text(p.label(gs.last().source), gs.last())
    }
}

/// Appends the line of group `g`, labelled `label`, to `out`.
pub fn write_line(label: &[u8], g: &GroupReport, out: &mut Vec<u8>)
    ensures
        final(out)@ == old(out)@ + line_text(label@, *g),
{
    write_bytes(out, label);
    out.push(58);
    write_decimal(out, g.total);
    out.push(32);
    let ghost start = out@;
    let mut i: usize = 0;
    while i < g.ports.len()
        invariant
            i <= g.ports@.len(),
            out@ == start + ports_text(g.ports@.take(i as int)),
        decreases g.ports@.len() - i,
    {
        let x = g.ports[i];
        let ghost before = out@;
        if i > 0 {
            out.push(32);
        }
        write_decimal(out, x.port as u64);
        out.push(58);
        write_decimal(out, x.count);
        proof {
            let t = g.ports@.take(i as int + 1);
            assert(t.drop_last() =~= g.ports@.take(i as int));
            if i == 0 {
                assert(out@ =~= start + ports_text(t));
            } else {
                assert(out@ =~= start + ports_text(t));
            }
        }
        i = i + 1;
    }
    out.push(10);
    assert(g.ports@.take(i as int) =~= g.ports@);
    assert(final(out)@ =~= old(out)@ + line_text(label@, *g));
}

/// Appends the lines of the groups `gs`, each labelled by `p`, to `out`.
pub fn write_report(gs: &Vec<GroupReport>, p: &Protector, out: &mut Vec<u8>)
    ensures
        final(out)@ == old(out)@ + report_text(*p, gs@),
{
    let mut i: usize = 0;
    while i < gs.len()
        invariant
            i <= gs@.len(),
            out@ == old(out)@ + report_text(*p, gs@.take(i as int)),
        decreases gs@.len() - i,
    {
        let label = p.protect(&gs[i].source);
        write_line(label.as_slice(), &gs[i], out);
        proof {
            let t = gs@.take(i as int + 1);
            assert(t.drop_last() =~= gs@.take(i as int));
            assert(out@ =~= old(out)@ + report_text(*p, t));
        }
        i = i + 1;
    }
    assert(gs@.take(i as int) =~= gs@);
}

/// Grouping consistency: in every report, the number after a group's label
/// is the sum of the counts of that group's port entries.
pub proof fn lemma_group_total_is_port_sum(s: Seq<PortTally>, gs: Seq<GroupReport>, p: Protector, k: int)
    requires
        is_report(s, gs),
        0 <= k < gs.len(),
    ensures
        gs[k].total == port_sum(gs[k].ports@),
        line_text(p.label(gs[k].source), gs[k]) == p.label(gs[k].source) + seq![58u8] + decimal(
            port_sum(gs[k].ports@),
        ) + seq![32u8] + ports_text(gs[k].ports@) + seq![10u8],
{
    assert(group_matches(s, gs[k]));
}

/// Two sequences strictly sorted by the same strict order, with the same
/// elements, are equal.
proof fn lemma_sorted_unique<T>(a: Seq<T>, b: Seq<T>, lt: spec_fn(T, T) -> bool)
    requires
        forall|x: T, y: T| #[trigger] lt(x, y) ==> !lt(y, x),
        forall|x: T| a.contains(x) <==> b.contains(x),
        forall|j: int, k: int| #![trigger a[j], a[k]] 0 <= j < k < a.len() ==> lt(a[j], a[k]),
        forall|j: int, k: int| #![trigger b[j], b[k]] 0 <= j < k < b.len() ==> lt(b[j], b[k]),
    ensures
        a == b,
    decreases a.len(),
{
    if a.len() == 0 {
        if b.len() > 0 {
            assert(b.contains(b[0]));
        }
        assert(a =~= b);
    } else if b.len() == 0 {
        assert(a.contains(a[0]));
    } else {
        assert(a.contains(a[0]));
        assert(b.contains(b[0]));
        let i = choose|i: int| 0 <= i < a.len() && a[i] == b[0];
        let j = choose|j: int| 0 <= j < b.len() && b[j] == a[0];
        if i > 0 && j > 0 {
            assert(lt(a[0], a[i]));
            assert(lt(b[0], b[j]));
        } else if i > 0 {
            assert(lt(a[0], a[i]));
            assert(!lt(a[0], a[0]));
        } else if j > 0 {
            assert(lt(b[0], b[j]));
            assert(!lt(b[0], b[0]));
        }
        assert(a[0] == b[0]);
        let a1 = a.drop_first();
        let b1 = b.drop_first();
        assert forall|x: T| a1.contains(x) <==> b1.contains(x) by {
            if a1.contains(x) {
                let k = choose|k: int| 0 <= k < a1.len() && a1[k] == x;
                assert(a[k + 1] == x);
                assert(lt(a[0], a[k + 1]));
                assert(b.contains(x));
                let m = choose|m: int| 0 <= m < b.len() && b[m] == x;
                if m == 0 {
                    assert(!lt(x, x));
                }
                assert(b1[m - 1] == x);
            }
            if b1.contains(x) {
                let k = choose|k: int| 0 <= k < b1.len() && b1[k] == x;
                assert(b[k + 1] == x);
                assert(lt(b[0], b[k + 1]));
                assert(a.contains(x));
                let m = choose|m: int| 0 <= m < a.len() && a[m] == x;
                if m == 0 {
                    assert(!lt(x, x));
                }
                assert(a1[m - 1] == x);
            }
        }
        assert forall|j: int, k: int| #![trigger a1[j], a1[k]] 0 <= j < k < a1.len() implies lt(a1[j], a1[k]) by {
            assert(a[j + 1] == a1[j] && a[k + 1] == a1[k]);
        }
        assert forall|j: int, k: int| #![trigger b1[j], b1[k]] 0 <= j < k < b1.len() implies lt(b1[j], b1[k]) by {
            assert(b[j + 1] == b1[j] && b[k + 1] == b1[k]);
        }
        lemma_sorted_unique(a1, b1, lt);
        assert(a =~= b1.insert(0, a[0]));
        assert(b =~= b1.insert(0, b[0]));
    }
}

/// The port entries of a source are determined by the tallies.
proof fn lemma_ports_unique(s: Seq<PortTally>, source: IpAddress, first: Seq<PortCount>, second: Seq<PortCount>)
    requires
        ports_match(s, source, first),
        ports_match(s, source, second),
    ensures
        first == second,
{
    let lt = |x: PortCount, y: PortCount| port_precedes(x, y);
    assert forall|x: PortCount| first.contains(x) <==> second.contains(x) by {
        assert(first.contains(x) <==> s.contains(PortTally { source, port: x.port, count: x.count }));
        assert(second.contains(x) <==> s.contains(PortTally { source, port: x.port, count: x.count }));
    }
    assert forall|j: int, k: int| #![trigger first[j], first[k]] 0 <= j < k < first.len() implies lt(first[j], first[k]) by {}
    assert forall|j: int, k: int| #![trigger second[j], second[k]] 0 <= j < k < second.len() implies lt(second[j], second[k]) by {}
    lemma_sorted_unique(first, second, lt);
}

/// The order key of a group: its total and its source.
pub open spec fn group_key(g: GroupReport) -> (u64, IpAddress) {
    (g.total, g.source)
}

/// A report pins its text down: two reports on the same tallies agree
/// group by group, in sources, totals and port entries.
pub proof fn lemma_report_unique(s: Seq<PortTally>, g1: Seq<GroupReport>, g2: Seq<GroupReport>)
    requires
        is_report(s, g1),
        is_report(s, g2),
    ensures
        g1.len() == g2.len(),
        forall|k: int| 0 <= k < g1.len() ==> (#[trigger] g1[k]).source == g2[k].source && g1[k].total == g2[k].total
            && g1[k].ports@ == g2[k].ports@,
{
    let lt = |x: (u64, IpAddress), y: (u64, IpAddress)| x.0 > y.0 || (x.0 == y.0 && rank(x.1) < rank(y.1));
    let k1 = g1.map_values(|g: GroupReport| group_key(g));
    let k2 = g2.map_values(|g: GroupReport| group_key(g));
    // A source occurs in one report exactly when it occurs in the other,
    // and its group has the same ports and total in both.
    assert forall|a: int, b: int| 0 <= a < g1.len() && 0 <= b < g2.len() && g1[a].source == g2[b].source implies g1[a].ports@
        == g2[b].ports@ && g1[a].total == g2[b].total by {
        assert(group_matches(s, g1[a]));
        assert(group_matches(s, g2[b]));
        lemma_ports_unique(s, g1[a].source, g1[a].ports@, g2[b].ports@);
    }
    assert forall|a: int| 0 <= a < g1.len() implies report_sources(g2).contains((#[trigger] g1[a]).source) by {
        assert(group_matches(s, g1[a]));
        let x = g1[a].ports@[0];
        assert(g1[a].ports@.contains(x));
        let w = PortTally { source: g1[a].source, port: x.port, count: x.count };
        assert(s.contains(w));
        let i = choose|i: int| 0 <= i < s.len() && s[i] == w;
        assert(report_sources(g2).contains(s[i].source));
    }
    assert forall|b: int| 0 <= b < g2.len() implies report_sources(g1).contains((#[trigger] g2[b]).source) by {
        assert(group_matches(s, g2[b]));
        let x = g2[b].ports@[0];
        assert(g2[b].ports@.contains(x));
        let w = PortTally { source: g2[b].source, port: x.port, count: x.count };
        assert(s.contains(w));
        let i = choose|i: int| 0 <= i < s.len() && s[i] == w;
        assert(report_sources(g1).contains(s[i].source));
    }
    assert forall|x: (u64, IpAddress)| k1.contains(x) <==> k2.contains(x) by {
        if k1.contains(x) {
            let a = choose|a: int| 0 <= a < k1.len() && k1[a] == x;
            assert(report_sources(g2).contains(g1[a].source));
            let b = choose|b: int| 0 <= b < g2.len() && report_sources(g2)[b] == g1[a].source;
            assert(k2[b] == x);
        }
        if k2.contains(x) {
            let b = choose|b: int| 0 <= b < k2.len() && k2[b] == x;
            assert(report_sources(g1).contains(g2[b].source));
            let a = choose|a: int| 0 <= a < g1.len() && report_sources(g1)[a] == g2[b].source;
            assert(k1[a] == x);
        }
    }
    assert forall|j: int, k: int| #![trigger k1[j], k1[k]] 0 <= j < k < k1.len() implies lt(k1[j], k1[k]) by {
        assert(!group_precedes(g1[k], g1[j]));
        assert(report_sources(g1)[j] != report_sources(g1)[k]);
        if rank(g1[j].source) == rank(g1[k].source) {
            lemma_rank_injective(g1[j].source, g1[k].source);
        }
    }
    assert forall|j: int, k: int| #![trigger k2[j], k2[k]] 0 <= j < k < k2.len() implies lt(k2[j], k2[k]) by {
        assert(!group_precedes(g2[k], g2[j]));
        assert(report_sources(g2)[j] != report_sources(g2)[k]);
        if rank(g2[j].source) == rank(g2[k].source) {
            lemma_rank_injective(g2[j].source, g2[k].source);
        }
    }
    lemma_sorted_unique(k1, k2, lt);
    assert forall|k: int| 0 <= k < g1.len() implies (#[trigger] g1[k]).source == g2[k].source && g1[k].total == g2[k].total
        && g1[k].ports@ == g2[k].ports@ by {
        assert(k1[k] == k2[k]);
    }
}

proof fn lemma_report_text_agrees(p: Protector, g1: Seq<GroupReport>, g2: Seq<GroupReport>)
    requires
        g1.len() == g2.len(),
        forall|k: int| 0 <= k < g1.len() ==> (#[trigger] g1[k]).source == g2[k].source && g1[k].total == g2[k].total
            && g1[k].ports@ == g2[k].ports@,
    ensures
        report_text(p, g1) == report_text(p, g2),
    decreases g1.len(),
{
    if g1.len() > 0 {
        let l = g1.len() - 1;
        assert(g1[l].source == g2[l].source);
        lemma_report_text_agrees(p, g1.drop_last(), g2.drop_last());
    }
}

/// The text of a report is determined by the tallies and the protector:
/// every report on the same tallies renders to the same bytes.
pub proof fn lemma_report_text_unique(s: Seq<PortTally>, p: Protector, g1: Seq<GroupReport>, g2: Seq<GroupReport>)
    requires
        is_report(s, g1),
        is_report(s, g2),
    ensures
        report_text(p, g1) == report_text(p, g2),
{
    lemma_report_unique(s, g1, g2);
    lemma_report_text_agrees(p, g1, g2);
}

} // verus!
