//! Aggregation of connection records by source address and destination port.

use vstd::prelude::*;
use crate::address::{IpAddress, same_address};
use crate::protect::Protector;
use crate::capture::{PacketOwned, UnparsedPacket, extracted, ethernet_layers};
use crate::report::{GroupReport, is_report, group_tallies, write_report, report_text};

verus! {

/// The number of connection attempts seen from one source to one port.
#[derive(Clone, Copy, Debug)]
pub struct PortTally {
    pub source: IpAddress,
    pub port: u16,
    pub count: u64,
}

/// Whether the tally at `i` is for `source` and `port`.
pub open spec fn tally_is_for(s: Seq<PortTally>, i: int, source: IpAddress, port: u16) -> bool {
    s[i].source == source && s[i].port == port
}

/// No two tallies are for the same source and port.
pub open spec fn keys_unique(s: Seq<PortTally>) -> bool {
    forall|i: int, j: int|
        #![trigger s[i], s[j]]
        0 <= i < j < s.len() ==> !(s[i].source == s[j].source && s[i].port == s[j].port)
}

/// The sum of the counts of `s`.
pub open spec fn sum_counts(s: Seq<PortTally>) -> nat
    decreases s.len(),
{
    if s.len() == 0 {
        0
    } else {
        sum_counts(s.drop_last()) + s.last().count as nat
    }
}

/// The index of the last tally for `source` and `port`, or -1 if there is none.
pub open spec fn key_index(s: Seq<PortTally>, source: IpAddress, port: u16) -> int
    decreases s.len(),
{
    if s.len() == 0 {
        -1
    } else if tally_is_for(s, s.len() - 1, source, port) {
        s.len() - 1
    } else {
        key_index(s.drop_last(), source, port)
    }
}

/// The tallies after one more attempt from `source` to `port`: the tally for
/// that pair goes up by one, or a new one at 1 comes last.
pub open spec fn tally_step(s: Seq<PortTally>, source: IpAddress, port: u16) -> Seq<PortTally> {
    let i = key_index(s, source, port);
    if i < 0 {
        s.push(PortTally { source, port, count: 1 })
    } else {
        s.update(i, PortTally { count: (s[i].count + 1) as u64, ..s[i] })
    }
}

/// The tallies after a sequence of attempts, from none.
pub open spec fn tally_all(records: Seq<(IpAddress, u16)>) -> Seq<PortTally>
    decreases records.len(),
{
    if records.len() == 0 {
        Seq::empty()
    } else {
        tally_step(tally_all(records.drop_last()), records.last().0, records.last().1)
    }
}

proof fn lemma_key_index(s: Seq<PortTally>, source: IpAddress, port: u16)
    ensures
        -1 <= key_index(s, source, port) < s.len(),
        key_index(s, source, port) >= 0 ==> tally_is_for(s, key_index(s, source, port), source, port),
        key_index(s, source, port) < 0 ==> forall|j: int|
            0 <= j < s.len() ==> !tally_is_for(s, j, source, port),
        keys_unique(s) ==> forall|j: int|
            0 <= j < s.len() && tally_is_for(s, j, source, port) ==> key_index(s, source, port) == j,
    decreases s.len(),
{
    if s.len() > 0 {
        let p = s.drop_last();
        let l = s.len() - 1;
        lemma_key_index(p, source, port);
        assert(forall|j: int| 0 <= j < p.len() ==> p[j] == s[j]);
        if keys_unique(s) {
            assert(keys_unique(p)) by {
                assert forall|i: int, j: int| 0 <= i < j < p.len() implies !(p[i].source == p[j].source
                    && p[i].port == p[j].port) by {
                    assert(s[i] == p[i] && s[j] == p[j]);
                }
            }
            assert forall|j: int| 0 <= j < s.len() && tally_is_for(s, j, source, port) implies key_index(
                s,
                source,
                port,
            ) == j by {
                if j < l {
                    assert(s[j] == p[j]);
                    assert(tally_is_for(p, j, source, port));
                    if tally_is_for(s, l, source, port) {
                        assert(s[j].source == s[l].source && s[j].port == s[l].port);
                    }
                }
            }
        }
        assert forall|j: int| 0 <= j < s.len() && key_index(s, source, port) < 0 implies !tally_is_for(s, j, source, port) by {
            if j < l {
                assert(s[j] == p[j]);
                assert(!tally_is_for(p, j, source, port));
            }
        }
    }
}

proof fn lemma_sum_push(s: Seq<PortTally>, t: PortTally)
    ensures
        sum_counts(s.push(t)) == sum_counts(s) + t.count,
{
    assert(s.push(t).drop_last() =~= s);
}

proof fn lemma_sum_update(s: Seq<PortTally>, i: int, t: PortTally)
    requires
        0 <= i < s.len(),
    ensures
        sum_counts(s.update(i, t)) == sum_counts(s) - s[i].count + t.count,
        s[i].count <= sum_counts(s),
    decreases s.len(),
{
    let u = s.update(i, t);
    if i < s.len() - 1 {
        assert(u.drop_last() =~= s.drop_last().update(i, t));
        lemma_sum_update(s.drop_last(), i, t);
    } else {
        assert(u.drop_last() =~= s.drop_last());
    }
}

/// The tally for a new attempt keeps the keys unique and adds one to the sum.
proof fn lemma_tally_step(s: Seq<PortTally>, source: IpAddress, port: u16)
    requires
        keys_unique(s),
        sum_counts(s) < u64::MAX,
    ensures
        keys_unique(tally_step(s, source, port)),
        sum_counts(tally_step(s, source, port)) == sum_counts(s) + 1,
{
    lemma_key_index(s, source, port);
    let i = key_index(s, source, port);
    let r = tally_step(s, source, port);
    if i < 0 {
        lemma_sum_push(s, PortTally { source, port, count: 1 });
        assert forall|a: int, b: int| 0 <= a < b < r.len() implies !(r[a].source == r[b].source && r[a].port
            == r[b].port) by {
            assert(r[a] == s[a]);
            if b < s.len() {
                assert(r[b] == s[b]);
            } else {
                assert(!tally_is_for(s, a, source, port));
            }
        }
    } else {
        lemma_sum_update(s, i, PortTally { count: (s[i].count + 1) as u64, ..s[i] });
        assert forall|a: int, b: int| 0 <= a < b < r.len() implies !(r[a].source == r[b].source && r[a].port
            == r[b].port) by {
            assert(r[a].source == s[a].source && r[a].port == s[a].port);
            assert(r[b].source == s[b].source && r[b].port == s[b].port);
        }
    }
}

/// Conservation: after any sequence of attempts, the counts add up to the
/// number of attempts, and no source and port pair has two tallies.
pub proof fn lemma_conservation(records: Seq<(IpAddress, u16)>)
    requires
        records.len() < u64::MAX,
    ensures
        sum_counts(tally_all(records)) == records.len(),
        keys_unique(tally_all(records)),
    decreases records.len(),
{
    if records.len() > 0 {
        lemma_conservation(records.drop_last());
        lemma_tally_step(tally_all(records.drop_last()), records.last().0, records.last().1);
    }
}

/// Counts of connection attempts, by source address and destination port.
pub struct Collector {
    connection_count: u64,
    tallies: Vec<PortTally>,
}

impl Collector {
    /// The tallies, one per source and port pair, in order of first arrival.
    pub closed spec fn tallies(&self) -> Seq<PortTally> {
        self.tallies@
    }

    /// The running total of attempts.
    pub closed spec fn total(&self) -> nat {
        self.connection_count as nat
    }

    /// Keys are unique, every count is positive, and the counts add up to the
    /// running total.
    pub open spec fn wf(&self) -> bool {
        &&& keys_unique(self.tallies())
        &&& forall|i: int| 0 <= i < self.tallies().len() ==> #[trigger] self.tallies()[i].count >= 1
        &&& sum_counts(self.tallies()) == self.total()
    }

    /// An empty aggregate.
    pub fn new() -> (r: Collector)
        ensures
            r.wf(),
            r.tallies() == Seq::<PortTally>::empty(),
            r.total() == 0,
    {
        Collector { connection_count: 0, tallies: Vec::new() }
    }

    /// The running total of attempts.
    pub fn connection_count(&self) -> (r: u64)
        ensures
            r == self.total(),
    {
        self.connection_count
    }

    /// Counts one more attempt from `source` to `port` and returns the new
    /// running total.
    pub fn record(&mut self, source: IpAddress, port: u16) -> (r: u64)
        requires
            old(self).wf(),
            old(self).total() < u64::MAX,
        ensures
            final(self).wf(),
            final(self).tallies() == tally_step(old(self).tallies(), source, port),
            final(self).total() == old(self).total() + 1,
            r == final(self).total(),
    {
        let ghost s = self.tallies@;
        proof {
            lemma_key_index(s, source, port);
            lemma_tally_step(s, source, port);
        }
        let mut i: usize = 0;
        let mut found = false;
        while i < self.tallies.len() && !found
            invariant
                self.tallies@ == s,
                i <= s.len(),
                found ==> i < s.len() && tally_is_for(s, i as int, source, port),
                forall|j: int| 0 <= j < i && !(found && j == i) ==> !tally_is_for(s, j, source, port),
            decreases s.len() - i, if found { 0int } else { 1int },
        {
            let t = self.tallies[i];
            if t.port == port && same_address(&t.source, &source) {
                found = true;
            } else {
                i = i + 1;
            }
        }
        if found {
            let t = self.tallies[i];
            proof {
                lemma_sum_update(s, i as int, t);
            }
            self.tallies.set(i, PortTally { count: t.count + 1, ..t });
        } else {
            self.tallies.push(PortTally { source, port, count: 1 });
        }
        self.connection_count = self.connection_count + 1;
        proof {
            if i < s.len() {
                assert(tally_is_for(s, i as int, source, port));
                assert(key_index(s, source, port) == i);
            }
            assert(self.tallies@ =~= tally_step(s, source, port));
            assert forall|j: int| 0 <= j < self.tallies@.len() implies #[trigger] self.tallies@[j].count >= 1 by {
                if j < s.len() && j != i {
                    assert(self.tallies@[j] == s[j]);
                }
            }
        }
        self.connection_count
    }

    /// Decodes `packet` and counts the attempt it records; returns the new
    /// running total, or why the frame gave no record, leaving the
    /// aggregate as it was.
    pub fn process(&mut self, packet: PacketOwned) -> (r: Result<u64, UnparsedPacket>)
        requires
            old(self).wf(),
            old(self).total() < u64::MAX,
        ensures
            final(self).wf(),
            match extracted(ethernet_layers(packet.data@), packet.capture_header.ts) {
                Ok(h) => {
                    &&& final(self).tallies() == tally_step(old(self).tallies(), h.source_ip, h.dest_port)
                    &&& final(self).total() == old(self).total() + 1
                    &&& r == Ok::<u64, UnparsedPacket>(final(self).total() as u64)
                },
                Err(e) => {
                    &&& final(self).tallies() == old(self).tallies()
                    &&& final(self).total() == old(self).total()
                    &&& r == Err::<u64, UnparsedPacket>(e)
                },
            },
    {
        match packet.headers() {
            Ok(h) => Ok(self.record(h.source_ip, h.dest_port)),
            Err(e) => Err(e),
        }
    }

    /// The report groups: one per source address, ports by descending count
    /// then ascending port, groups by descending total then address.
    pub fn groups(&self) -> (r: Vec<GroupReport>)
        requires
            self.wf(),
        ensures
            is_report(self.tallies(), r@),
    {
        group_tallies(&self.tallies)
    }

    /// Consumes the aggregate and appends its report to `out`: one line per
    /// source address, each labelled by `protector`. Nothing is appended
    /// when no attempt was counted.
    pub fn digest(self, protector: &Protector, out: &mut Vec<u8>)
        requires
            self.wf(),
        ensures
            exists|gs: Seq<GroupReport>|
                is_report(self.tallies(), gs) && final(out)@ == old(out)@ + report_text(*protector, gs),
            self.tallies().len() == 0 ==> final(out)@ == old(out)@,
    {
        let gs = self.groups();
        write_report(&gs, protector, out);
        proof {
            if self.tallies().len() == 0 {
                if gs@.len() > 0 {
                    assert(gs@[0].ports@.len() > 0);
                    assert(gs@[0].ports@.contains(gs@[0].ports@[0]));
                }
                assert(gs@ =~= Seq::<GroupReport>::empty());
                assert(report_text(*protector, gs@) =~= Seq::<u8>::empty());
            }
        }
    }
}

impl Default for Collector {
    fn default() -> (r: Collector)
        ensures
            r.wf(),
            r.tallies() == Seq::<PortTally>::empty(),
            r.total() == 0,
    {
        Collector::new()
    }
}

} // verus!
