//! Last-seen times of gateways, held in memory.

use crate::apiary::{apiary_at, lists_gateway, ApiaryView, Hierarchy};
use crate::shared::Failure;
use vstd::prelude::*;

verus! {

/// A ping record as plain values: facility, gateway and the time in epoch
/// milliseconds.
pub type PingView = (Seq<char>, Seq<char>, i64);

/// The record at index `i` is the gateway's.
pub open spec fn ping_at(
    pings: Seq<PingView>,
    i: int,
    facility: Seq<char>,
    gateway: Seq<char>,
) -> bool {
    0 <= i < pings.len() && pings[i].0 == facility && pings[i].1 == gateway
}

/// When the gateway was last seen; the epoch origin if never.
pub open spec fn last_seen(pings: Seq<PingView>, facility: Seq<char>, gateway: Seq<char>) -> i64 {
    if exists|i: int| ping_at(pings, i, facility, gateway) {
        pings[choose|i: int| ping_at(pings, i, facility, gateway)].2
    } else {
        0
    }
}

/// No two records are for the same gateway of the same facility.
pub open spec fn keys_unique(pings: Seq<PingView>) -> bool {
    forall|i: int, j: int|
        0 <= i < pings.len() && 0 <= j < pings.len() && i != j ==> ((#[trigger] pings[i]).0,
        pings[i].1) != ((#[trigger] pings[j]).0, pings[j].1)
}

/// The hierarchy has this gateway in this facility.
pub open spec fn known_gateway(h: Seq<ApiaryView>, facility: Seq<char>, gateway: Seq<char>) -> bool {
    exists|i: int| apiary_at(h, i, facility) && lists_gateway(h[i].gateways, gateway)
}

struct PingEntry {
    facility: String,
    gateway: String,
    millis: i64,
}

impl View for PingEntry {
    type V = PingView;

    closed spec fn view(&self) -> PingView {
        (self.facility@, self.gateway@, self.millis)
    }
}

/// The last time each gateway pinged.
pub struct GatewayPings {
    entries: Vec<PingEntry>,
}

impl View for GatewayPings {
    type V = Seq<PingView>;

    closed spec fn view(&self) -> Seq<PingView> {
        self.entries@.map_values(|e: PingEntry| e@)
    }
}

proof fn lemma_last_seen_at(pings: Seq<PingView>, i: int)
    requires
        keys_unique(pings),
        0 <= i < pings.len(),
    ensures
        last_seen(pings, pings[i].0, pings[i].1) == pings[i].2,
{
    let k = choose|k: int| ping_at(pings, k, pings[i].0, pings[i].1);
    assert(ping_at(pings, i, pings[i].0, pings[i].1));
    if k != i {
        assert(((pings[k]).0, pings[k].1) != ((pings[i]).0, pings[i].1));
    }
}

/// Two record lists that hold the same records for a gateway agree on when
/// it was last seen.
proof fn lemma_same_records(a: Seq<PingView>, b: Seq<PingView>, f: Seq<char>, g: Seq<char>)
    requires
        keys_unique(a),
        keys_unique(b),
        forall|j: int| ping_at(a, j, f, g) ==> j < b.len() && b[j] == a[j],
        forall|j: int| ping_at(b, j, f, g) ==> j < a.len() && a[j] == b[j],
    ensures
        last_seen(a, f, g) == last_seen(b, f, g),
{
    if exists|i: int| ping_at(a, i, f, g) {
        let i = choose|i: int| ping_at(a, i, f, g);
        assert(ping_at(b, i, f, g));
        lemma_last_seen_at(a, i);
        lemma_last_seen_at(b, i);
    } else {
        assert(!exists|i: int| ping_at(b, i, f, g)) by {
            if exists|i: int| ping_at(b, i, f, g) {
                let i = choose|i: int| ping_at(b, i, f, g);
                assert(ping_at(a, i, f, g));
            }
        }
    }
}

impl GatewayPings {
    #[verifier::type_invariant]
    spec fn inv(self) -> bool {
        keys_unique(self.entries@.map_values(|e: PingEntry| e@))
    }

    /// No gateway has pinged yet.
    pub fn new() -> (r: GatewayPings)
        ensures
            r@ == Seq::<PingView>::empty(),
    {
        let r = GatewayPings { entries: Vec::new() };
        assert(r.entries@.map_values(|e: PingEntry| e@) =~= Seq::<PingView>::empty());
        r
    }

    /// Records that the gateway pinged at `now`; an authorization failure,
    /// changing nothing, where the hierarchy does not have the gateway in the
    /// facility.
    pub fn record(&mut self, h: &Hierarchy, facility: &String, gateway: &String, now: i64) -> (r:
        Result<(), Failure>)
        ensures
            !known_gateway(h@, facility@, gateway@) ==> r == Err::<(), Failure>(
                Failure::Authorization,
            ) && final(self)@ == old(self)@,
            known_gateway(h@, facility@, gateway@) ==> r is Ok,
            known_gateway(h@, facility@, gateway@) ==> last_seen(final(self)@, facility@, gateway@)
                == now,
            forall|f: Seq<char>, g: Seq<char>|
                (f, g) != (facility@, gateway@) ==> #[trigger] last_seen(final(self)@, f, g)
                    == last_seen(old(self)@, f, g),
    {
        proof {
            use_type_invariant(&*self);
        }
        if !h.has_gateway(facility, gateway.clone()) {
            return Err(Failure::Authorization);
        }
        let mut entries: Vec<PingEntry> = Vec::new();
        std::mem::swap(&mut entries, &mut self.entries);
        let ghost old_views = entries@.map_values(|e: PingEntry| e@);
        let mut i: usize = 0;
        while i < entries.len()
            invariant
                i <= entries@.len(),
                old_views == entries@.map_values(|e: PingEntry| e@),
                old_views == old(self)@,
                keys_unique(old_views),
                forall|j: int| 0 <= j < i ==> !ping_at(old_views, j, facility@, gateway@),
                known_gateway(h@, facility@, gateway@),
            decreases entries.len() - i,
        {
            if entries[i].facility == *facility && entries[i].gateway == *gateway {
                let e = PingEntry { facility: facility.clone(), gateway: gateway.clone(), millis: now };
                let ghost ev = e@;
                entries.set(i, e);
                let ghost new_views = old_views.update(i as int, ev);
                assert(entries@.map_values(|e: PingEntry| e@) =~= new_views);
                proof {
                    assert forall|k: int| 0 <= k < new_views.len() implies (#[trigger] new_views[k]).0
                        == old_views[k].0 && new_views[k].1 == old_views[k].1 by {}
                    assert(keys_unique(new_views));
                    assert forall|f: Seq<char>, g: Seq<char>|
                        (f, g) != (facility@, gateway@) implies #[trigger] last_seen(new_views, f, g)
                        == last_seen(old_views, f, g) by {
                        lemma_same_records(new_views, old_views, f, g);
                    }
                    lemma_last_seen_at(new_views, i as int);
                }
                self.entries = entries;
                return Ok(());
            }
            i = i + 1;
        }
        let e = PingEntry { facility: facility.clone(), gateway: gateway.clone(), millis: now };
        let ghost ev = e@;
        entries.push(e);
        let ghost new_views = old_views.push(ev);
        assert(entries@.map_values(|e: PingEntry| e@) =~= new_views);
        proof {
            assert forall|x: int, y: int|
                0 <= x < new_views.len() && 0 <= y < new_views.len() && x != y implies ((
                #[trigger] new_views[x]).0, new_views[x].1) != ((#[trigger] new_views[y]).0,
                new_views[y].1) by {
                if x < old_views.len() && y < old_views.len() {
                    assert(new_views[x] == old_views[x] && new_views[y] == old_views[y]);
                } else if x < old_views.len() {
                    assert(new_views[x] == old_views[x]);
                    assert(!ping_at(old_views, x, facility@, gateway@));
                } else {
                    assert(new_views[y] == old_views[y]);
                    assert(!ping_at(old_views, y, facility@, gateway@));
                }
            }
            assert forall|f: Seq<char>, g: Seq<char>|
                (f, g) != (facility@, gateway@) implies #[trigger] last_seen(new_views, f, g)
                == last_seen(old_views, f, g) by {
                lemma_same_records(new_views, old_views, f, g);
            }
            lemma_last_seen_at(new_views, old_views.len() as int);
        }
        self.entries = entries;
        Ok(())
    }

    /// When the gateway last pinged (the epoch origin if never); an
    /// authorization failure where the hierarchy does not have the gateway in
    /// the facility.
    pub fn last_ping(&self, h: &Hierarchy, facility: &String, gateway: &String) -> (r: Result<
        i64,
        Failure,
    >)
        ensures
            !known_gateway(h@, facility@, gateway@) ==> r == Err::<i64, Failure>(
                Failure::Authorization,
            ),
            known_gateway(h@, facility@, gateway@) ==> r == Ok::<i64, Failure>(
                last_seen(self@, facility@, gateway@),
            ),
    {
        proof {
            use_type_invariant(self);
        }
        if !h.has_gateway(facility, gateway.clone()) {
            return Err(Failure::Authorization);
        }
        let mut i: usize = 0;
        while i < self.entries.len()
            invariant
                i <= self.entries@.len(),
                keys_unique(self@),
                forall|j: int| 0 <= j < i ==> !ping_at(self@, j, facility@, gateway@),
                known_gateway(h@, facility@, gateway@),
            decreases self.entries.len() - i,
        {
            if self.entries[i].facility == *facility && self.entries[i].gateway == *gateway {
                proof {
                    lemma_last_seen_at(self@, i as int);
                }
                return Ok(self.entries[i].millis);
            }
            i = i + 1;
        }
        Ok(0)
    }
}

} // verus!
